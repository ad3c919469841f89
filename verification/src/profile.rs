//! The player's profile and where each game is installed.
use vstd::prelude::*;
use crate::paths::{default_game_install_root, default_install_root, GamePath};
use crate::text::{chars_equal, chars_of, string_from_chars, trim, trimmed};

verus! {

/// The value stored for `key`: that of the first entry with that key.
pub open spec fn lookup(entries: Seq<(Seq<char>, Seq<char>)>, key: Seq<char>) -> Option<Seq<char>>
    decreases entries.len(),
{
    if entries.len() == 0 {
        None
    } else if entries[0].0 == key {
        Some(entries[0].1)
    } else {
        lookup(entries.drop_first(), key)
    }
}

/// No key occurs twice.
pub open spec fn distinct_keys(entries: Seq<(Seq<char>, Seq<char>)>) -> bool {
    forall|i: int, j: int|
        0 <= i < j < entries.len() ==> #[trigger] entries[i].0 != #[trigger] entries[j].0
}

/// A map from text keys to text values, kept as a list of entries with distinct keys.
pub struct TextMap {
    entries: Vec<(String, String)>,
}

/// The views of a list of entries.
pub open spec fn entries_view(v: Seq<(String, String)>) -> Seq<(Seq<char>, Seq<char>)> {
    v.map_values(|e: (String, String)| (e.0@, e.1@))
}

impl View for TextMap {
    type V = Seq<(Seq<char>, Seq<char>)>;

    closed spec fn view(&self) -> Seq<(Seq<char>, Seq<char>)> {
        entries_view(self.entries@)
    }
}

proof fn lemma_lookup_absent(entries: Seq<(Seq<char>, Seq<char>)>, key: Seq<char>)
    requires
        forall|i: int| 0 <= i < entries.len() ==> #[trigger] entries[i].0 != key,
    ensures
        lookup(entries, key) is None,
    decreases entries.len(),
{
    if entries.len() > 0 {
        assert forall|i: int| 0 <= i < entries.drop_first().len() implies #[trigger] entries.drop_first()[i].0
            != key by {
            assert(entries.drop_first()[i] == entries[i + 1]);
        }
        lemma_lookup_absent(entries.drop_first(), key);
    }
}

proof fn lemma_lookup_at(entries: Seq<(Seq<char>, Seq<char>)>, key: Seq<char>, k: int)
    requires
        0 <= k < entries.len(),
        entries[k].0 == key,
        forall|i: int| 0 <= i < k ==> #[trigger] entries[i].0 != key,
    ensures
        lookup(entries, key) == Some(entries[k].1),
    decreases entries.len(),
{
    if k > 0 {
        assert forall|i: int| 0 <= i < k - 1 implies #[trigger] entries.drop_first()[i].0 != key by {
            assert(entries.drop_first()[i] == entries[i + 1]);
        }
        lemma_lookup_at(entries.drop_first(), key, k - 1);
    }
}

proof fn lemma_lookup_push(entries: Seq<(Seq<char>, Seq<char>)>, e: (Seq<char>, Seq<char>), key: Seq<char>)
    requires
        lookup(entries, e.0) is None,
    ensures
        lookup(entries.push(e), key) == (if key == e.0 {
            Some(e.1)
        } else {
            lookup(entries, key)
        }),
    decreases entries.len(),
{
    if entries.len() == 0 {
        assert(entries.push(e)[0] == e);
        assert(entries.push(e).drop_first().len() == 0);
    } else {
        assert(entries.push(e).drop_first() == entries.drop_first().push(e));
        assert(entries.push(e)[0] == entries[0]);
        lemma_lookup_push(entries.drop_first(), e, key);
    }
}

impl TextMap {
    #[verifier::type_invariant]
    closed spec fn keys_distinct(self) -> bool {
        distinct_keys(self@)
    }

    /// An empty map.
    pub fn new() -> (m: TextMap)
        ensures
            forall|k: Seq<char>| lookup(m@, k) is None,
    {
        let m = TextMap { entries: Vec::new() };
        assert(m@.len() == 0);
        m
    }

    /// The value for `key`, if any.
    pub fn get(&self, key: &str) -> (r: Option<String>)
        ensures
            match r {
                Some(v) => lookup(self@, key@) == Some(v@),
                None => lookup(self@, key@) is None,
            },
    {
        proof {
            use_type_invariant(self);
        }
        let k = chars_of(key);
        let mut i: usize = 0;
        while i < self.entries.len()
            invariant
                i <= self.entries.len(),
                self@.len() == self.entries.len(),
                k@ == key@,
                forall|j: int| 0 <= j < i ==> #[trigger] self@[j].0 != key@,
            decreases self.entries.len() - i,
        {
            let c = chars_of(self.entries[i].0.as_str());
            assert(self@[i as int] == (self.entries@[i as int].0@, self.entries@[i as int].1@));
            if chars_equal(&c, &k) {
                proof {
                    lemma_lookup_at(self@, key@, i as int);
                }
                return Some(self.entries[i].1.clone());
            }
            i = i + 1;
        }
        proof {
            lemma_lookup_absent(self@, key@);
        }
        None
    }

    /// Sets the value for `key`, replacing any earlier one.
    pub fn insert(&mut self, key: &str, value: &str)
        ensures
            forall|k: Seq<char>|
                #![trigger lookup(final(self)@, k)]
                lookup(final(self)@, k) == (if k == key@ {
                    Some(value@)
                } else {
                    lookup(old(self)@, k)
                }),
    {
        proof {
            use_type_invariant(&*self);
        }
        let ghost old_view = self@;
        let kept = self.without(key);
        let mut entries = kept;
        let ghost kv = entries_view(entries@);
        let k = key.to_string();
        let v = value.to_string();
        proof {
            vstd::string::to_string_from_display_ensures_for_str(key, k);
            vstd::string::to_string_from_display_ensures_for_str(value, v);
        }
        entries.push((k, v));
        proof {
            let nv = entries_view(entries@);
            assert(nv =~= kv.push((key@, value@)));
            assert forall|a: Seq<char>| #![trigger lookup(nv, a)] lookup(nv, a) == (if a == key@ {
                Some(value@)
            } else {
                lookup(old_view, a)
            }) by {
                lemma_lookup_push(kv, (key@, value@), a);
            }
            assert(distinct_keys(nv)) by {
                assert forall|i: int, j: int| 0 <= i < j < nv.len() implies #[trigger] nv[i].0
                    != #[trigger] nv[j].0 by {
                    if j == nv.len() - 1 {
                        assert(nv[j].0 == key@);
                        assert(nv[i] == kv[i]);
                        if kv[i].0 == key@ {
                            lemma_lookup_at_any(kv, key@, i);
                        }
                    } else {
                        assert(nv[i] == kv[i] && nv[j] == kv[j]);
                    }
                }
            }
        }
        self.entries = entries;
    }

    /// Removes the value for `key`.
    pub fn remove(&mut self, key: &str)
        ensures
            forall|k: Seq<char>|
                #![trigger lookup(final(self)@, k)]
                lookup(final(self)@, k) == (if k == key@ {
                    None
                } else {
                    lookup(old(self)@, k)
                }),
    {
        proof {
            use_type_invariant(&*self);
        }
        let entries = self.without(key);
        self.entries = entries;
    }

    /// The entries, in order.
    pub fn pairs(&self) -> (r: &Vec<(String, String)>)
        ensures
            entries_view(r@) == self@,
    {
        &self.entries
    }

    /// The entries without the one for `key`, in order.
    fn without(&self, key: &str) -> (r: Vec<(String, String)>)
        ensures
            distinct_keys(entries_view(r@)),
            forall|k: Seq<char>|
                #![trigger lookup(entries_view(r@), k)]
                lookup(entries_view(r@), k) == (if k == key@ {
                    None
                } else {
                    lookup(self@, k)
                }),
    {
        proof {
            use_type_invariant(self);
        }
        let k = chars_of(key);
        let mut out: Vec<(String, String)> = Vec::new();
        let mut i: usize = 0;
        while i < self.entries.len()
            invariant
                i <= self.entries.len(),
                self@.len() == self.entries.len(),
                k@ == key@,
                distinct_keys(self@),
                ({
                    let ov = entries_view(out@);
                    &&& distinct_keys(ov)
                    &&& forall|j: int| 0 <= j < ov.len() ==> #[trigger] ov[j].0 != key@
                    &&& forall|j: int|
                        0 <= j < ov.len() ==> exists|t: int|
                            0 <= t < i && #[trigger] self@[t] == #[trigger] ov[j]
                    &&& forall|a: Seq<char>|
                        #![trigger lookup(ov, a)]
                        a != key@ ==> lookup(ov, a) == lookup_prefix(self@, a, i as int)
                }),
            decreases self.entries.len() - i,
        {
            let c = chars_of(self.entries[i].0.as_str());
            let ghost ov = entries_view(out@);
            let ghost cur = self@[i as int];
            assert(cur == (self.entries@[i as int].0@, self.entries@[i as int].1@));
            if !chars_equal(&c, &k) {
                out.push((self.entries[i].0.clone(), self.entries[i].1.clone()));
                proof {
                    let nv = entries_view(out@);
                    assert(nv =~= ov.push(cur));
                    assert forall|j: int| 0 <= j < ov.len() implies #[trigger] ov[j].0 != cur.0 by {
                        let t = choose|t: int| 0 <= t < i && #[trigger] self@[t] == #[trigger] ov[j];
                        assert(self@[t].0 != self@[i as int].0);
                    }
                    assert(lookup(ov, cur.0) is None) by {
                        lemma_lookup_absent(ov, cur.0);
                    }
                    assert forall|a: Seq<char>| #![trigger lookup(nv, a)] a != key@ implies lookup(
                        nv,
                        a,
                    ) == lookup_prefix(self@, a, i + 1) by {
                        lemma_lookup_push(ov, cur, a);
                        lemma_prefix_step(self@, i as int, a);
                    }
                    assert forall|j: int| 0 <= j < nv.len() implies exists|t: int|
                        0 <= t < i + 1 && #[trigger] self@[t] == #[trigger] nv[j] by {
                        if j < ov.len() {
                            let t = choose|t: int| 0 <= t < i && #[trigger] self@[t] == #[trigger] ov[j];
                            assert(self@[t] == nv[j]);
                        } else {
                            assert(self@[i as int] == nv[j]);
                        }
                    }
                }
            } else {
                proof {
                    assert forall|a: Seq<char>| #![trigger lookup(ov, a)] a != key@ implies lookup(
                        ov,
                        a,
                    ) == lookup_prefix(self@, a, i + 1) by {
                        lemma_prefix_step(self@, i as int, a);
                    }
                }
            }
            i = i + 1;
        }
        proof {
            let ov = entries_view(out@);
            assert forall|a: Seq<char>| #![trigger lookup(ov, a)] lookup(ov, a) == (if a == key@ {
                None
            } else {
                lookup(self@, a)
            }) by {
                if a == key@ {
                    lemma_lookup_absent(ov, a);
                } else {
                    lemma_lookup_prefix_full(self@, a);
                }
            }
        }
        out
    }
}

proof fn lemma_lookup_at_any(entries: Seq<(Seq<char>, Seq<char>)>, key: Seq<char>, k: int)
    requires
        0 <= k < entries.len(),
        entries[k].0 == key,
    ensures
        lookup(entries, key) is Some,
    decreases entries.len(),
{
    if entries[0].0 != key {
        assert(entries.drop_first()[k - 1] == entries[k]);
        lemma_lookup_at_any(entries.drop_first(), key, k - 1);
    }
}

/// The value for `key` among the first `n` entries.
pub open spec fn lookup_prefix(entries: Seq<(Seq<char>, Seq<char>)>, key: Seq<char>, n: int) -> Option<
    Seq<char>,
> {
    lookup(entries.take(n), key)
}

proof fn lemma_prefix_step(entries: Seq<(Seq<char>, Seq<char>)>, i: int, a: Seq<char>)
    requires
        distinct_keys(entries),
        0 <= i < entries.len(),
    ensures
        lookup_prefix(entries, a, i + 1) == (if a == entries[i].0 {
            Some(entries[i].1)
        } else {
            lookup_prefix(entries, a, i)
        }),
{
    let t = entries.take(i);
    assert(entries.take(i + 1) == t.push(entries[i]));
    assert forall|j: int| 0 <= j < t.len() implies #[trigger] t[j].0 != entries[i].0 by {
        assert(t[j] == entries[j]);
    }
    lemma_lookup_absent(t, entries[i].0);
    lemma_lookup_push(t, entries[i], a);
}

proof fn lemma_lookup_prefix_full(entries: Seq<(Seq<char>, Seq<char>)>, key: Seq<char>)
    ensures
        lookup_prefix(entries, key, entries.len() as int) == lookup(entries, key),
{
    assert(entries.take(entries.len() as int) == entries);
}

/// The player's profile.
pub struct Profile {
    pub nickname: String,
    pub api_url: String,
    pub game_install_paths: TextMap,
    pub selected_servers: TextMap,
}

impl Default for Profile {
    /// No nickname, the production bootstrap address, no custom paths or servers.
    fn default() -> (p: Profile)
        ensures
            p.nickname@.len() == 0,
            p.api_url@ == "https://chadow.ru/api/minecraft/bootstrap"@,
            forall|k: Seq<char>| lookup(p.game_install_paths@, k) is None,
            forall|k: Seq<char>| lookup(p.selected_servers@, k) is None,
    {
        let nickname = String::new();
        let api_url = "https://chadow.ru/api/minecraft/bootstrap".to_string();
        proof {
            vstd::string::to_string_from_display_ensures_for_str(
                "https://chadow.ru/api/minecraft/bootstrap",
                api_url,
            );
        }
        Profile {
            nickname,
            api_url,
            game_install_paths: TextMap::new(),
            selected_servers: TextMap::new(),
        }
    }
}

/// The folder chosen for a game: its stored path when that is not blank.
pub open spec fn custom_path(paths: Seq<(Seq<char>, Seq<char>)>, game_id: Seq<char>) -> Option<
    Seq<char>,
> {
    match lookup(paths, game_id) {
        Some(v) => if trim(v).len() > 0 {
            Some(v)
        } else {
            None
        },
        None => None,
    }
}

/// Where a game is installed: the folder chosen for it (trimmed), else its default.
pub open spec fn install_root(
    paths: Seq<(Seq<char>, Seq<char>)>,
    launcher: Seq<Seq<char>>,
    game_id: Seq<char>,
) -> Seq<Seq<char>> {
    match custom_path(paths, game_id) {
        Some(v) => seq![trim(v)],
        None => default_install_root(launcher, game_id),
    }
}

/// Where a game is installed.
pub fn game_install_root(profile: &Profile, launcher: &GamePath, game_id: &str) -> (p: GamePath)
    ensures
        p@ == install_root(profile.game_install_paths@, launcher@, game_id@),
{
    if let Some(path) = profile.game_install_paths.get(game_id) {
        let t = trimmed(path.as_str());
        if t.len() > 0 {
            let s = string_from_chars(&t);
            return GamePath::from_root(s.as_str());
        }
    }
    default_game_install_root(launcher, game_id)
}

/// Where a game is installed and where it would be by default.
pub struct GameInstallPathInfo {
    pub game_id: String,
    pub path: GamePath,
    pub default_path: GamePath,
    pub is_custom: bool,
}

/// What the settings show about a game's folder: the chosen folder as stored when
/// there is one, else the default; the default; and whether a folder was chosen.
pub fn game_install_path_info(profile: &Profile, launcher: &GamePath, game_id: &str) -> (r:
    GameInstallPathInfo)
    ensures
        r.game_id@ == game_id@,
        r.is_custom == custom_path(profile.game_install_paths@, game_id@) is Some,
        r.default_path@ == default_install_root(launcher@, game_id@),
        r.path@ == match custom_path(profile.game_install_paths@, game_id@) {
            Some(v) => seq![v],
            None => default_install_root(launcher@, game_id@),
        },
{
    let default_path = default_game_install_root(launcher, game_id);
    let id = game_id.to_string();
    proof {
        vstd::string::to_string_from_display_ensures_for_str(game_id, id);
    }
    match profile.game_install_paths.get(game_id) {
        Some(v) => {
            let t = trimmed(v.as_str());
            if t.len() > 0 {
                return GameInstallPathInfo {
                    game_id: id,
                    path: GamePath::from_root(v.as_str()),
                    default_path,
                    is_custom: true,
                };
            }
        },
        None => {},
    }
    let path = default_path.duplicate();
    GameInstallPathInfo { game_id: id, path, default_path, is_custom: false }
}

/// The stored folders after choosing `path` for a game: a path that is not blank is
/// stored trimmed; no path or a blank one removes the choice.
pub open spec fn paths_after_choice(
    old_paths: Seq<(Seq<char>, Seq<char>)>,
    new_paths: Seq<(Seq<char>, Seq<char>)>,
    game_id: Seq<char>,
    path: Option<Seq<char>>,
) -> bool {
    forall|k: Seq<char>|
        #![trigger lookup(new_paths, k)]
        lookup(new_paths, k) == (if k == game_id {
            match path {
                Some(v) => if trim(v).len() > 0 {
                    Some(trim(v))
                } else {
                    None
                },
                None => None,
            }
        } else {
            lookup(old_paths, k)
        })
}

/// Chooses the folder of a game (or clears the choice).
pub fn set_game_install_path(profile: &mut Profile, game_id: &str, path: Option<String>)
    ensures
        paths_after_choice(
            old(profile).game_install_paths@,
            final(profile).game_install_paths@,
            game_id@,
            match path {
                Some(v) => Some(v@),
                None => None,
            },
        ),
        final(profile).nickname == old(profile).nickname,
        final(profile).api_url == old(profile).api_url,
        final(profile).selected_servers@ == old(profile).selected_servers@,
{
    match path {
        Some(value) => {
            let t = trimmed(value.as_str());
            if t.len() > 0 {
                let s = string_from_chars(&t);
                profile.game_install_paths.insert(game_id, s.as_str());
                return ;
            }
            profile.game_install_paths.remove(game_id);
        },
        None => {
            profile.game_install_paths.remove(game_id);
        },
    }
}

/// The chosen folders that are not blank, trimmed, in order.
pub open spec fn custom_dirs(entries: Seq<(Seq<char>, Seq<char>)>) -> Seq<Seq<char>>
    decreases entries.len(),
{
    if entries.len() == 0 {
        Seq::empty()
    } else {
        let earlier = custom_dirs(entries.drop_last());
        if trim(entries.last().1).len() > 0 {
            earlier.push(trim(entries.last().1))
        } else {
            earlier
        }
    }
}

/// The chosen game folders, which clearing all data removes as well.
pub fn custom_install_dirs(profile: &Profile) -> (r: Vec<String>)
    ensures
        r@.map_values(|s: String| s@) == custom_dirs(profile.game_install_paths@),
{
    let pairs = profile.game_install_paths.pairs();
    let mut out: Vec<String> = Vec::new();
    let mut i: usize = 0;
    while i < pairs.len()
        invariant
            i <= pairs.len(),
            entries_view(pairs@) == profile.game_install_paths@,
            out@.map_values(|s: String| s@) == custom_dirs(entries_view(pairs@).take(i as int)),
        decreases pairs.len() - i,
    {
        proof {
            let t = entries_view(pairs@).take(i + 1);
            assert(t.drop_last() == entries_view(pairs@).take(i as int));
            assert(t.last() == (pairs@[i as int].0@, pairs@[i as int].1@));
        }
        let t = trimmed(pairs[i].1.as_str());
        if t.len() > 0 {
            let ghost before = out@;
            out.push(string_from_chars(&t));
            assert(out@.map_values(|s: String| s@) =~= before.map_values(|s: String| s@).push(t@));
        }
        i = i + 1;
    }
    assert(entries_view(pairs@).take(pairs.len() as int) == entries_view(pairs@));
    out
}

/// Choosing a folder for a game that is not blank makes the game install there, trimmed.
pub proof fn chosen_folder_is_used(
    old_paths: Seq<(Seq<char>, Seq<char>)>,
    new_paths: Seq<(Seq<char>, Seq<char>)>,
    launcher: Seq<Seq<char>>,
    game_id: Seq<char>,
    folder: Seq<char>,
)
    requires
        paths_after_choice(old_paths, new_paths, game_id, Some(folder)),
        trim(folder).len() > 0,
    ensures
        install_root(new_paths, launcher, game_id) == seq![trim(folder)],
{
    assert(lookup(new_paths, game_id) == Some(trim(folder)));
    lemma_trim_idempotent(folder);
}

/// Clearing the choice of folder makes the game install in its default place.
pub proof fn cleared_folder_uses_default(
    old_paths: Seq<(Seq<char>, Seq<char>)>,
    new_paths: Seq<(Seq<char>, Seq<char>)>,
    launcher: Seq<Seq<char>>,
    game_id: Seq<char>,
)
    requires
        paths_after_choice(old_paths, new_paths, game_id, None),
    ensures
        install_root(new_paths, launcher, game_id) == default_install_root(launcher, game_id),
{
    assert(lookup(new_paths, game_id) is None);
}

/// Choosing a folder for one game leaves every other game where it was.
pub proof fn other_games_unaffected(
    old_paths: Seq<(Seq<char>, Seq<char>)>,
    new_paths: Seq<(Seq<char>, Seq<char>)>,
    launcher: Seq<Seq<char>>,
    game_id: Seq<char>,
    path: Option<Seq<char>>,
    other: Seq<char>,
)
    requires
        paths_after_choice(old_paths, new_paths, game_id, path),
        other != game_id,
    ensures
        install_root(new_paths, launcher, other) == install_root(old_paths, launcher, other),
{
    assert(lookup(new_paths, other) == lookup(old_paths, other));
}

proof fn lemma_trim_idempotent(s: Seq<char>)
    ensures
        trim(trim(s)) == trim(s),
{
    crate::text::lemma_trim_twice(s);
}

} // verus!
