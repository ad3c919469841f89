//! Launching the game: which server to join, which arguments apply, how
//! placeholders are filled, and the Java command line.
use vstd::prelude::*;
use crate::paths::GamePath;
use crate::text::{
    chars_equal, chars_equal_str, chars_of, contains, contains_str, decimal, eq_ignore_ascii_case,
    eq_ignore_ascii_case_chars, join, join_chars, push_all, push_decimal, push_signed_decimal,
    push_str, replace_all, replace_chars, signed_decimal, slice_chars, split_char, split_chars,
    starts_with, starts_with_str, string_from_chars, trim, trim_chars, trimmed,
};

verus! {

// ---------------------------------------------------------------------------
// Choosing a server
// ---------------------------------------------------------------------------

/// A server listed by the bootstrap document.
pub struct ServerEntry {
    pub id: Option<String>,
    pub host: String,
    pub port: Option<u16>,
    pub connect_host: Option<String>,
    pub connect_port: Option<u16>,
}

/// A game listed by the bootstrap document, with its servers.
pub struct GameEntry {
    pub id: Option<String>,
    pub servers: Vec<ServerEntry>,
}

/// What the bootstrap document says about servers: its `games` and `servers` arrays
/// when present, each element absent (`None`) where it does not have the expected shape.
pub struct BootstrapServers {
    pub games: Option<Vec<Option<GameEntry>>>,
    pub servers: Option<Vec<Option<ServerEntry>>>,
}

/// The port used when a server names none.
pub const DEFAULT_SERVER_PORT: u16 = 25565;

/// Where to connect for a server: its connect host when that is not blank, else its
/// host, both trimmed; its connect port, else its port, else 25565. None when the
/// host to use is blank.
pub open spec fn connect_target(s: ServerEntry) -> Option<(Seq<char>, u16)> {
    let display = trim(s.host@);
    let chosen = match s.connect_host {
        Some(h) => if trim(h@).len() > 0 {
            trim(h@)
        } else {
            display
        },
        None => display,
    };
    let port = match s.connect_port {
        Some(p) => p,
        None => match s.port {
            Some(p) => p,
            None => 25565u16,
        },
    };
    if chosen.len() == 0 {
        None
    } else {
        Some((chosen, port))
    }
}

/// Where to connect for a server, if anywhere.
pub fn resolve_connect(server: &ServerEntry) -> (r: Option<(String, u16)>)
    ensures
        match r {
            Some((h, p)) => connect_target(*server) == Some((h@, p)),
            None => connect_target(*server) is None,
        },
{
    let display = trimmed(server.host.as_str());
    let chosen = match &server.connect_host {
        Some(h) => {
            let t = trimmed(h.as_str());
            if t.len() > 0 {
                t
            } else {
                display
            }
        },
        None => display,
    };
    if chosen.len() == 0 {
        return None;
    }
    let port = match server.connect_port {
        Some(p) => p,
        None => match server.port {
            Some(p) => p,
            None => DEFAULT_SERVER_PORT,
        },
    };
    Some((string_from_chars(&chosen), port))
}

/// The id a game entry stands for: its own, or `minecraft` when it gives none.
pub open spec fn game_id_of(g: GameEntry) -> Seq<char> {
    match g.id {
        Some(id) => id@,
        None => "minecraft"@,
    }
}

/// Index of the first well-formed game entry for `game_id`, or -1.
pub open spec fn matching_game(games: Seq<Option<GameEntry>>, game_id: Seq<char>) -> int
    decreases games.len(),
{
    if games.len() == 0 {
        -1
    } else if games[0] matches Some(g) && game_id_of(g) == game_id {
        0
    } else {
        let r = matching_game(games.drop_first(), game_id);
        if r < 0 {
            -1
        } else {
            r + 1
        }
    }
}

/// The servers of the first well-formed game entry for `game_id`, or none.
pub open spec fn game_servers(b: BootstrapServers, game_id: Seq<char>) -> Seq<ServerEntry> {
    match b.games {
        Some(games) => {
            let k = matching_game(games@, game_id);
            if 0 <= k < games@.len() {
                match games@[k] {
                    Some(g) => g.servers@,
                    None => Seq::empty(),
                }
            } else {
                Seq::empty()
            }
        },
        None => Seq::empty(),
    }
}

/// The first target among `servers`, skipping servers with none.
pub open spec fn first_target(servers: Seq<ServerEntry>) -> Option<(Seq<char>, u16)>
    decreases servers.len(),
{
    if servers.len() == 0 {
        None
    } else if connect_target(servers[0]) is Some {
        connect_target(servers[0])
    } else {
        first_target(servers.drop_first())
    }
}

/// The first target among the servers with id `id`, skipping those with none.
pub open spec fn first_target_with_id(servers: Seq<ServerEntry>, id: Seq<char>) -> Option<
    (Seq<char>, u16),
>
    decreases servers.len(),
{
    if servers.len() == 0 {
        None
    } else if (servers[0].id matches Some(sid) && sid@ == id) && connect_target(
        servers[0],
    ) is Some {
        connect_target(servers[0])
    } else {
        first_target_with_id(servers.drop_first(), id)
    }
}

/// The well-formed entries of the top-level server list, in order.
pub open spec fn listed_servers(list: Seq<Option<ServerEntry>>) -> Seq<ServerEntry>
    decreases list.len(),
{
    if list.len() == 0 {
        Seq::empty()
    } else {
        match list[0] {
            Some(s) => seq![s] + listed_servers(list.drop_first()),
            None => listed_servers(list.drop_first()),
        }
    }
}

/// The servers to choose from: those of the game when it lists any, else the
/// well-formed entries of the top-level list.
pub open spec fn candidate_servers(b: BootstrapServers, game_id: Seq<char>) -> Seq<ServerEntry> {
    if game_servers(b, game_id).len() > 0 {
        game_servers(b, game_id)
    } else {
        match b.servers {
            Some(list) => listed_servers(list@),
            None => Seq::empty(),
        }
    }
}

/// The server to join: the first usable one with the requested id (trimmed, when not
/// blank), else the first usable one.
pub open spec fn chosen_server(
    b: BootstrapServers,
    game_id: Seq<char>,
    server_id: Option<Seq<char>>,
) -> Option<(Seq<char>, u16)> {
    let servers = candidate_servers(b, game_id);
    match server_id {
        Some(id) if trim(id).len() > 0 && first_target_with_id(servers, trim(id)) is Some =>
            first_target_with_id(servers, trim(id)),
        _ => first_target(servers),
    }
}

fn find_game(games: &Vec<Option<GameEntry>>, game_id: &Vec<char>) -> (r: Option<usize>)
    ensures
        match r {
            Some(k) => matching_game(games@, game_id@) == k && k < games.len(),
            None => matching_game(games@, game_id@) == -1,
        },
{
    let mut i: usize = 0;
    assert(games@.skip(0) == games@);
    while i < games.len()
        invariant
            i <= games.len(),
            matching_game(games@, game_id@) == (if matching_game(games@.skip(i as int), game_id@)
                < 0 {
                -1
            } else {
                matching_game(games@.skip(i as int), game_id@) + i
            }),
        decreases games.len() - i,
    {
        let ghost rest = games@.skip(i as int);
        assert(rest[0] == games@[i as int]);
        assert(rest.drop_first() == games@.skip(i + 1));
        if let Some(g) = &games[i] {
            let matched = match &g.id {
                Some(id) => {
                    let c = chars_of(id.as_str());
                    chars_equal(&c, game_id)
                },
                None => chars_equal_str(game_id, "minecraft"),
            };
            if matched {
                return Some(i);
            }
        }
        i = i + 1;
    }
    assert(games@.skip(i as int).len() == 0);
    None
}

fn first_target_in(servers: &Vec<ServerEntry>, id: Option<&Vec<char>>) -> (r: Option<(String, u16)>)
    ensures
        match id {
            Some(want) => match r {
                Some((h, p)) => first_target_with_id(servers@, want@) == Some((h@, p)),
                None => first_target_with_id(servers@, want@) is None,
            },
            None => match r {
                Some((h, p)) => first_target(servers@) == Some((h@, p)),
                None => first_target(servers@) is None,
            },
        },
{
    let mut i: usize = 0;
    assert(servers@.skip(0) == servers@);
    while i < servers.len()
        invariant
            i <= servers.len(),
            match id {
                Some(want) => first_target_with_id(servers@, want@) == first_target_with_id(
                    servers@.skip(i as int),
                    want@,
                ),
                None => first_target(servers@) == first_target(servers@.skip(i as int)),
            },
        decreases servers.len() - i,
    {
        let ghost rest = servers@.skip(i as int);
        assert(rest[0] == servers@[i as int]);
        assert(rest.drop_first() == servers@.skip(i + 1));
        let s = &servers[i];
        let id_ok = match id {
            Some(want) => match &s.id {
                Some(sid) => {
                    let c = chars_of(sid.as_str());
                    chars_equal(&c, want)
                },
                None => false,
            },
            None => true,
        };
        if id_ok {
            if let Some(t) = resolve_connect(s) {
                return Some(t);
            }
        }
        i = i + 1;
    }
    assert(servers@.skip(i as int).len() == 0);
    None
}

fn first_listed_target(list: &Vec<Option<ServerEntry>>, id: Option<&Vec<char>>) -> (r: Option<
    (String, u16),
>)
    ensures
        match id {
            Some(want) => match r {
                Some((h, p)) => first_target_with_id(listed_servers(list@), want@) == Some(
                    (h@, p),
                ),
                None => first_target_with_id(listed_servers(list@), want@) is None,
            },
            None => match r {
                Some((h, p)) => first_target(listed_servers(list@)) == Some((h@, p)),
                None => first_target(listed_servers(list@)) is None,
            },
        },
{
    let mut i: usize = 0;
    assert(list@.skip(0) == list@);
    while i < list.len()
        invariant
            i <= list.len(),
            match id {
                Some(want) => first_target_with_id(listed_servers(list@), want@)
                    == first_target_with_id(listed_servers(list@.skip(i as int)), want@),
                None => first_target(listed_servers(list@)) == first_target(
                    listed_servers(list@.skip(i as int)),
                ),
            },
        decreases list.len() - i,
    {
        let ghost rest = list@.skip(i as int);
        assert(rest[0] == list@[i as int]);
        assert(rest.drop_first() == list@.skip(i + 1));
        if let Some(s) = &list[i] {
            proof {
                assert(listed_servers(rest) == seq![*s] + listed_servers(rest.drop_first()));
                assert((seq![*s] + listed_servers(rest.drop_first()))[0] == *s);
                assert((seq![*s] + listed_servers(rest.drop_first())).drop_first()
                    == listed_servers(rest.drop_first()));
            }
            let id_ok = match id {
                Some(want) => match &s.id {
                    Some(sid) => {
                        let c = chars_of(sid.as_str());
                        chars_equal(&c, want)
                    },
                    None => false,
                },
                None => true,
            };
            if id_ok {
                if let Some(t) = resolve_connect(s) {
                    return Some(t);
                }
            }
        }
        i = i + 1;
    }
    assert(list@.skip(i as int).len() == 0);
    None
}

/// The server to join for `game_id`, preferring `server_id` when it is given and
/// not blank.
pub fn pick_launch_server(bootstrap: &BootstrapServers, game_id: &str, server_id: Option<&str>) -> (r:
    Option<(String, u16)>)
    ensures
        match r {
            Some((h, p)) => chosen_server(
                *bootstrap,
                game_id@,
                match server_id {
                    Some(s) => Some(s@),
                    None => None,
                },
            ) == Some((h@, p)),
            None => chosen_server(
                *bootstrap,
                game_id@,
                match server_id {
                    Some(s) => Some(s@),
                    None => None,
                },
            ) is None,
        },
{
    let gid = chars_of(game_id);
    let wanted: Option<Vec<char>> = match server_id {
        Some(s) => {
            let t = trimmed(s);
            if t.len() > 0 {
                Some(t)
            } else {
                None
            }
        },
        None => None,
    };
    let mut game_index: Option<usize> = None;
    if let Some(games) = &bootstrap.games {
        game_index = find_game(games, &gid);
    }
    let mut use_game = false;
    if let Some(k) = game_index {
        if let Some(games) = &bootstrap.games {
            if let Some(g) = &games[k] {
                use_game = g.servers.len() > 0;
            }
        }
    }
    proof {
        assert(use_game == (game_servers(*bootstrap, game_id@).len() > 0));
    }
    if use_game {
        match (game_index, &bootstrap.games) {
            (Some(k), Some(games)) => match &games[k] {
                Some(g) => {
                    if let Some(w) = &wanted {
                        if let Some(t) = first_target_in(&g.servers, Some(w)) {
                            return Some(t);
                        }
                    }
                    return first_target_in(&g.servers, None);
                },
                None => {},
            },
            _ => {},
        }
        return None;
    }
    match &bootstrap.servers {
        Some(list) => {
            if let Some(w) = &wanted {
                if let Some(t) = first_listed_target(list, Some(w)) {
                    return Some(t);
                }
            }
            first_listed_target(list, None)
        },
        None => {
            proof {
                assert(first_target(Seq::<ServerEntry>::empty()) is None);
                assert(first_target_with_id(Seq::<ServerEntry>::empty(), Seq::empty()) is None);
            }
            None
        },
    }
}

/// The quick-play address `host:port`.
pub fn format_quick_play_server(host: &str, port: u16) -> (r: String)
    ensures
        r@ == host@ + ":"@ + decimal(port as nat),
{
    let mut out = chars_of(host);
    push_str(&mut out, ":");
    push_decimal(&mut out, port as u64);
    string_from_chars(&out)
}

// ---------------------------------------------------------------------------
// Argument rules and placeholders
// ---------------------------------------------------------------------------

/// The system an argument rule is about.
pub struct ArgRuleOs {
    pub name: Option<String>,
    pub arch: Option<String>,
}

/// A rule of a conditional argument: allow or disallow, possibly only on some system
/// or with some features. A feature's expected value is absent when it is not a boolean.
pub struct ArgRule {
    pub action: String,
    pub os: Option<ArgRuleOs>,
    pub features: Option<Vec<(String, Option<bool>)>>,
}

/// The features of this launch, by name, in order.
pub open spec fn feature_value(features: Seq<(Seq<char>, bool)>, key: Seq<char>) -> bool
    decreases features.len(),
{
    if features.len() == 0 {
        false
    } else if features[0].0 == key {
        features[0].1
    } else {
        feature_value(features.drop_first(), key)
    }
}

/// A rule's system condition holds here: Windows on x86 or x86_64, or not named.
pub open spec fn arg_os_ok(rule: ArgRule) -> bool {
    match rule.os {
        None => true,
        Some(os) => (match os.name {
            None => true,
            Some(n) => n@ == "windows"@,
        }) && (match os.arch {
            None => true,
            Some(a) => a@ == "x86_64"@ || a@ == "x86"@,
        }),
    }
}

/// Every feature a rule names has the value it expects (a non-boolean expects false).
pub open spec fn arg_features_ok(rule: ArgRule, features: Seq<(Seq<char>, bool)>) -> bool {
    match rule.features {
        None => true,
        Some(fs) => forall|i: int|
            0 <= i < fs@.len() ==> (match #[trigger] fs@[i].1 {
                Some(b) => b,
                None => false,
            }) == feature_value(features, fs@[i].0@),
    }
}

/// The last rule whose conditions hold decides; with no such rule the argument is left out.
pub open spec fn arg_rules_allow(rules: Seq<ArgRule>, features: Seq<(Seq<char>, bool)>) -> bool
    decreases rules.len(),
{
    if rules.len() == 0 {
        false
    } else if arg_os_ok(rules.last()) && arg_features_ok(rules.last(), features) {
        rules.last().action@ == "allow"@
    } else {
        arg_rules_allow(rules.drop_last(), features)
    }
}

/// An argument with these rules is used: it has none, or they allow it.
pub open spec fn rules_match(rules: Seq<ArgRule>, features: Seq<(Seq<char>, bool)>) -> bool {
    rules.len() == 0 || arg_rules_allow(rules, features)
}

fn feature_lookup(features: &Vec<(String, bool)>, key: &Vec<char>) -> (b: bool)
    ensures
        b == feature_value(flags_view(features@), key@),
{
    let mut i: usize = 0;
    let ghost fv = flags_view(features@);
    assert(fv.skip(0) == fv);
    while i < features.len()
        invariant
            i <= features.len(),
            fv == flags_view(features@),
            feature_value(fv, key@) == feature_value(fv.skip(i as int), key@),
        decreases features.len() - i,
    {
        let ghost rest = fv.skip(i as int);
        assert(rest[0] == (features@[i as int].0@, features@[i as int].1));
        assert(rest.drop_first() == fv.skip(i + 1));
        let k = chars_of(features[i].0.as_str());
        if chars_equal(&k, key) {
            return features[i].1;
        }
        i = i + 1;
    }
    false
}

fn arg_os_ok_exec(rule: &ArgRule) -> (b: bool)
    ensures
        b == arg_os_ok(*rule),
{
    match &rule.os {
        None => true,
        Some(os) => {
            let name_ok = match &os.name {
                None => true,
                Some(n) => {
                    let c = chars_of(n.as_str());
                    chars_equal_str(&c, "windows")
                },
            };
            let arch_ok = match &os.arch {
                None => true,
                Some(a) => {
                    let c = chars_of(a.as_str());
                    chars_equal_str(&c, "x86_64") || chars_equal_str(&c, "x86")
                },
            };
            name_ok && arch_ok
        },
    }
}

fn arg_features_ok_exec(rule: &ArgRule, features: &Vec<(String, bool)>) -> (b: bool)
    ensures
        b == arg_features_ok(*rule, flags_view(features@)),
{
    match rule.features.as_ref() {
        None => true,
        Some(fs) => {
            let mut i: usize = 0;
            while i < fs.len()
                invariant
                    i <= fs.len(),
                    rule.features == Some(*fs),
                    forall|j: int|
                        0 <= j < i ==> (match #[trigger] fs@[j].1 {
                            Some(b) => b,
                            None => false,
                        }) == feature_value(flags_view(features@), fs@[j].0@),
                decreases fs.len() - i,
            {
                let expected = match fs[i].1 {
                    Some(b) => b,
                    None => false,
                };
                let k = chars_of(fs[i].0.as_str());
                if feature_lookup(features, &k) != expected {
                    assert(!((match fs@[i as int].1 {
                        Some(b) => b,
                        None => false,
                    }) == feature_value(flags_view(features@), fs@[i as int].0@)));
                    return false;
                }
                i = i + 1;
            }
            true
        },
    }
}

/// Whether an argument with these rules is used.
pub fn rule_matches(rules: &Vec<ArgRule>, features: &Vec<(String, bool)>) -> (b: bool)
    ensures
        b == rules_match(rules@, flags_view(features@)),
{
    if rules.len() == 0 {
        return true;
    }
    let mut allowed = false;
    let mut i: usize = 0;
    while i < rules.len()
        invariant
            i <= rules.len(),
            allowed == arg_rules_allow(rules@.take(i as int), flags_view(features@)),
        decreases rules.len() - i,
    {
        let rule = &rules[i];
        proof {
            let t = rules@.take(i + 1);
            assert(t.drop_last() == rules@.take(i as int));
            assert(t.last() == rules@[i as int]);
        }
        if arg_os_ok_exec(rule) && arg_features_ok_exec(rule, features) {
            let a = chars_of(rule.action.as_str());
            allowed = chars_equal_str(&a, "allow");
        }
        i = i + 1;
    }
    assert(rules@.take(rules.len() as int) == rules@);
    allowed
}

/// The placeholder for a variable: `${key}`.
pub open spec fn placeholder(key: Seq<char>) -> Seq<char> {
    "${"@ + key + "}"@
}

/// `template` with each variable's placeholder replaced by its value, variable after
/// variable in order.
pub open spec fn substituted(template: Seq<char>, vars: Seq<(Seq<char>, Seq<char>)>) -> Seq<char>
    decreases vars.len(),
{
    if vars.len() == 0 {
        template
    } else {
        replace_all(
            substituted(template, vars.drop_last()),
            placeholder(vars.last().0),
            vars.last().1,
        )
    }
}

/// Fills the placeholders of `template` from `vars`.
pub fn substitute(template: &str, vars: &Vec<(String, String)>) -> (r: String)
    ensures
        r@ == substituted(template@, vars_view(vars@)),
{
    let mut result = chars_of(template);
    let mut i: usize = 0;
    while i < vars.len()
        invariant
            i <= vars.len(),
            result@ == substituted(template@, vars_view(vars@).take(i as int)),
        decreases vars.len() - i,
    {
        let mut pat = chars_of("${");
        push_str(&mut pat, vars[i].0.as_str());
        push_str(&mut pat, "}");
        proof {
            reveal_strlit("${");
            let t = vars_view(vars@).take(i + 1);
            assert(t.drop_last() == vars_view(vars@).take(i as int));
            assert(t.last() == (vars@[i as int].0@, vars@[i as int].1@));
        }
        let value = chars_of(vars[i].1.as_str());
        result = replace_chars(&result, &pat, &value);
        i = i + 1;
    }
    assert(vars_view(vars@).take(vars.len() as int) == vars_view(vars@));
    string_from_chars(&result)
}

/// A value still holds a placeholder.
pub open spec fn unresolved(value: Seq<char>) -> bool {
    contains(value, "${"@)
}

/// Whether `value` still holds a placeholder.
pub fn is_unresolved(value: &str) -> (b: bool)
    ensures
        b == unresolved(value@),
{
    let v = chars_of(value);
    contains_str(&v, "${")
}

/// The argument `raw` gives once filled: kept when not empty and fully resolved.
pub open spec fn resolved_value(raw: Seq<char>, vars: Seq<(Seq<char>, Seq<char>)>) -> Seq<Seq<char>> {
    let v = substituted(raw, vars);
    if v.len() > 0 && !unresolved(v) {
        seq![v]
    } else {
        Seq::empty()
    }
}

/// The views of a list of strings.
pub open spec fn texts(v: Seq<String>) -> Seq<Seq<char>> {
    v.map_values(|s: String| s@)
}

/// Fills `raw` and appends it to `out` when it is kept.
pub fn push_resolved(out: &mut Vec<String>, raw: &str, vars: &Vec<(String, String)>)
    ensures
        texts(final(out)@) == texts(old(out)@) + resolved_value(raw@, vars_view(vars@)),
{
    let value = substitute(raw, vars);
    let v = chars_of(value.as_str());
    if v.len() > 0 && !is_unresolved(value.as_str()) {
        let ghost before = out@;
        out.push(value);
        assert(texts(out@) =~= texts(before) + seq![value@]);
    } else {
        assert(texts(out@) =~= texts(out@) + Seq::<Seq<char>>::empty());
    }
}

/// The value of a conditional argument: one string, a list (entries that are not
/// strings absent), or anything else.
pub enum ArgValue {
    Text(String),
    List(Vec<Option<String>>),
    Other,
}

/// An argument entry of a version: a plain string, a conditional argument, or
/// anything else.
pub enum ArgEntry {
    Text(String),
    Conditional { rules: Vec<ArgRule>, value: ArgValue },
    Other,
}

/// The JVM and game arguments of a version.
pub struct VersionArguments {
    pub jvm: Option<Vec<ArgEntry>>,
    pub game: Option<Vec<ArgEntry>>,
}

/// The kept values of a list of raw strings (absent entries skipped).
pub open spec fn list_values(items: Seq<Option<String>>, vars: Seq<(Seq<char>, Seq<char>)>) -> Seq<
    Seq<char>,
>
    decreases items.len(),
{
    if items.len() == 0 {
        Seq::empty()
    } else {
        list_values(items.drop_last(), vars) + match items.last() {
            Some(t) => resolved_value(t@, vars),
            None => Seq::empty(),
        }
    }
}

/// The arguments an entry gives.
pub open spec fn entry_values(
    entry: ArgEntry,
    vars: Seq<(Seq<char>, Seq<char>)>,
    features: Seq<(Seq<char>, bool)>,
) -> Seq<Seq<char>> {
    match entry {
        ArgEntry::Text(t) => resolved_value(t@, vars),
        ArgEntry::Conditional { rules, value } => if !rules_match(rules@, features) {
            Seq::empty()
        } else {
            match value {
                ArgValue::Text(t) => resolved_value(t@, vars),
                ArgValue::List(items) => list_values(items@, vars),
                ArgValue::Other => Seq::empty(),
            }
        },
        ArgEntry::Other => Seq::empty(),
    }
}

/// Appends the arguments an entry gives.
pub fn collect_arg_values(
    entry: &ArgEntry,
    vars: &Vec<(String, String)>,
    features: &Vec<(String, bool)>,
    out: &mut Vec<String>,
)
    ensures
        texts(final(out)@) == texts(old(out)@) + entry_values(*entry, vars_view(vars@), flags_view(features@)),
{
    match entry {
        ArgEntry::Text(text) => push_resolved(out, text.as_str(), vars),
        ArgEntry::Conditional { rules, value } => {
            if !rule_matches(rules, features) {
                assert(texts(out@) =~= texts(out@) + Seq::<Seq<char>>::empty());
                return ;
            }
            match value {
                ArgValue::Text(text) => push_resolved(out, text.as_str(), vars),
                ArgValue::List(items) => {
                    let ghost start = texts(out@);
                    let mut i: usize = 0;
                    while i < items.len()
                        invariant
                            i <= items.len(),
                            texts(out@) == start + list_values(items@.take(i as int), vars_view(vars@)),
                        decreases items.len() - i,
                    {
                        proof {
                            let t = items@.take(i + 1);
                            assert(t.drop_last() == items@.take(i as int));
                            assert(t.last() == items@[i as int]);
                        }
                        match &items[i] {
                            Some(text) => {
                                push_resolved(out, text.as_str(), vars);
                            },
                            None => {
                                assert(texts(out@) =~= texts(out@) + Seq::<Seq<char>>::empty());
                            },
                        }
                        i = i + 1;
                    }
                    assert(items@.take(items.len() as int) == items@);
                },
                ArgValue::Other => {
                    assert(texts(out@) =~= texts(out@) + Seq::<Seq<char>>::empty());
                },
            }
        },
        ArgEntry::Other => {
            assert(texts(out@) =~= texts(out@) + Seq::<Seq<char>>::empty());
        },
    }
}

/// The arguments of a list of entries, in order.
pub open spec fn entries_values(
    entries: Seq<ArgEntry>,
    vars: Seq<(Seq<char>, Seq<char>)>,
    features: Seq<(Seq<char>, bool)>,
) -> Seq<Seq<char>>
    decreases entries.len(),
{
    if entries.len() == 0 {
        Seq::empty()
    } else {
        entries_values(entries.drop_last(), vars, features) + entry_values(
            entries.last(),
            vars,
            features,
        )
    }
}

/// The arguments of a list of entries, or none when there is no list.
pub fn resolve_args(
    entries: Option<&Vec<ArgEntry>>,
    vars: &Vec<(String, String)>,
    features: &Vec<(String, bool)>,
) -> (r: Vec<String>)
    ensures
        texts(r@) == match entries {
            Some(e) => entries_values(e@, vars_view(vars@), flags_view(features@)),
            None => Seq::empty(),
        },
{
    let mut out: Vec<String> = Vec::new();
    assert(texts(out@) =~= Seq::<Seq<char>>::empty());
    if let Some(items) = entries {
        let mut i: usize = 0;
        while i < items.len()
            invariant
                i <= items.len(),
                texts(out@) == entries_values(items@.take(i as int), vars_view(vars@), flags_view(features@)),
            decreases items.len() - i,
        {
            proof {
                let t = items@.take(i + 1);
                assert(t.drop_last() == items@.take(i as int));
                assert(t.last() == items@[i as int]);
            }
            collect_arg_values(&items[i], vars, features, &mut out);
            i = i + 1;
        }
        assert(items@.take(items.len() as int) == items@);
    }
    out
}

// ---------------------------------------------------------------------------
// Game and JVM arguments
// ---------------------------------------------------------------------------

/// A string holding the characters of `s`.
pub fn owned(s: &str) -> (r: String)
    ensures
        r@ == s@,
{
    let r = s.to_string();
    proof {
        vstd::string::to_string_from_display_ensures_for_str(s, r);
    }
    r
}

/// A string holding `a` then `b`.
pub fn owned2(a: &str, b: &str) -> (r: String)
    ensures
        r@ == a@ + b@,
{
    let mut v = chars_of(a);
    push_str(&mut v, b);
    string_from_chars(&v)
}

/// A flag that takes the next argument as its value (every flag but `--demo`).
pub open spec fn takes_value(flag: Seq<char>) -> bool {
    flag != "--demo"@
}

/// Whether a flag takes the next argument as its value.
pub fn flag_requires_value(flag: &str) -> (b: bool)
    ensures
        b == takes_value(flag@),
{
    let f = chars_of(flag);
    !chars_equal_str(&f, "--demo")
}

/// The game arguments with incomplete options dropped: a flag that takes a value
/// keeps it only when the next argument is not itself a flag, is not empty and holds
/// no placeholder; a flag whose value is missing or dropped is dropped too.
pub open spec fn filtered_game_args(args: Seq<Seq<char>>) -> Seq<Seq<char>>
    decreases args.len(),
{
    if args.len() == 0 {
        Seq::empty()
    } else {
        let a = args[0];
        if starts_with(a, "--"@) && takes_value(a) {
            if args.len() >= 2 && !starts_with(args[1], "--"@) {
                let v = args[1];
                (if v.len() > 0 && !unresolved(v) {
                    seq![a, v]
                } else {
                    Seq::empty()
                }) + filtered_game_args(args.skip(2))
            } else {
                filtered_game_args(args.drop_first())
            }
        } else {
            seq![a] + filtered_game_args(args.drop_first())
        }
    }
}

/// Drops incomplete options from the game arguments.
pub fn filter_optional_game_args(args: Vec<String>) -> (r: Vec<String>)
    ensures
        texts(r@) == filtered_game_args(texts(args@)),
{
    let ghost all = texts(args@);
    let mut filtered: Vec<String> = Vec::new();
    let mut index: usize = 0;
    assert(all.skip(0) == all);
    assert(texts(filtered@) + filtered_game_args(all) == filtered_game_args(all));
    while index < args.len()
        invariant
            index <= args.len(),
            all == texts(args@),
            texts(filtered@) + filtered_game_args(all.skip(index as int)) == filtered_game_args(all),
        decreases args.len() - index,
    {
        let ghost rest = all.skip(index as int);
        assert(rest[0] == args@[index as int]@);
        assert(rest.drop_first() == all.skip(index + 1));
        let arg = args[index].as_str();
        let a = chars_of(arg);
        let ghost before = texts(filtered@);
        if starts_with_str(&a, "--") && flag_requires_value(arg) {
            if index + 1 < args.len() {
                let next = chars_of(args[index + 1].as_str());
                if !starts_with_str(&next, "--") {
                    assert(rest[1] == args@[index + 1]@);
                    assert(rest.skip(2) == all.skip(index + 2));
                    if next.len() > 0 && !is_unresolved(args[index + 1].as_str()) {
                        filtered.push(args[index].clone());
                        filtered.push(args[index + 1].clone());
                        assert(texts(filtered@) =~= before + seq![rest[0], rest[1]]);
                    } else {
                        assert(texts(filtered@) =~= before + Seq::<Seq<char>>::empty());
                    }
                    index = index + 2;
                    continue;
                }
            }
            index = index + 1;
            continue;
        }
        filtered.push(args[index].clone());
        assert(texts(filtered@) =~= before + seq![rest[0]]);
        index = index + 1;
    }
    assert(all.skip(index as int).len() == 0);
    assert(texts(filtered@) + Seq::<Seq<char>>::empty() == texts(filtered@));
    filtered
}

/// The launch features, in order: only a custom resolution may be on.
pub open spec fn launch_feature_list(custom_resolution: bool) -> Seq<(Seq<char>, bool)> {
    seq![
        ("is_demo_user"@, false),
        ("has_custom_resolution"@, custom_resolution),
        ("has_quick_plays_support"@, false),
        ("is_quick_play_singleplayer"@, false),
        ("is_quick_play_multiplayer"@, false),
        ("is_quick_play_realms"@, false),
    ]
}

/// The views of a list of named flags.
pub open spec fn flags_view(v: Seq<(String, bool)>) -> Seq<(Seq<char>, bool)> {
    v.map_values(|f: (String, bool)| (f.0@, f.1))
}

/// The features of a launch.
pub fn launch_features(custom_resolution: bool) -> (r: Vec<(String, bool)>)
    ensures
        flags_view(r@) == launch_feature_list(custom_resolution),
{
    let mut r: Vec<(String, bool)> = Vec::new();
    r.push((owned("is_demo_user"), false));
    r.push((owned("has_custom_resolution"), custom_resolution));
    r.push((owned("has_quick_plays_support"), false));
    r.push((owned("is_quick_play_singleplayer"), false));
    r.push((owned("is_quick_play_multiplayer"), false));
    r.push((owned("is_quick_play_realms"), false));
    assert(flags_view(r@) =~= launch_feature_list(custom_resolution));
    r
}

/// The properties that point native code at the natives directory.
pub open spec fn native_props(natives: Seq<char>) -> Seq<Seq<char>> {
    seq![
        "-Djava.library.path="@ + natives,
        "-Djna.tmpdir="@ + natives,
        "-Dorg.lwjgl.system.SharedLibraryExtractPath="@ + natives,
        "-Dio.netty.native.workdir="@ + natives,
    ]
}

/// The JVM arguments of a version that lists none: the native properties, the
/// launcher's brand and version, and the class path.
pub open spec fn legacy_jvm(natives: Seq<char>, classpath: Seq<char>) -> Seq<Seq<char>> {
    native_props(natives) + seq![
        "-Dminecraft.launcher.brand=chadow-games-launcher"@,
        "-Dminecraft.launcher.version=3.2.2"@,
        "-cp"@,
        classpath,
    ]
}

fn native_props_exec(natives: &str) -> (r: Vec<String>)
    ensures
        texts(r@) == native_props(natives@),
{
    let mut r: Vec<String> = Vec::new();
    r.push(owned2("-Djava.library.path=", natives));
    r.push(owned2("-Djna.tmpdir=", natives));
    r.push(owned2("-Dorg.lwjgl.system.SharedLibraryExtractPath=", natives));
    r.push(owned2("-Dio.netty.native.workdir=", natives));
    assert(texts(r@) =~= native_props(natives@));
    r
}

/// The JVM arguments used when a version lists none.
pub fn legacy_jvm_args(natives: &str, classpath: &str) -> (r: Vec<String>)
    ensures
        texts(r@) == legacy_jvm(natives@, classpath@),
{
    let mut r = native_props_exec(natives);
    let ghost props = r@;
    r.push(owned("-Dminecraft.launcher.brand=chadow-games-launcher"));
    r.push(owned("-Dminecraft.launcher.version=3.2.2"));
    r.push(owned("-cp"));
    r.push(owned(classpath));
    assert(texts(r@) =~= legacy_jvm(natives@, classpath@));
    r
}

/// The native properties that `args` does not already hold, in their usual order.
pub open spec fn missing_props(props: Seq<Seq<char>>, args: Seq<Seq<char>>) -> Seq<Seq<char>>
    decreases props.len(),
{
    if props.len() == 0 {
        Seq::empty()
    } else {
        missing_props(props.drop_last(), args) + (if args.contains(props.last()) {
            Seq::empty()
        } else {
            seq![props.last()]
        })
    }
}

fn holds_text(args: &Vec<String>, v: &str) -> (b: bool)
    ensures
        b == texts(args@).contains(v@),
{
    let mut i: usize = 0;
    while i < args.len()
        invariant
            i <= args.len(),
            forall|k: int| 0 <= k < i ==> texts(args@)[k] != v@,
        decreases args.len() - i,
    {
        let a = chars_of(args[i].as_str());
        if chars_equal_str(&a, v) {
            assert(texts(args@)[i as int] == v@);
            return true;
        }
        i = i + 1;
    }
    false
}

/// `args` with the native properties it lacks put in front.
pub fn prepend_native_jvm_props(args: &mut Vec<String>, natives: &str)
    ensures
        texts(final(args)@) == missing_props(native_props(natives@), texts(old(args)@)) + texts(
            old(args)@,
        ),
{
    let props = native_props_exec(natives);
    let ghost orig = texts(args@);
    let mut front: Vec<String> = Vec::new();
    let mut k: usize = 0;
    while k < props.len()
        invariant
            k <= props.len(),
            args@ == old(args)@,
            orig == texts(args@),
            texts(front@) == missing_props(texts(props@).take(k as int), orig),
        decreases props.len() - k,
    {
        proof {
            let t = texts(props@).take(k + 1);
            assert(t.drop_last() == texts(props@).take(k as int));
            assert(t.last() == props@[k as int]@);
        }
        let ghost before = texts(front@);
        if !holds_text(args, props[k].as_str()) {
            front.push(props[k].clone());
            assert(texts(front@) =~= before + seq![props@[k as int]@]);
        } else {
            assert(texts(front@) =~= before + Seq::<Seq<char>>::empty());
        }
        k = k + 1;
    }
    assert(texts(props@).take(props.len() as int) == texts(props@));
    let mut i: usize = 0;
    let ghost head = texts(front@);
    while i < args.len()
        invariant
            i <= args.len(),
            args@ == old(args)@,
            orig == texts(args@),
            texts(front@) == head + orig.take(i as int),
        decreases args.len() - i,
    {
        let ghost before = texts(front@);
        front.push(args[i].clone());
        assert(orig.take(i + 1) == orig.take(i as int).push(orig[i as int]));
        assert(texts(front@) =~= before.push(args@[i as int]@));
        i = i + 1;
    }
    assert(orig.take(args.len() as int) == orig);
    *args = front;
}

/// The arguments hold a class path option (`-cp` or `--classpath`).
pub open spec fn has_classpath_option(args: Seq<Seq<char>>) -> bool {
    args.contains("-cp"@) || args.contains("--classpath"@)
}

/// The JVM arguments of a version that lists some: when they give the class path
/// themselves, only the missing native properties are put in front; otherwise the
/// legacy arguments are.
pub open spec fn merged_jvm(natives: Seq<char>, classpath: Seq<char>, extra: Seq<Seq<char>>) -> Seq<
    Seq<char>,
> {
    if has_classpath_option(extra) {
        missing_props(native_props(natives), extra) + extra
    } else {
        legacy_jvm(natives, classpath) + extra
    }
}

/// Merges a version's own JVM arguments with what the launcher needs.
pub fn merge_jvm_args(natives: &str, classpath: &str, extra: Vec<String>) -> (r: Vec<String>)
    ensures
        texts(r@) == merged_jvm(natives@, classpath@, texts(extra@)),
{
    let has_cp = holds_text(&extra, "-cp") || holds_text(&extra, "--classpath");
    if has_cp {
        let mut merged = extra;
        prepend_native_jvm_props(&mut merged, natives);
        return merged;
    }
    let mut merged = legacy_jvm_args(natives, classpath);
    let ghost head = texts(merged@);
    let mut i: usize = 0;
    while i < extra.len()
        invariant
            i <= extra.len(),
            texts(merged@) == head + texts(extra@).take(i as int),
        decreases extra.len() - i,
    {
        let ghost before = texts(merged@);
        merged.push(extra[i].clone());
        assert(texts(extra@).take(i + 1) == texts(extra@).take(i as int).push(extra@[i as int]@));
        assert(texts(merged@) =~= before.push(extra@[i as int]@));
        i = i + 1;
    }
    assert(texts(extra@).take(extra.len() as int) == texts(extra@));
    merged
}

/// The window size as game arguments, when there is one.
pub open spec fn window_args(window: Option<(u32, u32)>) -> Seq<Seq<char>> {
    match window {
        Some((w, h)) => seq!["--width"@, decimal(w as nat), "--height"@, decimal(h as nat)],
        None => Seq::empty(),
    }
}

/// The game arguments of a version that lists none.
pub open spec fn legacy_game(
    username: Seq<char>,
    version: Seq<char>,
    game_dir: Seq<char>,
    assets_dir: Seq<char>,
    asset_index: Seq<char>,
    uuid: Seq<char>,
    window: Option<(u32, u32)>,
) -> Seq<Seq<char>> {
    seq![
        "--username"@,
        username,
        "--version"@,
        version,
        "--gameDir"@,
        game_dir,
        "--assetsDir"@,
        assets_dir,
        "--assetIndex"@,
        asset_index,
        "--uuid"@,
        uuid,
        "--accessToken"@,
        uuid,
        "--userType"@,
        "legacy"@,
        "--versionType"@,
        "release"@,
    ] + window_args(window)
}

fn decimal_string(n: u32) -> (r: String)
    ensures
        r@ == decimal(n as nat),
{
    let mut v: Vec<char> = Vec::new();
    push_decimal(&mut v, n as u64);
    string_from_chars(&v)
}

/// The game arguments used when a version lists none; the directories are given as
/// the text of their paths.
pub fn legacy_game_args(
    username: &str,
    version: &str,
    game_dir: &str,
    assets_dir: &str,
    asset_index: &str,
    uuid: &str,
    window_size: Option<(u32, u32)>,
) -> (r: Vec<String>)
    ensures
        texts(r@) == legacy_game(
            username@,
            version@,
            game_dir@,
            assets_dir@,
            asset_index@,
            uuid@,
            window_size,
        ),
{
    let mut args: Vec<String> = Vec::new();
    args.push(owned("--username"));
    args.push(owned(username));
    args.push(owned("--version"));
    args.push(owned(version));
    args.push(owned("--gameDir"));
    args.push(owned(game_dir));
    args.push(owned("--assetsDir"));
    args.push(owned(assets_dir));
    args.push(owned("--assetIndex"));
    args.push(owned(asset_index));
    args.push(owned("--uuid"));
    args.push(owned(uuid));
    args.push(owned("--accessToken"));
    args.push(owned(uuid));
    args.push(owned("--userType"));
    args.push(owned("legacy"));
    args.push(owned("--versionType"));
    args.push(owned("release"));
    let ghost fixed = args@;
    if let Some((width, height)) = window_size {
        args.push(owned("--width"));
        args.push(decimal_string(width));
        args.push(owned("--height"));
        args.push(decimal_string(height));
    }
    assert(texts(args@) =~= legacy_game(
        username@,
        version@,
        game_dir@,
        assets_dir@,
        asset_index@,
        uuid@,
        window_size,
    ));
    args
}

// ---------------------------------------------------------------------------
// The options file
// ---------------------------------------------------------------------------

/// Index of the first line starting with `prefix`, or -1.
pub open spec fn first_with_prefix(lines: Seq<Seq<char>>, prefix: Seq<char>) -> int
    decreases lines.len(),
{
    if lines.len() == 0 {
        -1
    } else if starts_with(lines[0], prefix) {
        0
    } else {
        let r = first_with_prefix(lines.drop_first(), prefix);
        if r < 0 {
            -1
        } else {
            r + 1
        }
    }
}

/// The option lines with `key` set to `value`: the first `key:` line replaced by
/// `key:value`, or that line added at the end.
pub open spec fn with_option(lines: Seq<Seq<char>>, key: Seq<char>, value: Seq<char>) -> Seq<
    Seq<char>,
> {
    let k = first_with_prefix(lines, key + ":"@);
    let line = key + ":"@ + value;
    if 0 <= k < lines.len() {
        lines.update(k, line)
    } else {
        lines.push(line)
    }
}

/// Sets an option in the lines of an options file.
pub fn set_game_option(lines: &mut Vec<String>, key: &str, value: &str)
    ensures
        texts(final(lines)@) == with_option(texts(old(lines)@), key@, value@),
{
    let mut prefix = chars_of(key);
    push_str(&mut prefix, ":");
    let mut line = prefix.clone();
    proof {
        assert(line@ == prefix@);
    }
    push_str(&mut line, value);
    assert(line@ =~= key@ + ":"@ + value@);
    let ghost all = texts(lines@);
    let mut i: usize = 0;
    assert(all.skip(0) == all);
    while i < lines.len()
        invariant
            i <= lines.len(),
            lines@ == old(lines)@,
            all == texts(lines@),
            prefix@ == key@ + ":"@,
            line@ == key@ + ":"@ + value@,
            first_with_prefix(all, prefix@) == (if first_with_prefix(all.skip(i as int), prefix@)
                < 0 {
                -1
            } else {
                first_with_prefix(all.skip(i as int), prefix@) + i
            }),
        decreases lines.len() - i,
    {
        let ghost rest = all.skip(i as int);
        assert(rest[0] == lines@[i as int]@);
        assert(rest.drop_first() == all.skip(i + 1));
        let current = chars_of(lines[i].as_str());
        if starts_with_chars_local(&current, &prefix) {
            assert(first_with_prefix(rest, prefix@) == 0);
            let text = string_from_chars(&line);
            lines.set(i, text);
            assert(texts(lines@) =~= all.update(i as int, line@));
            return ;
        }
        i = i + 1;
    }
    assert(all.skip(i as int).len() == 0);
    let text = string_from_chars(&line);
    lines.push(text);
    assert(texts(lines@) =~= all.push(line@));
}

fn starts_with_chars_local(s: &Vec<char>, p: &Vec<char>) -> (b: bool)
    ensures
        b == starts_with(s@, p@),
{
    crate::text::starts_with_chars(s, p)
}

/// A line as `str::lines` gives it: without its `\\n` and one `\\r` before it.
pub open spec fn strip_cr(line: Seq<char>) -> Seq<char> {
    if line.len() > 0 && line.last() == '\r' {
        line.drop_last()
    } else {
        line
    }
}

/// The lines of a text (`str::lines`): split at each `\\n`, a `\\r` before it removed;
/// the text after the last `\\n` is a line when it is not empty, and is kept as it is.
pub open spec fn text_lines(t: Seq<char>) -> Seq<Seq<char>> {
    let pieces = split_char(t, '\n');
    let ended = pieces.drop_last().map_values(|p: Seq<char>| strip_cr(p));
    if pieces.last().len() > 0 {
        ended.push(pieces.last())
    } else {
        ended
    }
}

/// The lines of a text.
pub fn lines_of(t: &str) -> (r: Vec<String>)
    ensures
        texts(r@) == text_lines(t@),
{
    let c = chars_of(t);
    let pieces = split_chars(&c, '\n');
    let ghost pv = pieces@.map_values(|p: Vec<char>| p@);
    let mut out: Vec<String> = Vec::new();
    let mut i: usize = 0;
    let n = pieces.len() - 1;
    while i < n
        invariant
            n + 1 == pieces.len(),
            i <= n,
            pv == pieces@.map_values(|p: Vec<char>| p@),
            texts(out@) == pv.drop_last().take(i as int).map_values(|p: Seq<char>| strip_cr(p)),
        decreases n - i,
    {
        let p = &pieces[i];
        let line = if p.len() > 0 && p[p.len() - 1] == '\r' {
            slice_chars(p, 0, p.len() - 1)
        } else {
            slice_chars(p, 0, p.len())
        };
        proof {
            assert(pv[i as int] == p@);
            if p@.len() > 0 {
                assert(p@.drop_last() == p@.subrange(0, p@.len() - 1));
            }
            assert(line@ == strip_cr(p@));
        }
        let ghost before = texts(out@);
        out.push(string_from_chars(&line));
        proof {
            assert(texts(out@) =~= before.push(line@));
            assert(pv.drop_last().take(i + 1) =~= pv.drop_last().take(i as int).push(pv[i as int]));
            assert(pv.drop_last().take(i + 1).map_values(|p: Seq<char>| strip_cr(p))
                =~= pv.drop_last().take(i as int).map_values(|p: Seq<char>| strip_cr(p)).push(
                strip_cr(pv[i as int]),
            ));
        }
        i = i + 1;
    }
    assert(pv.drop_last().take(n as int) == pv.drop_last());
    let last = &pieces[n];
    if last.len() > 0 {
        let ghost before = texts(out@);
        out.push(string_from_chars(last));
        assert(texts(out@) =~= before.push(pv.last()));
    }
    out
}

/// The options file after choosing full screen or not: the existing lines (none when
/// there is no file) with `fullscreen` set, one per line.
pub open spec fn options_text(existing: Option<Seq<char>>, fullscreen: bool) -> Seq<char> {
    let lines = match existing {
        Some(t) => text_lines(t),
        None => Seq::empty(),
    };
    join(with_option(lines, "fullscreen"@, if fullscreen { "true"@ } else { "false"@ }), "\n"@)
}

/// The new text of the options file.
pub fn fullscreen_options(existing: Option<&str>, fullscreen: bool) -> (r: String)
    ensures
        r@ == options_text(
            match existing {
                Some(t) => Some(t@),
                None => None,
            },
            fullscreen,
        ),
{
    let mut lines: Vec<String> = match existing {
        Some(t) => lines_of(t),
        None => Vec::new(),
    };
    set_game_option(&mut lines, "fullscreen", if fullscreen { "true" } else { "false" });
    if lines.len() == 0 {
        proof {
            assert(texts(lines@).len() == lines@.len());
            let l = match existing {
                Some(t) => text_lines(t@),
                None => Seq::empty(),
            };
            let w = with_option(l, "fullscreen"@, if fullscreen { "true"@ } else { "false"@ });
            assert(w.len() >= 1);
        }
        return owned("");
    }
    let mut parts: Vec<Vec<char>> = Vec::new();
    let mut i: usize = 0;
    while i < lines.len()
        invariant
            i <= lines.len(),
            parts@.map_values(|p: Vec<char>| p@) == texts(lines@).take(i as int),
        decreases lines.len() - i,
    {
        let c = chars_of(lines[i].as_str());
        let ghost before = parts@;
        parts.push(c);
        assert(parts@.map_values(|p: Vec<char>| p@) =~= before.map_values(|p: Vec<char>| p@).push(
            c@,
        ));
        assert(texts(lines@).take(i + 1) =~= texts(lines@).take(i as int).push(lines@[i as int]@));
        i = i + 1;
    }
    assert(texts(lines@).take(lines.len() as int) == texts(lines@));
    let nl = chars_of("\n");
    let joined = join_chars(&parts, &nl);
    string_from_chars(&joined)
}

// ---------------------------------------------------------------------------
// The Java command line
// ---------------------------------------------------------------------------

/// What a launch is made of, with directories given as the text of their paths.
pub struct LaunchContext {
    pub natives: String,
    pub classpath: String,
    pub username: String,
    pub version: String,
    pub game_dir: String,
    pub assets_dir: String,
    pub asset_index: String,
    pub uuid: String,
    pub window: Option<(u32, u32)>,
}

/// The views of a list of named values.
pub open spec fn vars_view(v: Seq<(String, String)>) -> Seq<(Seq<char>, Seq<char>)> {
    v.map_values(|p: (String, String)| (p.0@, p.1@))
}

/// The placeholder values of a launch, in order.
pub open spec fn launch_var_list(c: LaunchContext) -> Seq<(Seq<char>, Seq<char>)> {
    let (w, h) = match c.window {
        Some((w, h)) => (decimal(w as nat), decimal(h as nat)),
        None => (Seq::empty(), Seq::empty()),
    };
    seq![
        ("natives_directory"@, c.natives@),
        ("classpath"@, c.classpath@),
        ("launcher_name"@, "chadow-games-launcher"@),
        ("launcher_version"@, "3.2.2"@),
        ("auth_player_name"@, c.username@),
        ("version_name"@, c.version@),
        ("game_directory"@, c.game_dir@),
        ("assets_root"@, c.assets_dir@),
        ("assets_index_name"@, c.asset_index@),
        ("auth_uuid"@, c.uuid@),
        ("auth_access_token"@, c.uuid@),
        ("auth_xuid"@, Seq::empty()),
        ("clientid"@, Seq::empty()),
        ("version_type"@, "release"@),
        ("resolution_width"@, w),
        ("resolution_height"@, h),
        ("quickPlayPath"@, Seq::empty()),
        ("quickPlaySingleplayer"@, Seq::empty()),
        ("quickPlayMultiplayer"@, Seq::empty()),
        ("quickPlayRealms"@, Seq::empty()),
    ]
}

/// The placeholder values of a launch.
pub fn launch_vars(c: &LaunchContext) -> (r: Vec<(String, String)>)
    ensures
        vars_view(r@) == launch_var_list(*c),
{
    let (w, h) = match c.window {
        Some((w, h)) => (decimal_string(w), decimal_string(h)),
        None => (owned(""), owned("")),
    };
    proof {
        reveal_strlit("");
    }
    let mut v: Vec<(String, String)> = Vec::new();
    v.push((owned("natives_directory"), c.natives.clone()));
    v.push((owned("classpath"), c.classpath.clone()));
    v.push((owned("launcher_name"), owned("chadow-games-launcher")));
    v.push((owned("launcher_version"), owned("3.2.2")));
    v.push((owned("auth_player_name"), c.username.clone()));
    v.push((owned("version_name"), c.version.clone()));
    v.push((owned("game_directory"), c.game_dir.clone()));
    v.push((owned("assets_root"), c.assets_dir.clone()));
    v.push((owned("assets_index_name"), c.asset_index.clone()));
    v.push((owned("auth_uuid"), c.uuid.clone()));
    v.push((owned("auth_access_token"), c.uuid.clone()));
    v.push((owned("auth_xuid"), owned("")));
    v.push((owned("clientid"), owned("")));
    v.push((owned("version_type"), owned("release")));
    v.push((owned("resolution_width"), w));
    v.push((owned("resolution_height"), h));
    v.push((owned("quickPlayPath"), owned("")));
    v.push((owned("quickPlaySingleplayer"), owned("")));
    v.push((owned("quickPlayMultiplayer"), owned("")));
    v.push((owned("quickPlayRealms"), owned("")));
    proof {
        let l = launch_var_list(*c);
        let vv = vars_view(v@);
        assert(vv.len() == l.len());
        assert(vv[14] == l[14]);
        assert(vv[15] == l[15]);
        assert(vv[11] == l[11]);
        assert(vv[0] == l[0]);
    }
    assert(vars_view(v@) =~= launch_var_list(*c));
    v
}

/// A version's own arguments of one kind, or none.
pub open spec fn listed_args(
    entries: Option<Vec<ArgEntry>>,
    vars: Seq<(Seq<char>, Seq<char>)>,
    features: Seq<(Seq<char>, bool)>,
) -> Seq<Seq<char>> {
    match entries {
        Some(e) => entries_values(e@, vars, features),
        None => Seq::empty(),
    }
}

/// The memory limit: at least two gigabytes.
pub open spec fn memory_arg(ram_gb: u32) -> Seq<char> {
    "-Xmx"@ + decimal(
        if ram_gb > 2 {
            ram_gb as nat
        } else {
            2
        },
    ) + "G"@
}

/// The arguments given to Java: the memory limit, then, for a version that lists
/// arguments, its JVM arguments (the legacy ones when it lists none, else merged with
/// what the launcher needs), the main class and its filtered game arguments; for a
/// version that lists none, the legacy JVM arguments, the main class and the legacy
/// game arguments.
pub open spec fn java_args(
    ram_gb: u32,
    main_class: Seq<char>,
    arguments: Option<VersionArguments>,
    c: LaunchContext,
) -> Seq<Seq<char>> {
    let vars = launch_var_list(c);
    let features = launch_feature_list(c.window is Some);
    seq![memory_arg(ram_gb)] + match arguments {
        Some(a) => {
            let jvm = listed_args(a.jvm, vars, features);
            (if jvm.len() == 0 {
                legacy_jvm(c.natives@, c.classpath@)
            } else {
                merged_jvm(c.natives@, c.classpath@, jvm)
            }) + seq![main_class] + filtered_game_args(listed_args(a.game, vars, features))
        },
        None => legacy_jvm(c.natives@, c.classpath@) + seq![main_class] + legacy_game(
            c.username@,
            c.version@,
            c.game_dir@,
            c.assets_dir@,
            c.asset_index@,
            c.uuid@,
            c.window,
        ),
    }
}

fn append_texts(out: &mut Vec<String>, more: Vec<String>)
    ensures
        texts(final(out)@) == texts(old(out)@) + texts(more@),
{
    let mut i: usize = 0;
    while i < more.len()
        invariant
            i <= more.len(),
            texts(out@) == texts(old(out)@) + texts(more@).take(i as int),
        decreases more.len() - i,
    {
        let ghost before = texts(out@);
        out.push(more[i].clone());
        assert(texts(more@).take(i + 1) == texts(more@).take(i as int).push(more@[i as int]@));
        assert(texts(out@) =~= before.push(more@[i as int]@));
        i = i + 1;
    }
    assert(texts(more@).take(more.len() as int) == texts(more@));
}

/// The arguments given to Java for a launch.
pub fn java_arguments(
    ram_gb: u32,
    main_class: &str,
    arguments: Option<&VersionArguments>,
    c: &LaunchContext,
) -> (r: Vec<String>)
    ensures
        texts(r@) == java_args(
            ram_gb,
            main_class@,
            match arguments {
                Some(a) => Some(*a),
                None => None,
            },
            *c,
        ),
{
    let vars = launch_vars(c);
    let features = launch_features(c.window.is_some());
    let mut cmd: Vec<String> = Vec::new();
    let mut mem = chars_of("-Xmx");
    push_decimal(&mut mem, if ram_gb > 2 { ram_gb as u64 } else { 2 });
    push_str(&mut mem, "G");
    cmd.push(string_from_chars(&mem));
    assert(texts(cmd@) =~= seq![memory_arg(ram_gb)]);
    match arguments {
        Some(a) => {
            let jvm = resolve_args(a.jvm.as_ref(), &vars, &features);
            let jvm_args = if jvm.len() == 0 {
                legacy_jvm_args(c.natives.as_str(), c.classpath.as_str())
            } else {
                merge_jvm_args(c.natives.as_str(), c.classpath.as_str(), jvm)
            };
            append_texts(&mut cmd, jvm_args);
            let ghost before = texts(cmd@);
            cmd.push(owned(main_class));
            assert(texts(cmd@) =~= before + seq![main_class@]);
            let game = filter_optional_game_args(resolve_args(a.game.as_ref(), &vars, &features));
            append_texts(&mut cmd, game);
        },
        None => {
            append_texts(&mut cmd, legacy_jvm_args(c.natives.as_str(), c.classpath.as_str()));
            let ghost before = texts(cmd@);
            cmd.push(owned(main_class));
            assert(texts(cmd@) =~= before + seq![main_class@]);
            append_texts(
                &mut cmd,
                legacy_game_args(
                    c.username.as_str(),
                    c.version.as_str(),
                    c.game_dir.as_str(),
                    c.assets_dir.as_str(),
                    c.asset_index.as_str(),
                    c.uuid.as_str(),
                    c.window,
                ),
            );
        },
    }
    cmd
}

/// The error when the game ends right after it was started: its exit code, and the
/// end of its log when there is one.
pub fn early_exit_message(code: i32, tail: &str) -> (m: String)
    ensures
        m@ == "Игра завершилась сразу после запуска ("@ + (if tail@.len() == 0 {
            "код выхода "@ + signed_decimal(code as int)
        } else {
            "код выхода "@ + signed_decimal(code as int) + ": "@ + tail@
        }) + ")"@,
{
    let mut m = chars_of("Игра завершилась сразу после запуска (");
    let ghost head = m@;
    push_str(&mut m, "код выхода ");
    push_signed_decimal(&mut m, code);
    let t = chars_of(tail);
    if t.len() > 0 {
        push_str(&mut m, ": ");
        push_str(&mut m, tail);
    }
    push_str(&mut m, ")");
    string_from_chars(&m)
}

/// What is shown of a game log: its first 1200 characters once trimmed.
pub fn log_excerpt(text: &str) -> (r: String)
    ensures
        r@ == (if trim(text@).len() > 1200 {
            trim(text@).take(1200)
        } else {
            trim(text@)
        }),
{
    let t = trimmed(text);
    let n = if t.len() > 1200 { 1200 } else { t.len() };
    let cut = slice_chars(&t, 0, n);
    proof {
        if t@.len() <= 1200 {
            assert(t@.subrange(0, t@.len() as int) == t@);
        }
    }
    string_from_chars(&cut)
}

/// The windowed Java launcher next to `java_exe`: on Windows (`windows`), a last
/// segment `java.exe` (in any ASCII case) becomes `javaw.exe`; anything else, and
/// every path elsewhere, is kept.
pub fn java_gui_exe(java_exe: &GamePath, windows: bool) -> (p: GamePath)
    ensures
        p@ == (if windows && java_exe@.len() > 0 && eq_ignore_ascii_case(
            java_exe@.last(),
            "java.exe"@,
        ) {
            java_exe@.drop_last().push("javaw.exe"@)
        } else {
            java_exe@
        }),
{
    let n = java_exe.segments.len();
    if windows && n > 0 {
        let last = chars_of(java_exe.segments[n - 1].as_str());
        let target = chars_of("java.exe");
        if eq_ignore_ascii_case_chars(&last, &target) {
            let mut segments: Vec<String> = Vec::new();
            let mut i: usize = 0;
            while i < n - 1
                invariant
                    n == java_exe.segments.len(),
                    n > 0,
                    i <= n - 1,
                    crate::paths::strings_view(segments@) == java_exe@.take(i as int),
                decreases n - 1 - i,
            {
                let ghost before = segments@;
                segments.push(java_exe.segments[i].clone());
                assert(crate::paths::strings_view(segments@) =~= crate::paths::strings_view(
                    before,
                ).push(java_exe.segments@[i as int]@));
                assert(java_exe@.take(i + 1) =~= java_exe@.take(i as int).push(
                    java_exe.segments@[i as int]@,
                ));
                i = i + 1;
            }
            let ghost before = segments@;
            segments.push(owned("javaw.exe"));
            assert(crate::paths::strings_view(segments@) =~= java_exe@.drop_last().push(
                "javaw.exe"@,
            ));
            return GamePath { segments };
        }
    }
    java_exe.duplicate()
}

/// The Java home of a Java executable given as a home with `bin` and the executable
/// joined onto it: the location without its last two segments. Locations of fewer
/// than three segments give none, since their parents are not known from segments.
pub fn java_home_of(java_exe: &GamePath) -> (r: Option<GamePath>)
    ensures
        java_exe@.len() >= 3 ==> (r matches Some(h) && h@ == java_exe@.take(java_exe@.len() - 2)),
        java_exe@.len() < 3 ==> r is None,
{
    let n = java_exe.segments.len();
    if n < 3 {
        return None;
    }
    let mut segments: Vec<String> = Vec::new();
    let mut i: usize = 0;
    while i < n - 2
        invariant
            n == java_exe.segments.len(),
            n >= 3,
            i <= n - 2,
            crate::paths::strings_view(segments@) == java_exe@.take(i as int),
        decreases n - 2 - i,
    {
        let ghost before = segments@;
        segments.push(java_exe.segments[i].clone());
        assert(crate::paths::strings_view(segments@) =~= crate::paths::strings_view(before).push(
            java_exe.segments@[i as int]@,
        ));
        assert(java_exe@.take(i + 1) =~= java_exe@.take(i as int).push(java_exe.segments@[i as int]@));
        i = i + 1;
    }
    Some(GamePath { segments })
}

/// The name of the result of `Uuid::new_v3` in the DNS namespace over the UTF-8 bytes
/// of `name`, in its hyphenated text form.
pub uninterp spec fn dns_uuid_v3(name: Seq<char>) -> Seq<char>;

/// `Uuid::new_v3(&Uuid::NAMESPACE_DNS, name.as_bytes())` as text: the result is
/// `dns_uuid_v3` of the name.
#[verifier::external_body]
fn uuid_v3_dns(name: &str) -> (r: String)
    ensures
        r@ == dns_uuid_v3(name@),
{
    uuid::Uuid::new_v3(&uuid::Uuid::NAMESPACE_DNS, name.as_bytes()).to_string()
}

/// The offline identity of a player: the name-based UUID of `OfflinePlayer:<name>`.
pub fn offline_uuid(username: &str) -> (r: String)
    ensures
        r@ == dns_uuid_v3("OfflinePlayer:"@ + username@),
{
    let name = owned2("OfflinePlayer:", username);
    uuid_v3_dns(name.as_str())
}

// ---------------------------------------------------------------------------
// Laws
// ---------------------------------------------------------------------------

proof fn lemma_replace_absent(s: Seq<char>, pat: Seq<char>, rep: Seq<char>)
    requires
        pat.len() > 0,
        !contains(s, pat),
    ensures
        replace_all(s, pat, rep) == s,
    decreases s.len(),
{
    if s.len() > 0 {
        assert(!starts_with(s, pat)) by {
            if starts_with(s, pat) {
                assert(crate::text::occurs_at(s, pat, 0));
            }
        }
        let t = s.drop_first();
        assert(!contains(t, pat)) by {
            if contains(t, pat) {
                let i = choose|i: int| crate::text::occurs_at(t, pat, i);
                assert(s.subrange(i + 1, i + 1 + pat.len()) == t.subrange(i, i + pat.len()));
                assert(crate::text::occurs_at(s, pat, i + 1));
            }
        }
        lemma_replace_absent(t, pat, rep);
        assert(seq![s[0]] + t == s);
    }
}

proof fn lemma_no_placeholder(s: Seq<char>, key: Seq<char>)
    requires
        !unresolved(s),
    ensures
        !contains(s, placeholder(key)),
{
    reveal_strlit("${");
    reveal_strlit("}");
    let p = placeholder(key);
    assert(p.len() >= 2);
    if contains(s, p) {
        let i = choose|i: int| crate::text::occurs_at(s, p, i);
        let w = s.subrange(i, i + p.len());
        assert(w == p);
        assert(s.subrange(i, i + 2) =~= w.subrange(0, 2));
        assert(p.subrange(0, 2) =~= "${"@);
        assert(crate::text::occurs_at(s, "${"@, i));
    }
}

/// A template without placeholders comes out of substitution unchanged, whatever the
/// variables.
pub proof fn substitution_keeps_plain_text(template: Seq<char>, vars: Seq<(Seq<char>, Seq<char>)>)
    requires
        !unresolved(template),
    ensures
        substituted(template, vars) == template,
    decreases vars.len(),
{
    if vars.len() > 0 {
        substitution_keeps_plain_text(template, vars.drop_last());
        lemma_no_placeholder(template, vars.last().0);
        assert(placeholder(vars.last().0).len() > 0) by {
            reveal_strlit("${");
        }
        lemma_replace_absent(template, placeholder(vars.last().0), vars.last().1);
    }
}

proof fn lemma_first_target_host(servers: Seq<ServerEntry>)
    ensures
        first_target(servers) matches Some((h, p)) ==> h.len() > 0,
    decreases servers.len(),
{
    if servers.len() > 0 {
        lemma_first_target_host(servers.drop_first());
    }
}

proof fn lemma_first_target_with_id_host(servers: Seq<ServerEntry>, id: Seq<char>)
    ensures
        first_target_with_id(servers, id) matches Some((h, p)) ==> h.len() > 0,
    decreases servers.len(),
{
    if servers.len() > 0 {
        lemma_first_target_with_id_host(servers.drop_first(), id);
    }
}

/// The server chosen to join always has a host that is not blank.
pub proof fn chosen_server_has_host(
    b: BootstrapServers,
    game_id: Seq<char>,
    server_id: Option<Seq<char>>,
)
    ensures
        chosen_server(b, game_id, server_id) matches Some((h, p)) ==> h.len() > 0,
{
    let servers = candidate_servers(b, game_id);
    lemma_first_target_host(servers);
    match server_id {
        Some(id) => lemma_first_target_with_id_host(servers, trim(id)),
        None => {},
    }
}

proof fn lemma_first_with_prefix_at(lines: Seq<Seq<char>>, prefix: Seq<char>, k: int)
    requires
        0 <= k <= lines.len(),
        forall|j: int| 0 <= j < k ==> !starts_with(#[trigger] lines[j], prefix),
        k < lines.len() ==> starts_with(lines[k], prefix),
    ensures
        first_with_prefix(lines, prefix) == (if k < lines.len() {
            k
        } else {
            -1
        }),
    decreases lines.len(),
{
    if lines.len() > 0 && k > 0 {
        assert forall|j: int| 0 <= j < k - 1 implies !starts_with(
            #[trigger] lines.drop_first()[j],
            prefix,
        ) by {
            assert(lines.drop_first()[j] == lines[j + 1]);
        }
        lemma_first_with_prefix_at(lines.drop_first(), prefix, k - 1);
    }
}

proof fn lemma_first_with_prefix_found(lines: Seq<Seq<char>>, prefix: Seq<char>)
    ensures
        first_with_prefix(lines, prefix) < lines.len(),
        first_with_prefix(lines, prefix) >= 0 ==> starts_with(
            lines[first_with_prefix(lines, prefix)],
            prefix,
        ) && forall|j: int|
            0 <= j < first_with_prefix(lines, prefix) ==> !starts_with(#[trigger] lines[j], prefix),
        first_with_prefix(lines, prefix) < 0 ==> first_with_prefix(lines, prefix) == -1 && forall|
            j: int,
        | 0 <= j < lines.len() ==> !starts_with(#[trigger] lines[j], prefix),
    decreases lines.len(),
{
    if lines.len() > 0 && !starts_with(lines[0], prefix) {
        lemma_first_with_prefix_found(lines.drop_first(), prefix);
        assert forall|j: int| 1 <= j < lines.len() implies lines[j] == lines.drop_first()[j - 1] by {}
    }
}

/// After setting an option, the first line for that option is `key:value`.
pub proof fn option_reads_back(lines: Seq<Seq<char>>, key: Seq<char>, value: Seq<char>)
    ensures
        ({
            let new_lines = with_option(lines, key, value);
            let k = first_with_prefix(new_lines, key + ":"@);
            0 <= k < new_lines.len() && new_lines[k] == key + ":"@ + value
        }),
{
    let prefix = key + ":"@;
    let line = key + ":"@ + value;
    assert(line.take(prefix.len() as int) == prefix);
    assert(starts_with(line, prefix));
    lemma_first_with_prefix_found(lines, prefix);
    let k = first_with_prefix(lines, prefix);
    let new_lines = with_option(lines, key, value);
    if k >= 0 {
        assert forall|j: int| 0 <= j < k implies !starts_with(#[trigger] new_lines[j], prefix) by {
            assert(new_lines[j] == lines[j]);
        }
        lemma_first_with_prefix_at(new_lines, prefix, k);
    } else {
        assert forall|j: int| 0 <= j < lines.len() implies !starts_with(
            #[trigger] new_lines[j],
            prefix,
        ) by {
            assert(new_lines[j] == lines[j]);
        }
        lemma_first_with_prefix_at(new_lines, prefix, lines.len() as int);
    }
}

/// Setting an option to a value twice gives the same lines as setting it once.
pub proof fn option_set_twice(lines: Seq<Seq<char>>, key: Seq<char>, value: Seq<char>)
    ensures
        with_option(with_option(lines, key, value), key, value) == with_option(lines, key, value),
{
    let prefix = key + ":"@;
    let line = key + ":"@ + value;
    assert(line.take(prefix.len() as int) == prefix);
    assert(starts_with(line, prefix));
    lemma_first_with_prefix_found(lines, prefix);
    let k = first_with_prefix(lines, prefix);
    let once = with_option(lines, key, value);
    if k >= 0 {
        assert forall|j: int| 0 <= j < k implies !starts_with(#[trigger] once[j], prefix) by {
            assert(once[j] == lines[j]);
        }
        lemma_first_with_prefix_at(once, prefix, k);
        assert(once.update(k, line) =~= once);
    } else {
        assert forall|j: int| 0 <= j < lines.len() implies !starts_with(#[trigger] once[j], prefix) by {
            assert(once[j] == lines[j]);
        }
        lemma_first_with_prefix_at(once, prefix, lines.len() as int);
        assert(once.update(lines.len() as int, line) =~= once);
    }
}

/// Every argument is there and complete: not empty, and without a placeholder.
pub open spec fn all_complete(args: Seq<Seq<char>>) -> bool {
    forall|k: int| 0 <= k < args.len() ==> (#[trigger] args[k]).len() > 0 && !unresolved(args[k])
}

proof fn lemma_complete_concat(a: Seq<Seq<char>>, b: Seq<Seq<char>>)
    requires
        all_complete(a),
        all_complete(b),
    ensures
        all_complete(a + b),
{
    assert forall|k: int| 0 <= k < (a + b).len() implies (#[trigger] (a + b)[k]).len() > 0
        && !unresolved((a + b)[k]) by {
        if k < a.len() {
            assert((a + b)[k] == a[k]);
        } else {
            assert((a + b)[k] == b[k - a.len()]);
        }
    }
}

proof fn lemma_list_values_complete(items: Seq<Option<String>>, vars: Seq<(Seq<char>, Seq<char>)>)
    ensures
        all_complete(list_values(items, vars)),
    decreases items.len(),
{
    if items.len() > 0 {
        lemma_list_values_complete(items.drop_last(), vars);
        let last = match items.last() {
            Some(t) => resolved_value(t@, vars),
            None => Seq::empty(),
        };
        assert(all_complete(last));
        lemma_complete_concat(list_values(items.drop_last(), vars), last);
    }
}

proof fn lemma_entries_values_complete(
    entries: Seq<ArgEntry>,
    vars: Seq<(Seq<char>, Seq<char>)>,
    features: Seq<(Seq<char>, bool)>,
)
    ensures
        all_complete(entries_values(entries, vars, features)),
    decreases entries.len(),
{
    if entries.len() > 0 {
        lemma_entries_values_complete(entries.drop_last(), vars, features);
        let e = entries.last();
        match e {
            ArgEntry::Conditional { rules, value } => {
                if let ArgValue::List(items) = value {
                    lemma_list_values_complete(items@, vars);
                }
            },
            _ => {},
        }
        assert(all_complete(entry_values(e, vars, features)));
        lemma_complete_concat(
            entries_values(entries.drop_last(), vars, features),
            entry_values(e, vars, features),
        );
    }
}

/// Every argument that a version's argument list gives is complete: placeholders
/// that stay unfilled, or fill to nothing, drop the argument.
pub proof fn resolved_args_are_complete(
    entries: Seq<ArgEntry>,
    vars: Seq<(Seq<char>, Seq<char>)>,
    features: Seq<(Seq<char>, bool)>,
)
    ensures
        all_complete(entries_values(entries, vars, features)),
{
    lemma_entries_values_complete(entries, vars, features);
}

/// `a` is a subsequence of `b`: it is `b` with some elements left out.
pub open spec fn subsequence_of(a: Seq<Seq<char>>, b: Seq<Seq<char>>) -> bool
    decreases b.len(),
{
    if a.len() == 0 {
        true
    } else if b.len() == 0 {
        false
    } else {
        (a[0] == b[0] && subsequence_of(a.drop_first(), b.drop_first())) || subsequence_of(
            a,
            b.drop_first(),
        )
    }
}

/// Every flag that takes a value is followed by one: an argument that is not empty,
/// holds no placeholder and is not itself a flag.
pub open spec fn options_complete(args: Seq<Seq<char>>) -> bool {
    forall|k: int|
        0 <= k < args.len() && starts_with(#[trigger] args[k], "--"@) && takes_value(args[k]) ==> {
            &&& k + 1 < args.len()
            &&& args[k + 1].len() > 0
            &&& !unresolved(args[k + 1])
            &&& !starts_with(args[k + 1], "--"@)
        }
}

proof fn lemma_subsequence_skip(a: Seq<Seq<char>>, b: Seq<Seq<char>>, c: Seq<char>)
    requires
        subsequence_of(a, b),
    ensures
        subsequence_of(a, seq![c] + b),
{
    let cb = seq![c] + b;
    assert(cb.drop_first() =~= b);
    if a.len() > 0 {
        assert(cb.len() > 0);
    }
}

proof fn lemma_subsequence_keep(a: Seq<Seq<char>>, b: Seq<Seq<char>>, c: Seq<char>)
    requires
        subsequence_of(a, b),
    ensures
        subsequence_of(seq![c] + a, seq![c] + b),
{
    let ca = seq![c] + a;
    let cb = seq![c] + b;
    assert(ca.drop_first() =~= a);
    assert(cb.drop_first() =~= b);
    assert(ca[0] == c && cb[0] == c);
}

proof fn lemma_filter_subsequence(args: Seq<Seq<char>>)
    ensures
        subsequence_of(filtered_game_args(args), args),
    decreases args.len(),
{
    if args.len() > 0 {
        let a = args[0];
        assert(args =~= seq![a] + args.drop_first());
        if starts_with(a, "--"@) && takes_value(a) {
            if args.len() >= 2 && !starts_with(args[1], "--"@) {
                let v = args[1];
                let rest = args.skip(2);
                lemma_filter_subsequence(rest);
                let fr = filtered_game_args(rest);
                assert(args.drop_first() =~= seq![v] + rest);
                if v.len() > 0 && !unresolved(v) {
                    lemma_subsequence_keep(fr, rest, v);
                    lemma_subsequence_keep(seq![v] + fr, seq![v] + rest, a);
                    assert(seq![a, v] + fr =~= seq![a] + (seq![v] + fr));
                } else {
                    lemma_subsequence_skip(fr, rest, v);
                    lemma_subsequence_skip(fr, seq![v] + rest, a);
                    assert(Seq::<Seq<char>>::empty() + fr =~= fr);
                }
            } else {
                lemma_filter_subsequence(args.drop_first());
                lemma_subsequence_skip(filtered_game_args(args.drop_first()), args.drop_first(), a);
            }
        } else {
            lemma_filter_subsequence(args.drop_first());
            lemma_subsequence_keep(filtered_game_args(args.drop_first()), args.drop_first(), a);
        }
    }
}

proof fn lemma_filter_complete(args: Seq<Seq<char>>)
    ensures
        options_complete(filtered_game_args(args)),
    decreases args.len(),
{
    if args.len() > 0 {
        let a = args[0];
        if starts_with(a, "--"@) && takes_value(a) {
            if args.len() >= 2 && !starts_with(args[1], "--"@) {
                let v = args[1];
                let rest = args.skip(2);
                lemma_filter_complete(rest);
                let fr = filtered_game_args(rest);
                if v.len() > 0 && !unresolved(v) {
                    let r = seq![a, v] + fr;
                    assert forall|k: int|
                        0 <= k < r.len() && starts_with(#[trigger] r[k], "--"@) && takes_value(
                            r[k],
                        ) implies {
                        &&& k + 1 < r.len()
                        &&& r[k + 1].len() > 0
                        &&& !unresolved(r[k + 1])
                        &&& !starts_with(r[k + 1], "--"@)
                    } by {
                        if k >= 2 {
                            assert(r[k] == fr[k - 2]);
                            assert(r[k + 1] == fr[k - 1]);
                        }
                    }
                } else {
                    assert(Seq::<Seq<char>>::empty() + fr =~= fr);
                }
            } else {
                lemma_filter_complete(args.drop_first());
            }
        } else {
            lemma_filter_complete(args.drop_first());
            let fr = filtered_game_args(args.drop_first());
            let r = seq![a] + fr;
            assert forall|k: int|
                0 <= k < r.len() && starts_with(#[trigger] r[k], "--"@) && takes_value(r[k]) implies {
                &&& k + 1 < r.len()
                &&& r[k + 1].len() > 0
                &&& !unresolved(r[k + 1])
                &&& !starts_with(r[k + 1], "--"@)
            } by {
                assert(r[k] == fr[k - 1]);
                assert(r[k + 1] == fr[k]);
            }
        }
    }
}

proof fn lemma_filter_keeps_complete(args: Seq<Seq<char>>)
    requires
        options_complete(args),
    ensures
        filtered_game_args(args) == args,
    decreases args.len(),
{
    if args.len() > 0 {
        let a = args[0];
        if starts_with(a, "--"@) && takes_value(a) {
            assert(starts_with(args[0], "--"@) && takes_value(args[0]));
            let rest = args.skip(2);
            assert forall|k: int|
                0 <= k < rest.len() && starts_with(#[trigger] rest[k], "--"@) && takes_value(
                    rest[k],
                ) implies {
                &&& k + 1 < rest.len()
                &&& rest[k + 1].len() > 0
                &&& !unresolved(rest[k + 1])
                &&& !starts_with(rest[k + 1], "--"@)
            } by {
                assert(rest[k] == args[k + 2]);
                assert(starts_with(args[k + 2], "--"@) && takes_value(args[k + 2]));
                assert(rest[k + 1] == args[k + 3]);
            }
            lemma_filter_keeps_complete(rest);
            assert(args =~= seq![a, args[1]] + rest);
        } else {
            let rest = args.drop_first();
            assert forall|k: int|
                0 <= k < rest.len() && starts_with(#[trigger] rest[k], "--"@) && takes_value(
                    rest[k],
                ) implies {
                &&& k + 1 < rest.len()
                &&& rest[k + 1].len() > 0
                &&& !unresolved(rest[k + 1])
                &&& !starts_with(rest[k + 1], "--"@)
            } by {
                assert(rest[k] == args[k + 1]);
                assert(starts_with(args[k + 1], "--"@) && takes_value(args[k + 1]));
                assert(rest[k + 1] == args[k + 2]);
            }
            lemma_filter_keeps_complete(rest);
            assert(args =~= seq![a] + rest);
        }
    }
}

/// Filtering the game arguments only leaves arguments out, leaves every flag that
/// takes a value followed by a complete value, and changes nothing when done again.
pub proof fn game_args_filter_is_clean(args: Seq<Seq<char>>)
    ensures
        subsequence_of(filtered_game_args(args), args),
        options_complete(filtered_game_args(args)),
        filtered_game_args(filtered_game_args(args)) == filtered_game_args(args),
{
    lemma_filter_subsequence(args);
    lemma_filter_complete(args);
    lemma_filter_keeps_complete(filtered_game_args(args));
}

/// The value of the first variable named `key`, the one a placeholder `${key}` is
/// filled with.
pub open spec fn var_value(vars: Seq<(Seq<char>, Seq<char>)>, key: Seq<char>) -> Option<Seq<char>>
    decreases vars.len(),
{
    if vars.len() == 0 {
        None
    } else if vars[0].0 == key {
        Some(vars[0].1)
    } else {
        var_value(vars.drop_first(), key)
    }
}

proof fn lemma_var_value_at(vars: Seq<(Seq<char>, Seq<char>)>, key: Seq<char>, k: int)
    requires
        0 <= k < vars.len(),
        vars[k].0 == key,
        forall|j: int| 0 <= j < k ==> vars[j].0 != key,
    ensures
        var_value(vars, key) == Some(vars[k].1),
    decreases k,
{
    if k > 0 {
        assert forall|j: int| 0 <= j < k - 1 implies vars.drop_first()[j].0 != key by {
            assert(vars.drop_first()[j] == vars[j + 1]);
        }
        lemma_var_value_at(vars.drop_first(), key, k - 1);
    }
}

/// Each placeholder of a launch is filled from the context's field of the same
/// meaning: the natives and assets directories, the class path, the player's name
/// and identity (also as access token), the version and its asset index, the game
/// directory, the window size when there is one, and the launcher's name and version.
pub proof fn launch_vars_fill_from_context(c: LaunchContext)
    ensures
        var_value(launch_var_list(c), "natives_directory"@) == Some(c.natives@),
        var_value(launch_var_list(c), "classpath"@) == Some(c.classpath@),
        var_value(launch_var_list(c), "launcher_name"@) == Some("chadow-games-launcher"@),
        var_value(launch_var_list(c), "launcher_version"@) == Some("3.2.2"@),
        var_value(launch_var_list(c), "auth_player_name"@) == Some(c.username@),
        var_value(launch_var_list(c), "version_name"@) == Some(c.version@),
        var_value(launch_var_list(c), "game_directory"@) == Some(c.game_dir@),
        var_value(launch_var_list(c), "assets_root"@) == Some(c.assets_dir@),
        var_value(launch_var_list(c), "assets_index_name"@) == Some(c.asset_index@),
        var_value(launch_var_list(c), "auth_uuid"@) == Some(c.uuid@),
        var_value(launch_var_list(c), "auth_access_token"@) == Some(c.uuid@),
        var_value(launch_var_list(c), "auth_xuid"@) == Some(Seq::<char>::empty()),
        var_value(launch_var_list(c), "clientid"@) == Some(Seq::<char>::empty()),
        var_value(launch_var_list(c), "version_type"@) == Some("release"@),
        var_value(launch_var_list(c), "resolution_width"@) == Some(
            match c.window {
                Some((w, h)) => decimal(w as nat),
                None => Seq::<char>::empty(),
            },
        ),
        var_value(launch_var_list(c), "resolution_height"@) == Some(
            match c.window {
                Some((w, h)) => decimal(h as nat),
                None => Seq::<char>::empty(),
            },
        ),
{
    reveal_strlit("natives_directory");
    reveal_strlit("classpath");
    reveal_strlit("launcher_name");
    reveal_strlit("launcher_version");
    reveal_strlit("auth_player_name");
    reveal_strlit("version_name");
    reveal_strlit("game_directory");
    reveal_strlit("assets_root");
    reveal_strlit("assets_index_name");
    reveal_strlit("auth_uuid");
    reveal_strlit("auth_access_token");
    reveal_strlit("auth_xuid");
    reveal_strlit("clientid");
    reveal_strlit("version_type");
    reveal_strlit("resolution_width");
    reveal_strlit("resolution_height");
    reveal_strlit("quickPlayPath");
    reveal_strlit("quickPlaySingleplayer");
    reveal_strlit("quickPlayMultiplayer");
    reveal_strlit("quickPlayRealms");
    let l = launch_var_list(c);
    assert("natives_directory"@.len() == 17);
    assert("classpath"@.len() == 9);
    assert("launcher_name"@.len() == 13);
    assert("launcher_version"@.len() == 16);
    assert("auth_player_name"@.len() == 16);
    assert("version_name"@.len() == 12);
    assert("game_directory"@.len() == 14);
    assert("assets_root"@.len() == 11);
    assert("assets_index_name"@.len() == 17);
    assert("auth_uuid"@.len() == 9);
    assert("auth_access_token"@.len() == 17);
    assert("auth_xuid"@.len() == 9);
    assert("clientid"@.len() == 8);
    assert("version_type"@.len() == 12);
    assert("resolution_width"@.len() == 16);
    assert("resolution_height"@.len() == 17);
    assert("launcher_version"@[0] != "auth_player_name"@[0]);
    assert("natives_directory"@[0] != "assets_index_name"@[0]);
    assert("classpath"@[0] != "auth_uuid"@[0]);
    assert("natives_directory"@[0] != "auth_access_token"@[0]);
    assert("assets_index_name"@[1] != "auth_access_token"@[1]);
    assert("classpath"@[0] != "auth_xuid"@[0]);
    assert("auth_uuid"@[5] != "auth_xuid"@[5]);
    assert("version_name"@[8] != "version_type"@[8]);
    assert("launcher_version"@[0] != "resolution_width"@[0]);
    assert("auth_player_name"@[0] != "resolution_width"@[0]);
    assert("natives_directory"@[0] != "resolution_height"@[0]);
    assert("assets_index_name"@[0] != "resolution_height"@[0]);
    assert("auth_access_token"@[0] != "resolution_height"@[0]);
    lemma_var_value_at(l, "natives_directory"@, 0);
    assert forall|j: int| 0 <= j < 1 implies l[j].0 != "classpath"@ by {
        
    }
    lemma_var_value_at(l, "classpath"@, 1);
    assert forall|j: int| 0 <= j < 2 implies l[j].0 != "launcher_name"@ by {
        if j == 0 {
        } else {
        }
    }
    lemma_var_value_at(l, "launcher_name"@, 2);
    assert forall|j: int| 0 <= j < 3 implies l[j].0 != "launcher_version"@ by {
        if j == 0 {
        } else if j == 1 {
        } else {
        }
    }
    lemma_var_value_at(l, "launcher_version"@, 3);
    assert forall|j: int| 0 <= j < 4 implies l[j].0 != "auth_player_name"@ by {
        if j == 0 {
        } else if j == 1 {
        } else if j == 2 {
        } else {
        }
    }
    lemma_var_value_at(l, "auth_player_name"@, 4);
    assert forall|j: int| 0 <= j < 5 implies l[j].0 != "version_name"@ by {
        if j == 0 {
        } else if j == 1 {
        } else if j == 2 {
        } else if j == 3 {
        } else {
        }
    }
    lemma_var_value_at(l, "version_name"@, 5);
    assert forall|j: int| 0 <= j < 6 implies l[j].0 != "game_directory"@ by {
        if j == 0 {
        } else if j == 1 {
        } else if j == 2 {
        } else if j == 3 {
        } else if j == 4 {
        } else {
        }
    }
    lemma_var_value_at(l, "game_directory"@, 6);
    assert forall|j: int| 0 <= j < 7 implies l[j].0 != "assets_root"@ by {
        if j == 0 {
        } else if j == 1 {
        } else if j == 2 {
        } else if j == 3 {
        } else if j == 4 {
        } else if j == 5 {
        } else {
        }
    }
    lemma_var_value_at(l, "assets_root"@, 7);
    assert forall|j: int| 0 <= j < 8 implies l[j].0 != "assets_index_name"@ by {
        if j == 0 {
        } else if j == 1 {
        } else if j == 2 {
        } else if j == 3 {
        } else if j == 4 {
        } else if j == 5 {
        } else if j == 6 {
        } else {
        }
    }
    lemma_var_value_at(l, "assets_index_name"@, 8);
    assert forall|j: int| 0 <= j < 9 implies l[j].0 != "auth_uuid"@ by {
        if j == 0 {
        } else if j == 1 {
        } else if j == 2 {
        } else if j == 3 {
        } else if j == 4 {
        } else if j == 5 {
        } else if j == 6 {
        } else if j == 7 {
        } else {
        }
    }
    lemma_var_value_at(l, "auth_uuid"@, 9);
    assert forall|j: int| 0 <= j < 10 implies l[j].0 != "auth_access_token"@ by {
        if j == 0 {
        } else if j == 1 {
        } else if j == 2 {
        } else if j == 3 {
        } else if j == 4 {
        } else if j == 5 {
        } else if j == 6 {
        } else if j == 7 {
        } else if j == 8 {
        } else {
        }
    }
    lemma_var_value_at(l, "auth_access_token"@, 10);
    assert forall|j: int| 0 <= j < 11 implies l[j].0 != "auth_xuid"@ by {
        if j == 0 {
        } else if j == 1 {
        } else if j == 2 {
        } else if j == 3 {
        } else if j == 4 {
        } else if j == 5 {
        } else if j == 6 {
        } else if j == 7 {
        } else if j == 8 {
        } else if j == 9 {
        } else {
        }
    }
    lemma_var_value_at(l, "auth_xuid"@, 11);
    assert forall|j: int| 0 <= j < 12 implies l[j].0 != "clientid"@ by {
        if j == 0 {
        } else if j == 1 {
        } else if j == 2 {
        } else if j == 3 {
        } else if j == 4 {
        } else if j == 5 {
        } else if j == 6 {
        } else if j == 7 {
        } else if j == 8 {
        } else if j == 9 {
        } else if j == 10 {
        } else {
        }
    }
    lemma_var_value_at(l, "clientid"@, 12);
    assert forall|j: int| 0 <= j < 13 implies l[j].0 != "version_type"@ by {
        if j == 0 {
        } else if j == 1 {
        } else if j == 2 {
        } else if j == 3 {
        } else if j == 4 {
        } else if j == 5 {
        } else if j == 6 {
        } else if j == 7 {
        } else if j == 8 {
        } else if j == 9 {
        } else if j == 10 {
        } else if j == 11 {
        } else {
        }
    }
    lemma_var_value_at(l, "version_type"@, 13);
    assert forall|j: int| 0 <= j < 14 implies l[j].0 != "resolution_width"@ by {
        if j == 0 {
        } else if j == 1 {
        } else if j == 2 {
        } else if j == 3 {
        } else if j == 4 {
        } else if j == 5 {
        } else if j == 6 {
        } else if j == 7 {
        } else if j == 8 {
        } else if j == 9 {
        } else if j == 10 {
        } else if j == 11 {
        } else if j == 12 {
        } else {
        }
    }
    lemma_var_value_at(l, "resolution_width"@, 14);
    assert forall|j: int| 0 <= j < 15 implies l[j].0 != "resolution_height"@ by {
        if j == 0 {
        } else if j == 1 {
        } else if j == 2 {
        } else if j == 3 {
        } else if j == 4 {
        } else if j == 5 {
        } else if j == 6 {
        } else if j == 7 {
        } else if j == 8 {
        } else if j == 9 {
        } else if j == 10 {
        } else if j == 11 {
        } else if j == 12 {
        } else if j == 13 {
        } else {
        }
    }
    lemma_var_value_at(l, "resolution_height"@, 15);
}

/// Every flag other than `--demo` that stays in the filtered game arguments is
/// followed by its value: an argument that is not empty, holds no placeholder and is
/// not itself a flag.
pub open spec fn flags_have_values(args: Seq<Seq<char>>) -> bool {
    forall|k: int|
        0 <= k < args.len() && starts_with(#[trigger] args[k], "--"@) && args[k] != "--demo"@ ==> {
            &&& k + 1 < args.len()
            &&& args[k + 1].len() > 0
            &&& !unresolved(args[k + 1])
            &&& !starts_with(args[k + 1], "--"@)
        }
}

/// In the filtered game arguments, every flag but `--demo` comes with a complete
/// value: a flag whose value is missing, empty or unfilled is dropped with it.
pub proof fn filtered_flags_have_values(args: Seq<Seq<char>>)
    ensures
        flags_have_values(filtered_game_args(args)),
{
    lemma_filter_complete(args);
    let r = filtered_game_args(args);
    assert forall|k: int|
        0 <= k < r.len() && starts_with(#[trigger] r[k], "--"@) && r[k] != "--demo"@ implies {
        &&& k + 1 < r.len()
        &&& r[k + 1].len() > 0
        &&& !unresolved(r[k + 1])
        &&& !starts_with(r[k + 1], "--"@)
    } by {
        assert(takes_value(r[k]));
    }
}

} // verus!
