//! The Fabric mod loader: recognising mods, merging the Fabric profile into the
//! vanilla version, and where Fabric's libraries come from.
use vstd::prelude::*;
use crate::install::{maven_file_name, maven_relative, maven_relative_path};
use crate::paths::GamePath;
use crate::text::{
    chars_equal, chars_equal_str, chars_of, contains, contains_str, ends_with, ends_with_str,
    eq_ignore_ascii_case, eq_ignore_ascii_case_chars, extension, file_extension, join, join_chars,
    push_all, push_str, slice_chars, split_char, split_chars, string_from_chars,
};

verus! {

/// A file name is a mod: its extension is `jar` in any ASCII case.
pub open spec fn is_mod_file(name: Seq<char>) -> bool {
    extension(name) matches Some(e) && eq_ignore_ascii_case(e, "jar"@)
}

/// Whether a file name is a mod.
pub fn is_mod_jar(name: &str) -> (b: bool)
    ensures
        b == is_mod_file(name@),
{
    let n = chars_of(name);
    match file_extension(&n) {
        Some(e) => {
            let jar = chars_of("jar");
            eq_ignore_ascii_case_chars(&e, &jar)
        },
        None => false,
    }
}

/// The views of a list of strings.
pub open spec fn texts(v: Seq<String>) -> Seq<Seq<char>> {
    v.map_values(|s: String| s@)
}

/// Whether any of the file names in the mods folder is a mod.
pub fn has_mods(names: &Vec<String>) -> (b: bool)
    ensures
        b == exists|i: int| 0 <= i < names.len() && is_mod_file(#[trigger] names@[i]@),
{
    let mut i: usize = 0;
    while i < names.len()
        invariant
            i <= names.len(),
            forall|k: int| 0 <= k < i ==> !is_mod_file(#[trigger] names@[k]@),
        decreases names.len() - i,
    {
        if is_mod_jar(names[i].as_str()) {
            return true;
        }
        i = i + 1;
    }
    false
}

/// The mods of a client pack's top-level `mods` folder to copy into the instance's
/// mods folder: those not already there (`present[i]` for `names[i]`), in order.
pub open spec fn mods_to_copy(names: Seq<Seq<char>>, present: Seq<bool>) -> Seq<Seq<char>>
    decreases names.len(),
{
    if names.len() == 0 {
        Seq::empty()
    } else {
        mods_to_copy(names.drop_last(), present.take(names.len() - 1)) + (if is_mod_file(
            names.last(),
        ) && !present[names.len() - 1] {
            seq![names.last()]
        } else {
            Seq::empty()
        })
    }
}

/// Which mods to copy into the instance's mods folder.
pub fn mod_copy_plan(names: &Vec<String>, present: &Vec<bool>) -> (r: Vec<String>)
    requires
        present.len() == names.len(),
    ensures
        texts(r@) == mods_to_copy(texts(names@), present@),
{
    let mut out: Vec<String> = Vec::new();
    let mut i: usize = 0;
    while i < names.len()
        invariant
            i <= names.len() == present.len(),
            texts(out@) == mods_to_copy(texts(names@).take(i as int), present@.take(i as int)),
        decreases names.len() - i,
    {
        proof {
            let t = texts(names@).take(i + 1);
            assert(t.drop_last() == texts(names@).take(i as int));
            assert(t.last() == names@[i as int]@);
            assert(present@.take(i + 1).take(i as int) == present@.take(i as int));
            assert(present@.take(i + 1)[i as int] == present@[i as int]);
        }
        let ghost before = texts(out@);
        if is_mod_jar(names[i].as_str()) && !present[i] {
            out.push(names[i].clone());
            assert(texts(out@) =~= before + seq![names@[i as int]@]);
        } else {
            assert(texts(out@) =~= before + Seq::<Seq<char>>::empty());
        }
        i = i + 1;
    }
    assert(texts(names@).take(names.len() as int) == texts(names@));
    assert(present@.take(present.len() as int) == present@);
    out
}

/// Version details already set up for Fabric: the main class is Fabric's `KnotClient`.
pub fn is_fabric_main_class(main_class: &str) -> (b: bool)
    ensures
        b == contains(main_class@, "KnotClient"@),
{
    let m = chars_of(main_class);
    contains_str(&m, "KnotClient")
}

/// Where Fabric's profile for a game version and loader version is published.
pub fn fabric_profile_url(version: &str, loader_version: &str) -> (r: String)
    ensures
        r@ == "https://meta.fabricmc.net/v2/versions/loader/"@ + version@ + "/"@
            + loader_version@ + "/profile/json"@,
{
    let mut u = chars_of("https://meta.fabricmc.net/v2/versions/loader/");
    push_str(&mut u, version);
    push_str(&mut u, "/");
    push_str(&mut u, loader_version);
    push_str(&mut u, "/profile/json");
    string_from_chars(&u)
}

/// The vanilla version a Fabric profile builds on: the one it inherits from, else
/// the game version.
pub fn vanilla_version(inherits_from: Option<&str>, version: &str) -> (r: String)
    ensures
        r@ == match inherits_from {
            Some(v) => v@,
            None => version@,
        },
{
    let v = match inherits_from {
        Some(v) => chars_of(v),
        None => chars_of(version),
    };
    string_from_chars(&v)
}

/// A library of a Fabric profile.
pub struct FabricLibrary {
    pub name: String,
    pub url: Option<String>,
}

/// The names of a list of Fabric libraries.
pub open spec fn fabric_names(libs: Seq<FabricLibrary>) -> Seq<Seq<char>> {
    libs.map_values(|l: FabricLibrary| l.name@)
}

/// `name` is carried by one of the vanilla libraries.
pub open spec fn in_vanilla(vanilla: Seq<Option<String>>, name: Seq<char>) -> bool
    decreases vanilla.len(),
{
    if vanilla.len() == 0 {
        false
    } else {
        in_vanilla(vanilla.drop_last(), name) || (vanilla.last() matches Some(n) && n@ == name)
    }
}

/// The positions of the Fabric libraries added to the vanilla ones: each whose name is
/// neither a vanilla library's nor an earlier Fabric library's, in order.
pub open spec fn added_positions(vanilla: Seq<Option<String>>, fabric: Seq<Seq<char>>) -> Seq<int>
    decreases fabric.len(),
{
    if fabric.len() == 0 {
        Seq::empty()
    } else {
        let j = fabric.len() - 1;
        added_positions(vanilla, fabric.drop_last()) + (if !in_vanilla(vanilla, fabric[j])
            && !fabric.drop_last().contains(fabric[j]) {
            seq![j]
        } else {
            Seq::empty()
        })
    }
}

/// Which Fabric libraries to add to the vanilla ones, by position.
pub fn fabric_libraries_to_add(vanilla: &Vec<Option<String>>, fabric: &Vec<FabricLibrary>) -> (r: Vec<
    usize,
>)
    ensures
        r@.map_values(|i: usize| i as int) == added_positions(vanilla@, fabric_names(fabric@)),
{
    let ghost names = fabric_names(fabric@);
    let mut out: Vec<usize> = Vec::new();
    let mut j: usize = 0;
    while j < fabric.len()
        invariant
            j <= fabric.len(),
            names == fabric_names(fabric@),
            out@.map_values(|i: usize| i as int) == added_positions(vanilla@, names.take(j as int)),
        decreases fabric.len() - j,
    {
        let name = chars_of(fabric[j].name.as_str());
        let mut seen = false;
        let mut v: usize = 0;
        while v < vanilla.len()
            invariant
                v <= vanilla.len(),
                j < fabric.len(),
                name@ == fabric@[j as int].name@,
                seen == in_vanilla(vanilla@.take(v as int), name@),
            decreases vanilla.len() - v,
        {
            proof {
                let t = vanilla@.take(v + 1);
                assert(t.drop_last() == vanilla@.take(v as int));
                assert(t.last() == vanilla@[v as int]);
            }
            if let Some(n) = &vanilla[v] {
                let c = chars_of(n.as_str());
                if chars_equal(&c, &name) {
                    seen = true;
                }
            }
            v = v + 1;
        }
        assert(vanilla@.take(vanilla@.len() as int) == vanilla@);
        assert(!names.take(0).contains(name@));
        let mut k: usize = 0;
        while k < j
            invariant
                k <= j < fabric.len(),
                name@ == fabric@[j as int].name@,
                names == fabric_names(fabric@),
                seen == (in_vanilla(vanilla@, name@) || names.take(k as int).contains(name@)),
            decreases j - k,
        {
            let c = chars_of(fabric[k].name.as_str());
            proof {
                assert(names.take(k + 1) == names.take(k as int).push(names[k as int]));
            }
            if chars_equal(&c, &name) {
                seen = true;
                assert(names.take(k + 1)[k as int] == name@);
            }
            k = k + 1;
        }
        proof {
            let t = names.take(j + 1);
            assert(t.drop_last() == names.take(j as int));
            assert(t[j as int] == name@);
            assert(names.take(j as int) == t.drop_last());
            assert(seen == (in_vanilla(vanilla@, name@) || names.take(j as int).contains(name@)));
            assert(added_positions(vanilla@, t) == added_positions(vanilla@, names.take(j as int))
                + (if !in_vanilla(vanilla@, name@) && !names.take(j as int).contains(name@) {
                seq![j as int]
            } else {
                Seq::empty()
            }));
        }
        let ghost before = out@;
        if !seen {
            out.push(j);
            assert(out@.map_values(|i: usize| i as int) =~= before.map_values(|i: usize| i as int)
                + seq![j as int]);
        } else {
            assert(out@.map_values(|i: usize| i as int) =~= before.map_values(|i: usize| i as int)
                + Seq::<int>::empty());
        }
        j = j + 1;
    }
    assert(names.take(fabric.len() as int) == names);
    out
}

/// Where a Fabric library is stored and fetched from: its Maven path under
/// `root/libraries`, fetched from its repository (Mojang's when it names none) at
/// that path; Fabric's own repository is asked at `group/artifact/version/file` with
/// the group as written. None for a name with fewer than three pieces.
pub open spec fn fabric_download(root: Seq<Seq<char>>, lib: FabricLibrary) -> Option<
    (Seq<Seq<char>>, Seq<char>),
> {
    match maven_relative(lib.name@) {
        None => None,
        Some(rel) => {
            let parts = split_char(lib.name@, ':');
            let base = match lib.url {
                Some(u) => u@,
                None => "https://libraries.minecraft.net/"@,
            };
            let url = if ends_with(base, "/"@) {
                base + rel
            } else {
                base + "/"@ + rel
            };
            let fetched = if lib.url matches Some(u) && u@ == "https://maven.fabricmc.net/"@ {
                "https://maven.fabricmc.net/"@ + parts[0] + "/"@ + parts[1] + "/"@ + parts[2]
                    + "/"@ + maven_file_name(parts)
            } else {
                url
            };
            Some((root + seq!["libraries"@, rel], fetched))
        },
    }
}

/// Where a Fabric library is stored and where it is downloaded from.
pub fn fabric_library_download(root: &GamePath, lib: &FabricLibrary) -> (r: Option<(GamePath, String)>)
    ensures
        match r {
            Some((p, u)) => fabric_download(root@, *lib) == Some((p@, u@)),
            None => fabric_download(root@, *lib) is None,
        },
{
    let rel = match maven_relative_path(lib.name.as_str()) {
        Some(r) => r,
        None => {
            return None;
        },
    };
    let n = chars_of(lib.name.as_str());
    let parts = split_chars(&n, ':');
    let ghost pv = parts@.map_values(|p: Vec<char>| p@);
    assert(pv.len() >= 3);
    let base = match &lib.url {
        Some(u) => chars_of(u.as_str()),
        None => chars_of("https://libraries.minecraft.net/"),
    };
    let mut url = slice_chars(&base, 0, base.len());
    assert(base@.subrange(0, base.len() as int) =~= base@);
    if !ends_with_str(&base, "/") {
        push_str(&mut url, "/");
    }
    push_all(&mut url, &rel);
    let special = match &lib.url {
        Some(u) => {
            let c = chars_of(u.as_str());
            chars_equal_str(&c, "https://maven.fabricmc.net/")
        },
        None => false,
    };
    let fetched = if special {
        let mut f = chars_of("https://maven.fabricmc.net/");
        push_all(&mut f, &parts[0]);
        push_str(&mut f, "/");
        push_all(&mut f, &parts[1]);
        push_str(&mut f, "/");
        push_all(&mut f, &parts[2]);
        push_str(&mut f, "/");
        let mut file_name = slice_chars(&parts[1], 0, parts[1].len());
        push_str(&mut file_name, "-");
        push_all(&mut file_name, &parts[2]);
        if parts.len() > 3 {
            push_str(&mut file_name, "-");
            let mut rest: Vec<Vec<char>> = Vec::new();
            let mut i: usize = 3;
            while i < parts.len()
                invariant
                    3 <= i <= parts.len(),
                    pv == parts@.map_values(|p: Vec<char>| p@),
                    rest@.map_values(|p: Vec<char>| p@) == pv.subrange(3, i as int),
                decreases parts.len() - i,
            {
                let piece = slice_chars(&parts[i], 0, parts[i].len());
                let ghost before = rest@;
                rest.push(piece);
                proof {
                    assert(piece@ == pv[i as int]);
                    assert(rest@.map_values(|p: Vec<char>| p@) =~= before.map_values(
                        |p: Vec<char>| p@,
                    ).push(pv[i as int]));
                    assert(pv.subrange(3, i + 1) =~= pv.subrange(3, i as int).push(pv[i as int]));
                }
                i = i + 1;
            }
            assert(pv.subrange(3, parts.len() as int) =~= pv.skip(3));
            let dash = chars_of("-");
            let joined = join_chars(&rest, &dash);
            push_all(&mut file_name, &joined);
        }
        push_str(&mut file_name, ".jar");
        assert(file_name@ == maven_file_name(pv));
        push_all(&mut f, &file_name);
        f
    } else {
        url
    };
    let path = root.join("libraries").join_chars(&rel);
    Some((path, string_from_chars(&fetched)))
}

/// An entry of Mojang's version manifest, as far as it is read: its id and address
/// when they are strings.
pub struct ManifestEntry {
    pub id: Option<String>,
    pub url: Option<String>,
}

/// Index of the first manifest entry for `version`, or -1.
pub open spec fn manifest_index(entries: Seq<ManifestEntry>, version: Seq<char>) -> int
    decreases entries.len(),
{
    if entries.len() == 0 {
        -1
    } else if entries[0].id matches Some(id) && id@ == version {
        0
    } else {
        let r = manifest_index(entries.drop_first(), version);
        if r < 0 {
            -1
        } else {
            r + 1
        }
    }
}

/// The address of a version's description in the manifest: that of the first entry
/// for the version; an error when there is none or it gives no address.
pub fn manifest_version_url(entries: Option<&Vec<ManifestEntry>>, version: &str) -> (r: Result<
    String,
    String,
>)
    ensures
        match entries {
            None => r matches Err(e) && e@ == "Версия "@ + version@ + " не найдена в манифесте Mojang"@,
            Some(list) => {
                let k = manifest_index(list@, version@);
                if k < 0 {
                    r matches Err(e) && e@ == "Версия "@ + version@
                        + " не найдена в манифесте Mojang"@
                } else {
                    match list@[k].url {
                        Some(u) => r matches Ok(v) && v@ == u@,
                        None => r matches Err(e) && e@ == "Нет URL версии Mojang"@,
                    }
                }
            },
        },
{
    let mut missing = chars_of("Версия ");
    push_str(&mut missing, version);
    push_str(&mut missing, " не найдена в манифесте Mojang");
    let list = match entries {
        Some(l) => l,
        None => {
            return Err(string_from_chars(&missing));
        },
    };
    let want = chars_of(version);
    let mut i: usize = 0;
    assert(list@.skip(0) == list@);
    while i < list.len()
        invariant
            i <= list.len(),
            entries == Some(list),
            want@ == version@,
            manifest_index(list@, version@) == (if manifest_index(list@.skip(i as int), version@)
                < 0 {
                -1
            } else {
                manifest_index(list@.skip(i as int), version@) + i
            }),
        decreases list.len() - i,
    {
        let ghost rest = list@.skip(i as int);
        assert(rest[0] == list@[i as int]);
        assert(rest.drop_first() == list@.skip(i + 1));
        let matched = match &list[i].id {
            Some(id) => {
                let c = chars_of(id.as_str());
                chars_equal(&c, &want)
            },
            None => false,
        };
        if matched {
            return match &list[i].url {
                Some(u) => Ok(u.clone()),
                None => {
                    let e = chars_of("Нет URL версии Mojang");
                    Err(string_from_chars(&e))
                },
            };
        }
        i = i + 1;
    }
    assert(list@.skip(i as int).len() == 0);
    Err(string_from_chars(&missing))
}

proof fn lemma_added_step(vanilla: Seq<Option<String>>, fabric: Seq<Seq<char>>)
    requires
        fabric.len() > 0,
    ensures
        added_positions(vanilla, fabric) == added_positions(vanilla, fabric.drop_last()) + (if !in_vanilla(
            vanilla,
            fabric[fabric.len() - 1],
        ) && !fabric.drop_last().contains(fabric[fabric.len() - 1]) {
            seq![fabric.len() - 1]
        } else {
            Seq::empty()
        }),
{
}

proof fn lemma_added_bounds(vanilla: Seq<Option<String>>, fabric: Seq<Seq<char>>)
    ensures
        forall|a: int|
            0 <= a < added_positions(vanilla, fabric).len() ==> 0 <= #[trigger] added_positions(
                vanilla,
                fabric,
            )[a] < fabric.len() && !in_vanilla(vanilla, fabric[added_positions(vanilla, fabric)[a]]),
    decreases fabric.len(),
{
    if fabric.len() > 0 {
        let f = fabric.drop_last();
        lemma_added_bounds(vanilla, f);
        lemma_added_step(vanilla, fabric);
        let prev = added_positions(vanilla, f);
        let pos = added_positions(vanilla, fabric);
        assert forall|a: int| 0 <= a < pos.len() implies 0 <= #[trigger] pos[a] < fabric.len()
            && !in_vanilla(vanilla, fabric[pos[a]]) by {
            if a < prev.len() {
                assert(pos[a] == prev[a]);
                assert(f[prev[a]] == fabric[prev[a]]);
            }
        }
    }
}

proof fn lemma_added_distinct(vanilla: Seq<Option<String>>, fabric: Seq<Seq<char>>)
    ensures
        forall|a: int, b: int|
            0 <= a < b < added_positions(vanilla, fabric).len() ==> #[trigger] added_positions(
                vanilla,
                fabric,
            )[a] < #[trigger] added_positions(vanilla, fabric)[b] && fabric[added_positions(
                vanilla,
                fabric,
            )[a]] != fabric[added_positions(vanilla, fabric)[b]],
    decreases fabric.len(),
{
    if fabric.len() > 0 {
        let f = fabric.drop_last();
        let j = fabric.len() - 1;
        lemma_added_distinct(vanilla, f);
        lemma_added_bounds(vanilla, f);
        lemma_added_step(vanilla, fabric);
        let prev = added_positions(vanilla, f);
        let pos = added_positions(vanilla, fabric);
        assert forall|a: int, b: int| 0 <= a < b < pos.len() implies #[trigger] pos[a]
            < #[trigger] pos[b] && fabric[pos[a]] != fabric[pos[b]] by {
            assert(pos[a] == prev[a]);
            assert(0 <= prev[a] < f.len());
            assert(f[prev[a]] == fabric[prev[a]]);
            if b < prev.len() {
                assert(pos[b] == prev[b]);
                assert(f[prev[b]] == fabric[prev[b]]);
            } else {
                assert(pos[b] == j);
                if fabric[pos[a]] == fabric[j] {
                    assert(f.contains(fabric[j]));
                }
            }
        }
    }
}

proof fn lemma_added_complete(vanilla: Seq<Option<String>>, fabric: Seq<Seq<char>>)
    ensures
        forall|x: int|
            0 <= x < fabric.len() && !in_vanilla(vanilla, #[trigger] fabric[x]) ==> exists|a: int|
                0 <= a < added_positions(vanilla, fabric).len() && fabric[#[trigger] added_positions(
                    vanilla,
                    fabric,
                )[a]] == fabric[x],
    decreases fabric.len(),
{
    if fabric.len() > 0 {
        let f = fabric.drop_last();
        let j = fabric.len() - 1;
        lemma_added_complete(vanilla, f);
        lemma_added_bounds(vanilla, f);
        lemma_added_step(vanilla, fabric);
        let prev = added_positions(vanilla, f);
        let pos = added_positions(vanilla, fabric);
        let new = !in_vanilla(vanilla, fabric[j]) && !f.contains(fabric[j]);
        assert forall|x: int| 0 <= x < fabric.len() && !in_vanilla(vanilla, #[trigger] fabric[x])
            implies exists|a: int| 0 <= a < pos.len() && fabric[#[trigger] pos[a]] == fabric[x] by {
            if x < j {
                assert(f[x] == fabric[x]);
                let a = choose|a: int| 0 <= a < prev.len() && f[#[trigger] prev[a]] == f[x];
                assert(pos[a] == prev[a]);
                assert(f[prev[a]] == fabric[prev[a]]);
            } else if new {
                assert(pos[prev.len() as int] == j);
            } else {
                let y = choose|y: int| 0 <= y < f.len() && f[y] == fabric[j];
                assert(f[y] == fabric[y]);
                let a = choose|a: int| 0 <= a < prev.len() && f[#[trigger] prev[a]] == f[y];
                assert(pos[a] == prev[a]);
                assert(f[prev[a]] == fabric[prev[a]]);
            }
        }
    }
}

/// Merging the Fabric profile adds each Fabric library at most once, in the Fabric
/// profile's order, never one the vanilla version already has, and every Fabric
/// library the vanilla version lacks.
pub proof fn merge_adds_missing_libraries_once(vanilla: Seq<Option<String>>, fabric: Seq<Seq<char>>)
    ensures
        forall|a: int|
            0 <= a < added_positions(vanilla, fabric).len() ==> 0 <= #[trigger] added_positions(
                vanilla,
                fabric,
            )[a] < fabric.len() && !in_vanilla(vanilla, fabric[added_positions(vanilla, fabric)[a]]),
        forall|a: int, b: int|
            0 <= a < b < added_positions(vanilla, fabric).len() ==> #[trigger] added_positions(
                vanilla,
                fabric,
            )[a] < #[trigger] added_positions(vanilla, fabric)[b] && fabric[added_positions(
                vanilla,
                fabric,
            )[a]] != fabric[added_positions(vanilla, fabric)[b]],
        forall|x: int|
            0 <= x < fabric.len() && !in_vanilla(vanilla, #[trigger] fabric[x]) ==> exists|a: int|
                0 <= a < added_positions(vanilla, fabric).len() && fabric[#[trigger] added_positions(
                    vanilla,
                    fabric,
                )[a]] == fabric[x],
{
    lemma_added_bounds(vanilla, fabric);
    lemma_added_distinct(vanilla, fabric);
    lemma_added_complete(vanilla, fabric);
}

} // verus!
