//! What an installed version consists of, and the decisions made while installing
//! one: which libraries apply, where each file goes, whether a local file can be
//! kept, and what ends up on the class path.
use vstd::prelude::*;
use vstd::string::StringSliceAdditionalSpecFns;
use crate::digest::{digest_accepted, normalize_digest, normalized_digest};
use crate::paths::{asset_index_path, assets_dir, version_jar_path, GamePath};
pub use crate::launch::VersionArguments;
use crate::text::{
    chars_equal, chars_equal_str, chars_of, contains, contains_str, decimal, ends_with,
    ends_with_str, join, join_chars, lowercase, push_all, push_decimal, push_str, replace_all,
    replace_chars, slice_chars, split_char, split_chars, starts_with, starts_with_str,
    string_from_chars, to_lowercase, trim, trim_chars, trimmed,
};

verus! {

/// A prebuilt client archive offered by the server.
pub struct ClientPack {
    pub version: String,
    pub url: String,
    pub sha256: String,
    pub size: u64,
}

/// A downloadable file: where from, its SHA-1 (possibly empty), and its path under
/// `libraries/` when given.
pub struct DownloadEntry {
    pub url: String,
    pub sha1: String,
    pub path: Option<String>,
}

/// The downloads of a library: the main artifact and the classifier artifacts by name.
pub struct LibraryDownloads {
    pub artifact: Option<DownloadEntry>,
    pub classifiers: Option<Vec<(String, DownloadEntry)>>,
}

/// The operating system a rule is about.
pub struct LibraryRuleOs {
    pub name: Option<String>,
}

/// One rule of a library: allow or disallow, possibly only on some system.
pub struct LibraryRule {
    pub action: String,
    pub os: Option<LibraryRuleOs>,
}

/// A library of a version.
pub struct Library {
    pub name: String,
    pub downloads: Option<LibraryDownloads>,
    pub rules: Option<Vec<LibraryRule>>,
}

/// The asset index of a version.
pub struct AssetIndex {
    pub id: String,
    pub url: String,
}

// ---------------------------------------------------------------------------
// Which libraries apply
// ---------------------------------------------------------------------------

/// A library name that names native code.
pub open spec fn is_native_name(name: Seq<char>) -> bool {
    contains(name, ":natives-"@)
}

/// Whether a library is a native one (its name holds `:natives-`).
pub fn is_native_library(name: &str) -> (b: bool)
    ensures
        b == is_native_name(name@),
{
    let n = chars_of(name);
    contains_str(&n, ":natives-")
}

/// A rule concerns this system: it names no system, or names `windows`.
pub open spec fn rule_applies(rule: LibraryRule) -> bool {
    match rule.os {
        Some(os) => match os.name {
            Some(n) => n@ == "windows"@,
            None => true,
        },
        None => true,
    }
}

/// The last rule that concerns this system allows; no such rule means not allowed.
pub open spec fn rules_allow(rules: Seq<LibraryRule>) -> bool
    decreases rules.len(),
{
    if rules.len() == 0 {
        false
    } else if rule_applies(rules.last()) {
        rules.last().action@ == "allow"@
    } else {
        rules_allow(rules.drop_last())
    }
}

/// A library is used: a native one only in its Windows form, any other when its rules
/// allow it or it has none.
pub open spec fn library_allowed_spec(lib: Library) -> bool {
    if is_native_name(lib.name@) {
        ends_with(lib.name@, ":natives-windows"@)
    } else {
        match lib.rules {
            None => true,
            Some(rules) => rules_allow(rules@),
        }
    }
}

fn rule_applies_exec(rule: &LibraryRule) -> (b: bool)
    ensures
        b == rule_applies(*rule),
{
    match &rule.os {
        Some(os) => match &os.name {
            Some(n) => {
                let c = chars_of(n.as_str());
                chars_equal_str(&c, "windows")
            },
            None => true,
        },
        None => true,
    }
}

/// Whether a library is used on this system.
pub fn library_allowed(lib: &Library) -> (b: bool)
    ensures
        b == library_allowed_spec(*lib),
{
    if is_native_library(lib.name.as_str()) {
        let n = chars_of(lib.name.as_str());
        return ends_with_str(&n, ":natives-windows");
    }
    match &lib.rules {
        None => true,
        Some(rules) => {
            let mut allow = false;
            let mut i: usize = 0;
            while i < rules.len()
                invariant
                    i <= rules.len(),
                    allow == rules_allow(rules@.take(i as int)),
                decreases rules.len() - i,
            {
                let rule = &rules[i];
                proof {
                    let t = rules@.take(i + 1);
                    assert(t.drop_last() == rules@.take(i as int));
                    assert(t.last() == rules@[i as int]);
                }
                if rule_applies_exec(rule) {
                    let a = chars_of(rule.action.as_str());
                    allow = chars_equal_str(&a, "allow");
                }
                i = i + 1;
            }
            assert(rules@.take(rules.len() as int) == rules@);
            allow
        },
    }
}

// ---------------------------------------------------------------------------
// Where library files go
// ---------------------------------------------------------------------------

/// The main artifact of a library, if it has one.
pub open spec fn artifact_of(lib: Library) -> Option<DownloadEntry> {
    match lib.downloads {
        Some(d) => d.artifact,
        None => None,
    }
}

/// The main artifact of a library, if it has one.
pub fn library_artifact(lib: &Library) -> (r: Option<&DownloadEntry>)
    ensures
        r == match artifact_of(*lib) {
            Some(a) => Some(&a),
            None => None::<&DownloadEntry>,
        },
{
    match &lib.downloads {
        Some(d) => match &d.artifact {
            Some(a) => Some(a),
            None => None,
        },
        None => None,
    }
}

/// Where an artifact is stored: `root/libraries/<path>`, or `root/libraries/unknown.jar`
/// when it gives no path.
pub open spec fn artifact_location(root: Seq<Seq<char>>, artifact: DownloadEntry) -> Seq<
    Seq<char>,
> {
    root + seq![
        "libraries"@,
        match artifact.path {
            Some(p) => p@,
            None => "unknown.jar"@,
        },
    ]
}

/// Where an artifact is stored.
pub fn artifact_destination(root: &GamePath, artifact: &DownloadEntry) -> (p: GamePath)
    ensures
        p@ == artifact_location(root@, *artifact),
{
    match &artifact.path {
        Some(path) => root.join("libraries").join(path.as_str()),
        None => root.join("libraries").join("unknown.jar"),
    }
}

/// Where a library's artifact is stored (the library itself does not matter).
pub fn library_destination(root: &GamePath, lib: &Library, artifact: &DownloadEntry) -> (p:
    GamePath)
    ensures
        p@ == artifact_location(root@, *artifact),
{
    artifact_destination(root, artifact)
}

/// The Maven file name for the pieces of `group:artifact:version[:classifier...]`:
/// `artifact-version.jar`, or `artifact-version-<rest joined by ->.jar`.
pub open spec fn maven_file_name(parts: Seq<Seq<char>>) -> Seq<char> {
    if parts.len() > 3 {
        parts[1] + "-"@ + parts[2] + "-"@ + join(parts.skip(3), "-"@) + ".jar"@
    } else {
        parts[1] + "-"@ + parts[2] + ".jar"@
    }
}

/// The Maven path of a library name `group:artifact:version[:...]`:
/// `group/with/slashes/artifact/version/<file name>`; none when the name has fewer
/// than three pieces.
pub open spec fn maven_relative(name: Seq<char>) -> Option<Seq<char>> {
    let parts = split_char(name, ':');
    if parts.len() < 3 {
        None
    } else {
        Some(
            replace_all(parts[0], "."@, "/"@) + "/"@ + parts[1] + "/"@ + parts[2] + "/"@
                + maven_file_name(parts),
        )
    }
}

fn copy_pieces(parts: &Vec<Vec<char>>, from: usize) -> (r: Vec<Vec<char>>)
    requires
        from <= parts.len(),
    ensures
        r@.map_values(|p: Vec<char>| p@) == parts@.map_values(|p: Vec<char>| p@).skip(
            from as int,
        ),
{
    let mut r: Vec<Vec<char>> = Vec::new();
    let mut i = from;
    while i < parts.len()
        invariant
            from <= i <= parts.len(),
            r@.map_values(|p: Vec<char>| p@) == parts@.map_values(|p: Vec<char>| p@).subrange(
                from as int,
                i as int,
            ),
        decreases parts.len() - i,
    {
        let piece = slice_chars(&parts[i], 0, parts[i].len());
        proof {
            assert(piece@ == parts@[i as int]@);
        }
        let ghost before = r@;
        r.push(piece);
        proof {
            assert(r@.map_values(|p: Vec<char>| p@) =~= before.map_values(|p: Vec<char>| p@).push(
                piece@,
            ));
            assert(parts@.map_values(|p: Vec<char>| p@).subrange(from as int, i + 1)
                =~= parts@.map_values(|p: Vec<char>| p@).subrange(from as int, i as int).push(
                parts@[i as int]@,
            ));
        }
        i = i + 1;
    }
    r
}

/// The Maven path of a library name, as characters.
pub fn maven_relative_path(name: &str) -> (r: Option<Vec<char>>)
    ensures
        match r {
            Some(v) => maven_relative(name@) == Some(v@),
            None => maven_relative(name@) is None,
        },
{
    let n = chars_of(name);
    let parts = split_chars(&n, ':');
    let ghost views = parts@.map_values(|p: Vec<char>| p@);
    if parts.len() < 3 {
        return None;
    }
    assert(views[0] == parts@[0]@ && views[1] == parts@[1]@ && views[2] == parts@[2]@);
    let mut file_name = slice_chars(&parts[1], 0, parts[1].len());
    push_str(&mut file_name, "-");
    push_all(&mut file_name, &parts[2]);
    if parts.len() > 3 {
        push_str(&mut file_name, "-");
        let rest = copy_pieces(&parts, 3);
        let dash = chars_of("-");
        let joined = join_chars(&rest, &dash);
        push_all(&mut file_name, &joined);
    }
    push_str(&mut file_name, ".jar");
    let dot = chars_of(".");
    proof {
        reveal_strlit(".");
    }
    let slash = chars_of("/");
    let mut rel = replace_chars(&parts[0], &dot, &slash);
    push_str(&mut rel, "/");
    push_all(&mut rel, &parts[1]);
    push_str(&mut rel, "/");
    push_all(&mut rel, &parts[2]);
    push_str(&mut rel, "/");
    push_all(&mut rel, &file_name);
    proof {
        assert(file_name@ == maven_file_name(views));
    }
    Some(rel)
}

/// Where a library is stored by its Maven name: `root/libraries/<maven path>`.
pub fn maven_library_path(root: &GamePath, name: &str) -> (p: Option<GamePath>)
    ensures
        match p {
            Some(path) => maven_relative(name@) matches Some(rel) && path@ == root@ + seq![
                "libraries"@,
                rel,
            ],
            None => maven_relative(name@) is None,
        },
{
    match maven_relative_path(name) {
        Some(rel) => Some(root.join("libraries").join_chars(&rel)),
        None => None,
    }
}

/// Where a library is looked for: its artifact's location when the artifact names a
/// path or its location holds a file (`artifact_present`), else its Maven location.
pub open spec fn library_location(
    root: Seq<Seq<char>>,
    lib: Library,
    artifact_present: bool,
) -> Option<Seq<Seq<char>>> {
    match artifact_of(lib) {
        Some(a) if a.path is Some || artifact_present => Some(artifact_location(root, a)),
        _ => match maven_relative(lib.name@) {
            Some(rel) => Some(root + seq!["libraries"@, rel]),
            None => None,
        },
    }
}

/// Where a library is looked for; `artifact_present` tells whether the artifact's
/// location holds a file.
pub fn library_file_path(root: &GamePath, lib: &Library, artifact_present: bool) -> (p: Option<
    GamePath,
>)
    ensures
        match p {
            Some(path) => library_location(root@, *lib, artifact_present) == Some(path@),
            None => library_location(root@, *lib, artifact_present) is None,
        },
{
    if let Some(artifact) = library_artifact(lib) {
        if artifact.path.is_some() || artifact_present {
            return Some(artifact_destination(root, artifact));
        }
    }
    maven_library_path(root, lib.name.as_str())
}

// ---------------------------------------------------------------------------
// The class path
// ---------------------------------------------------------------------------

/// What is known on disk about one library: whether its artifact's location holds a
/// file, and whether the location it is looked for at (`library_location`) does.
pub struct LibraryPresence {
    pub artifact: bool,
    pub resolved: bool,
}

/// A library's class path entry: its location, if it is used, not native, and present.
pub open spec fn classpath_entry(
    root: Seq<Seq<char>>,
    lib: Library,
    presence: LibraryPresence,
) -> Option<Seq<Seq<char>>> {
    if library_allowed_spec(lib) && !is_native_name(lib.name@) && presence.resolved {
        library_location(root, lib, presence.artifact)
    } else {
        None
    }
}

/// The Fabric loader library, which goes first on the class path.
pub open spec fn is_fabric_loader(lib: Library) -> bool {
    starts_with(lib.name@, "net.fabricmc:fabric-loader:"@)
}

/// The entries of all libraries but the Fabric loader, in order.
pub open spec fn plain_entries(
    root: Seq<Seq<char>>,
    libs: Seq<Library>,
    presence: Seq<LibraryPresence>,
) -> Seq<Seq<Seq<char>>>
    decreases libs.len(),
{
    if libs.len() == 0 {
        Seq::empty()
    } else {
        let earlier = plain_entries(root, libs.drop_last(), presence.take(libs.len() - 1));
        match classpath_entry(root, libs.last(), presence[libs.len() - 1]) {
            Some(e) if !is_fabric_loader(libs.last()) => earlier.push(e),
            _ => earlier,
        }
    }
}

/// The entry of the last Fabric loader library that has one.
pub open spec fn loader_entry(
    root: Seq<Seq<char>>,
    libs: Seq<Library>,
    presence: Seq<LibraryPresence>,
) -> Option<Seq<Seq<char>>>
    decreases libs.len(),
{
    if libs.len() == 0 {
        None
    } else {
        match classpath_entry(root, libs.last(), presence[libs.len() - 1]) {
            Some(e) if is_fabric_loader(libs.last()) => Some(e),
            _ => loader_entry(root, libs.drop_last(), presence.take(libs.len() - 1)),
        }
    }
}

/// The class path: the Fabric loader (if any), the other libraries in order, and
/// last the version's client jar.
pub open spec fn classpath(
    root: Seq<Seq<char>>,
    version: Seq<char>,
    libs: Seq<Library>,
    presence: Seq<LibraryPresence>,
) -> Seq<Seq<Seq<char>>> {
    let jar = root + seq!["versions"@, version, version + ".jar"@];
    match loader_entry(root, libs, presence) {
        Some(l) => seq![l] + plain_entries(root, libs, presence).push(jar),
        None => plain_entries(root, libs, presence).push(jar),
    }
}

/// The views of a list of locations.
pub open spec fn paths_view(v: Seq<GamePath>) -> Seq<Seq<Seq<char>>> {
    v.map_values(|p: GamePath| p@)
}

fn classpath_entry_exec(root: &GamePath, lib: &Library, presence: &LibraryPresence) -> (r:
    Option<GamePath>)
    ensures
        match r {
            Some(p) => classpath_entry(root@, *lib, *presence) == Some(p@),
            None => classpath_entry(root@, *lib, *presence) is None,
        },
{
    if !library_allowed(lib) || is_native_library(lib.name.as_str()) {
        return None;
    }
    match library_file_path(root, lib, presence.artifact) {
        Some(path) => {
            if !presence.resolved {
                return None;
            }
            Some(path)
        },
        None => None,
    }
}

/// The class path entries, in order, for the libraries of `version` under `root`;
/// `presence[i]` tells what is on disk for `libraries[i]`.
pub fn collect_classpath(
    root: &GamePath,
    version: &str,
    libraries: &Vec<Library>,
    presence: &Vec<LibraryPresence>,
) -> (r: Vec<GamePath>)
    requires
        presence.len() == libraries.len(),
    ensures
        paths_view(r@) == classpath(root@, version@, libraries@, presence@),
{
    let mut paths: Vec<GamePath> = Vec::new();
    let mut fabric_loader: Option<GamePath> = None;
    let mut i: usize = 0;
    while i < libraries.len()
        invariant
            i <= libraries.len() == presence.len(),
            paths_view(paths@) == plain_entries(
                root@,
                libraries@.take(i as int),
                presence@.take(i as int),
            ),
            match fabric_loader {
                Some(l) => loader_entry(root@, libraries@.take(i as int), presence@.take(i as int))
                    == Some(l@),
                None => loader_entry(
                    root@,
                    libraries@.take(i as int),
                    presence@.take(i as int),
                ) is None,
            },
        decreases libraries.len() - i,
    {
        let lib = &libraries[i];
        let entry = classpath_entry_exec(root, lib, &presence[i]);
        proof {
            let lt = libraries@.take(i + 1);
            let pt = presence@.take(i + 1);
            assert(lt.drop_last() == libraries@.take(i as int));
            assert(pt.take(i as int) == presence@.take(i as int));
            assert(lt.last() == libraries@[i as int]);
            assert(pt[i as int] == presence@[i as int]);
            assert(lt.len() == i + 1);
        }
        match entry {
            Some(path) => {
                let n = chars_of(lib.name.as_str());
                if starts_with_str(&n, "net.fabricmc:fabric-loader:") {
                    fabric_loader = Some(path);
                } else {
                    let ghost before = paths@;
                    paths.push(path);
                    proof {
                        assert(paths_view(paths@) =~= paths_view(before).push(path@));
                    }
                }
            },
            None => {},
        }
        i = i + 1;
    }
    assert(libraries@.take(libraries.len() as int) == libraries@);
    assert(presence@.take(presence.len() as int) == presence@);
    let jar = version_jar_path(root, version);
    match fabric_loader {
        Some(loader) => {
            let ghost lv = loader@;
            let mut out: Vec<GamePath> = Vec::new();
            out.push(loader);
            assert(paths_view(out@) =~= seq![lv]);
            let mut k: usize = 0;
            while k < paths.len()
                invariant
                    k <= paths.len(),
                    paths_view(out@) == seq![lv] + paths_view(paths@).take(k as int),
                decreases paths.len() - k,
            {
                let p = paths[k].duplicate();
                let ghost before = out@;
                out.push(p);
                proof {
                    assert(paths_view(out@) =~= paths_view(before).push(paths@[k as int]@));
                    assert(paths_view(paths@).take(k + 1) =~= paths_view(paths@).take(
                        k as int,
                    ).push(paths@[k as int]@));
                }
                k = k + 1;
            }
            assert(paths_view(paths@).take(paths.len() as int) == paths_view(paths@));
            let ghost before = out@;
            out.push(jar);
            proof {
                assert(paths_view(out@) =~= paths_view(before).push(jar@));
            }
            out
        },
        None => {
            let ghost before = paths@;
            paths.push(jar);
            proof {
                assert(paths_view(paths@) =~= paths_view(before).push(jar@));
            }
            paths
        },
    }
}

/// The views of a list of strings.
pub open spec fn texts_view(v: Seq<String>) -> Seq<Seq<char>> {
    v.map_values(|s: String| s@)
}

/// The class path string: the rendered entries separated by `;`.
pub fn join_classpath(entries: &Vec<String>) -> (r: String)
    ensures
        r@ == join(texts_view(entries@), ";"@),
{
    let mut parts: Vec<Vec<char>> = Vec::new();
    let mut i: usize = 0;
    while i < entries.len()
        invariant
            i <= entries.len(),
            parts@.map_values(|p: Vec<char>| p@) == texts_view(entries@).take(i as int),
        decreases entries.len() - i,
    {
        let c = chars_of(entries[i].as_str());
        let ghost before = parts@;
        parts.push(c);
        proof {
            assert(parts@.map_values(|p: Vec<char>| p@) =~= before.map_values(|p: Vec<char>| p@).push(
                c@,
            ));
            assert(texts_view(entries@).take(i + 1) =~= texts_view(entries@).take(i as int).push(
                entries@[i as int]@,
            ));
        }
        i = i + 1;
    }
    assert(texts_view(entries@).take(entries.len() as int) == texts_view(entries@));
    let sep = chars_of(";");
    let joined = join_chars(&parts, &sep);
    string_from_chars(&joined)
}

// ---------------------------------------------------------------------------
// Client packs
// ---------------------------------------------------------------------------

/// A client pack is meant for `version` and names a download.
pub open spec fn pack_applies(pack: ClientPack, version: Seq<char>) -> bool {
    pack.version@ == version && trim(pack.url@).len() > 0
}

/// Whether a client pack is meant for `version` and names a download.
pub fn client_pack_applies(pack: &ClientPack, version: &str) -> (b: bool)
    ensures
        b == pack_applies(*pack, version@),
{
    let v = chars_of(pack.version.as_str());
    if !chars_equal_str(&v, version) {
        return false;
    }
    let u = trimmed(pack.url.as_str());
    u.len() > 0
}

/// The digest recorded for an applied pack, read from the record's text: trimmed and
/// lower-cased, none when that leaves nothing.
pub open spec fn recorded_digest(text: Option<Seq<char>>) -> Option<Seq<char>> {
    match text {
        Some(t) => if normalized_digest(t).len() == 0 {
            None
        } else {
            Some(normalized_digest(t))
        },
        None => None,
    }
}

/// The digest to record for an applied pack (none when the pack names no digest).
pub fn applied_pack_stamp(text: &str) -> (r: Option<String>)
    ensures
        match r {
            Some(s) => recorded_digest(Some(text@)) == Some(s@),
            None => recorded_digest(Some(text@)) is None,
        },
{
    let d = normalize_digest(text);
    if d.len() == 0 {
        None
    } else {
        Some(string_from_chars(&d))
    }
}

/// A pack must be (re)applied: it is meant for this version and either names no
/// digest or names one other than the digest recorded when a pack was last applied.
pub open spec fn pack_needs_update(
    pack: ClientPack,
    version: Seq<char>,
    record: Option<Seq<char>>,
) -> bool {
    pack_applies(pack, version) && (normalized_digest(pack.sha256@).len() == 0 || recorded_digest(
        record,
    ) != Some(normalized_digest(pack.sha256@)))
}

/// Whether `pack` must be applied to `version`; `record` is the text of the record of
/// the last applied pack, when it could be read.
pub fn client_pack_needs_update(pack: &ClientPack, version: &str, record: Option<String>) -> (b:
    bool)
    ensures
        b == pack_needs_update(
            *pack,
            version@,
            match record {
                Some(t) => Some(t@),
                None => None,
            },
        ),
{
    if !client_pack_applies(pack, version) {
        return false;
    }
    let expected = normalize_digest(pack.sha256.as_str());
    if expected.len() == 0 {
        return true;
    }
    match record {
        None => true,
        Some(text) => {
            let d = normalize_digest(text.as_str());
            if d.len() == 0 {
                return true;
            }
            !chars_equal(&d, &expected)
        },
    }
}

// ---------------------------------------------------------------------------
// Progress
// ---------------------------------------------------------------------------

/// The step added to `from` for item `i` of `total`, with the launcher's `u8`
/// arithmetic: `i` and `total` reduced mod 256, the product saturating at 255.
pub open spec fn progress_step(from: u8, to: u8, i: nat, total: nat) -> int {
    let span = if to >= from {
        to - from
    } else {
        0
    };
    let product = if (i % 256) * span > 255 {
        255
    } else {
        (i % 256) * span
    };
    product / (total % 256) as int
}

/// The percentage can be computed: `total mod 256` is not zero (it divides) and the
/// sum stays within a `u8`.
pub open spec fn progress_defined(from: u8, to: u8, i: nat, total: nat) -> bool {
    total % 256 != 0 && from + progress_step(from, to, i, total) <= 255
}

/// Whether `progress_percent` can be computed for these arguments.
pub fn progress_in_range(from: u8, to: u8, i: usize, total: usize) -> (b: bool)
    ensures
        b == progress_defined(from, to, i as nat, total as nat),
{
    if total % 256 == 0 {
        return false;
    }
    let span: u16 = if to >= from {
        (to - from) as u16
    } else {
        0
    };
    let a = (i % 256) as u16;
    assert(a * span <= 65025) by (nonlinear_arith)
        requires
            a < 256,
            span < 256,
    ;
    let prod: u16 = a * span;
    let product: u16 = if prod > 255 {
        255
    } else {
        prod
    };
    let step = product / ((total % 256) as u16);
    (from as u16) + step <= 255
}

/// The progress percentage for item `i` of `total` between `from` and `to`.
pub fn progress_percent(from: u8, to: u8, i: usize, total: usize) -> (p: u8)
    requires
        progress_defined(from, to, i as nat, total as nat),
    ensures
        p == from + progress_step(from, to, i as nat, total as nat),
{
    let span = to.saturating_sub(from);
    let a = (i % 256) as u16;
    let b = span as u16;
    assert(a * b <= 65025) by (nonlinear_arith)
        requires
            a < 256,
            b < 256,
    ;
    let prod: u16 = a * b;
    let product: u8 = if prod > 255 {
        255
    } else {
        prod as u8
    };
    from + product / ((total % 256) as u8)
}

/// `label (done/total)`.
pub fn counted_label(label: &str, done: usize, total: usize) -> (r: String)
    ensures
        r@ == label@ + " ("@ + decimal(done as nat) + "/"@ + decimal(total as nat) + ")"@,
{
    let mut out = chars_of(label);
    push_str(&mut out, " (");
    push_decimal(&mut out, done as u64);
    push_str(&mut out, "/");
    push_decimal(&mut out, total as u64);
    push_str(&mut out, ")");
    string_from_chars(&out)
}

// ---------------------------------------------------------------------------
// Local files
// ---------------------------------------------------------------------------

/// How to decide whether a local file is usable.
pub enum FileCheck {
    /// It is not.
    Invalid,
    /// It is.
    Valid,
    /// It is if its SHA-1 satisfies this expectation.
    Sha1(String),
    /// It is if its SHA-256 satisfies this expectation.
    Sha256(String),
}

/// A digest expectation is given and not blank.
pub open spec fn named_digest(e: Option<Seq<char>>) -> bool {
    e matches Some(s) && trim(s).len() > 0
}

fn named_digest_exec(e: Option<&str>) -> (b: bool)
    ensures
        b == named_digest(
            match e {
                Some(s) => Some(s@),
                None => None,
            },
        ),
{
    match e {
        Some(s) => trimmed(s).len() > 0,
        None => false,
    }
}

/// The check for a file that should match the given digests: a missing or empty file
/// is unusable; a SHA-256 expectation is checked first, then a SHA-1 one; with
/// neither, any non-empty file is usable.
pub fn file_check(present: bool, len: u64, expected_sha1: Option<&str>, expected_sha256: Option<
    &str,
>) -> (c: FileCheck)
    ensures
        !present ==> c is Invalid,
        present && len == 0 ==> c is Invalid,
        present && len > 0 ==> match expected_sha256 {
            Some(e) if trim(e@).len() > 0 => c matches FileCheck::Sha256(s) && s@ == e@,
            _ => match expected_sha1 {
                Some(e) if trim(e@).len() > 0 => c matches FileCheck::Sha1(s) && s@ == e@,
                _ => c is Valid,
            },
        },
{
    if !present {
        return FileCheck::Invalid;
    }
    if len == 0 {
        return FileCheck::Invalid;
    }
    if named_digest_exec(expected_sha256) {
        match expected_sha256 {
            Some(e) => {
                let s = e.to_string();
                proof {
                    vstd::string::to_string_from_display_ensures_for_str(e, s);
                }
                return FileCheck::Sha256(s);
            },
            None => {},
        }
    }
    if named_digest_exec(expected_sha1) {
        match expected_sha1 {
            Some(e) => {
                let s = e.to_string();
                proof {
                    vstd::string::to_string_from_display_ensures_for_str(e, s);
                }
                return FileCheck::Sha1(s);
            },
            None => {},
        }
    }
    FileCheck::Valid
}

/// The check for a downloaded library artifact already on disk: its SHA-1 when one
/// is given, else that it is not empty.
pub fn artifact_check(expected_sha1: &str, len: u64) -> (c: FileCheck)
    ensures
        expected_sha1@.len() > 0 ==> (c matches FileCheck::Sha1(s) && s@ == expected_sha1@),
        expected_sha1@.len() == 0 ==> (if len > 0 {
            c is Valid
        } else {
            c is Invalid
        }),
{
    let e = chars_of(expected_sha1);
    if e.len() > 0 {
        let s = expected_sha1.to_string();
        proof {
            vstd::string::to_string_from_display_ensures_for_str(expected_sha1, s);
        }
        FileCheck::Sha1(s)
    } else if len > 0 {
        FileCheck::Valid
    } else {
        FileCheck::Invalid
    }
}

/// The SHA-1 to check a download against: none when the entry gives an empty one.
pub fn download_sha1(entry: &DownloadEntry) -> (r: Option<String>)
    ensures
        match r {
            Some(s) => entry.sha1@.len() > 0 && s@ == entry.sha1@,
            None => entry.sha1@.len() == 0,
        },
{
    let e = chars_of(entry.sha1.as_str());
    if e.len() == 0 {
        None
    } else {
        Some(entry.sha1.clone())
    }
}

/// The outcome of comparing a file's SHA-1 with an expectation; the error names the
/// file.
pub fn sha1_verdict(computed_hex: &str, expected: &str, file_name: &str) -> (r: Result<(), String>)
    ensures
        r is Ok <==> digest_accepted(computed_hex@, expected@),
        r matches Err(m) ==> m@ == "SHA1 не совпадает для "@ + file_name@,
{
    if crate::digest::digest_matches(computed_hex, expected) {
        Ok(())
    } else {
        let mut m = chars_of("SHA1 не совпадает для ");
        push_str(&mut m, file_name);
        Err(string_from_chars(&m))
    }
}

/// The outcome of comparing an archive's SHA-256 with an expectation.
pub fn sha256_verdict(computed_hex: &str, expected: &str) -> (r: Result<(), String>)
    ensures
        r is Ok <==> digest_accepted(computed_hex@, expected@),
        r matches Err(m) ==> m@ == "Контрольная сумма архива не совпадает"@,
{
    if crate::digest::digest_matches(computed_hex, expected) {
        Ok(())
    } else {
        let m = chars_of("Контрольная сумма архива не совпадает");
        Err(string_from_chars(&m))
    }
}

/// What to do with a partly downloaded file before resuming.
pub enum PartialAction {
    /// Resume from it.
    Keep,
    /// Delete it and start over.
    Discard,
    /// Delete it if it fails its check (`file_check`), else resume.
    DiscardIfInvalid,
}

/// What to do with the local copy before downloading: nothing when there is none or
/// it is empty; when the remote size is known, discard a longer copy and check one of
/// the same size; when it is not known, check the copy only if a digest is expected.
pub fn partial_download_action(
    present: bool,
    local_len: u64,
    remote_size: Option<u64>,
    digest_expected: bool,
) -> (a: PartialAction)
    ensures
        (!present || local_len == 0) ==> a is Keep,
        present && local_len > 0 ==> match remote_size {
            Some(r) => if local_len > r {
                a is Discard
            } else if local_len == r {
                a is DiscardIfInvalid
            } else {
                a is Keep
            },
            None => if digest_expected {
                a is DiscardIfInvalid
            } else {
                a is Keep
            },
        },
{
    if !present || local_len == 0 {
        return PartialAction::Keep;
    }
    match remote_size {
        Some(remote) => {
            if local_len > remote {
                PartialAction::Discard
            } else if local_len == remote {
                PartialAction::DiscardIfInvalid
            } else {
                PartialAction::Keep
            }
        },
        None => {
            if digest_expected {
                PartialAction::DiscardIfInvalid
            } else {
                PartialAction::Keep
            }
        },
    }
}

/// What to do with a download response.
pub enum ResponseAction {
    /// The server ignored the range: delete the partial file and ask again from the start.
    Restart,
    /// The server refused: fail.
    Reject,
    /// Write the body.
    Write,
}

/// The response to a request that asked for bytes from `offset` on: a full answer (200)
/// to a ranged request restarts the download; anything but success (2xx) or partial
/// content (206) is refused.
pub fn response_action(offset: u64, status: u16) -> (a: ResponseAction)
    ensures
        offset > 0 && status == 200 ==> a is Restart,
        !(offset > 0 && status == 200) ==> (if 200 <= status <= 299 || status == 206 {
            a is Write
        } else {
            a is Reject
        }),
{
    if offset > 0 && status == 200 {
        ResponseAction::Restart
    } else if !(200 <= status && status <= 299) && status != 206 {
        ResponseAction::Reject
    } else {
        ResponseAction::Write
    }
}

/// The size the finished file is expected to have: for a resumed download the remote
/// size, or what was there plus what is coming; otherwise the remote size, or the
/// length of the body when it is known and not zero.
pub fn total_expected(offset: u64, remote_size: Option<u64>, remainder: u64) -> (r: Option<u64>)
    requires
        offset > 0 ==> offset + remainder <= u64::MAX,
    ensures
        offset > 0 ==> r == Some(
            match remote_size {
                Some(s) => s,
                None => (offset + remainder) as u64,
            },
        ),
        offset == 0 ==> r == match remote_size {
            Some(s) => Some(s),
            None => if remainder > 0 {
                Some(remainder)
            } else {
                None
            },
        },
{
    if offset > 0 {
        let sum = offset + remainder;
        match remote_size {
            Some(s) => Some(s),
            None => Some(sum),
        }
    } else {
        match remote_size {
            Some(s) => Some(s),
            None => if remainder > 0 {
                Some(remainder)
            } else {
                None
            },
        }
    }
}

/// The message of a refused download.
pub fn http_failure_message(status_text: &str, url: &str) -> (m: String)
    ensures
        m@ == "HTTP "@ + status_text@ + " для "@ + url@,
{
    let mut m = chars_of("HTTP ");
    push_str(&mut m, status_text);
    push_str(&mut m, " для ");
    push_str(&mut m, url);
    string_from_chars(&m)
}

/// The message of a download that does not pass its check.
pub fn corrupted_download_message(file_name: &str) -> (m: String)
    ensures
        m@ == "Файл повреждён после загрузки: "@ + file_name@,
{
    let mut m = chars_of("Файл повреждён после загрузки: ");
    push_str(&mut m, file_name);
    string_from_chars(&m)
}

// ---------------------------------------------------------------------------
// Assets
// ---------------------------------------------------------------------------

/// An asset object: stored under `root/assets/objects/<first two bytes>/<hash>` and
/// fetched from the resources server at the same relative place; none when the hash
/// is shorter than two bytes. The two bytes must end on a character boundary, since
/// slicing a `str` elsewhere panics.
pub fn asset_object(root: &GamePath, hash: &str) -> (r: Option<(GamePath, String)>)
    requires
        hash.spec_bytes().len() >= 2 ==> vstd::utf8::is_char_boundary(hash.spec_bytes(), 2),
    ensures
        hash.spec_bytes().len() < 2 ==> r is None,
        hash.spec_bytes().len() >= 2 ==> (r matches Some((path, url)) && exists|prefix: Seq<char>|
            #[trigger] vstd::utf8::encode_utf8(prefix) == hash.spec_bytes().take(2) && path@
                == root@ + seq!["assets"@, "objects"@, prefix, hash@] && url@
                == "https://resources.download.minecraft.net/"@ + prefix + "/"@ + hash@),
{
    if hash.as_bytes().len() < 2 {
        return None;
    }
    let parts = hash.split_at(2);
    let prefix: &str = parts.0;
    proof {
        assert(hash.spec_bytes().subrange(0, 2) =~= hash.spec_bytes().take(2));
    }
    let path = assets_dir(root).join("objects").join(prefix).join(hash);
    let mut url = chars_of("https://resources.download.minecraft.net/");
    push_str(&mut url, prefix);
    push_str(&mut url, "/");
    push_str(&mut url, hash);
    let url = string_from_chars(&url);
    assert(vstd::utf8::encode_utf8(prefix@) == hash.spec_bytes().take(2));
    Some((path, url))
}

// ---------------------------------------------------------------------------
// Versions
// ---------------------------------------------------------------------------

/// The downloads of a version: its client jar.
pub struct VersionDownloads {
    pub client: DownloadEntry,
}

/// A version's description, as far as the launcher reads it.
pub struct VersionDetails {
    pub main_class: String,
    pub asset_index: AssetIndex,
    pub downloads: VersionDownloads,
    pub libraries: Vec<Library>,
    pub arguments: Option<crate::launch::VersionArguments>,
}

/// Why a version is not completely installed, if it is not.
pub enum InstallState {
    Installed,
    /// The client jar is missing or smaller than 1 KiB.
    MissingJar,
    /// This used library is looked for at a place that holds no file.
    MissingLibrary(String),
    /// The asset index is missing.
    MissingIndex,
}

/// Index of the first used library whose place is known but holds no file, or -1.
pub open spec fn first_missing(
    root: Seq<Seq<char>>,
    libs: Seq<Library>,
    presence: Seq<LibraryPresence>,
) -> int
    decreases libs.len(),
{
    if libs.len() == 0 {
        -1
    } else if library_allowed_spec(libs[0]) && library_location(root, libs[0], presence[0].artifact)
        is Some && !presence[0].resolved {
        0
    } else {
        let r = first_missing(root, libs.drop_first(), presence.drop_first());
        if r < 0 {
            -1
        } else {
            r + 1
        }
    }
}

/// Whether a version is completely installed: a client jar of at least 1 KiB, every
/// used library present where it is looked for, and the asset index present.
pub fn version_install_state(
    root: &GamePath,
    jar_present: bool,
    jar_len: u64,
    libraries: &Vec<Library>,
    presence: &Vec<LibraryPresence>,
    index_present: bool,
) -> (r: InstallState)
    requires
        presence.len() == libraries.len(),
    ensures
        (!jar_present || jar_len < 1024) ==> r is MissingJar,
        (jar_present && jar_len >= 1024) ==> ({
            let k = first_missing(root@, libraries@, presence@);
            if k >= 0 {
                r matches InstallState::MissingLibrary(n) && 0 <= k < libraries.len() && n@
                    == libraries@[k].name@
            } else if !index_present {
                r is MissingIndex
            } else {
                r is Installed
            }
        }),
{
    if !jar_present || jar_len < 1024 {
        return InstallState::MissingJar;
    }
    let mut i: usize = 0;
    assert(libraries@.skip(0) == libraries@);
    assert(presence@.skip(0) == presence@);
    while i < libraries.len()
        invariant
            i <= libraries.len() == presence.len(),
            jar_present && jar_len >= 1024,
            first_missing(root@, libraries@, presence@) == (if first_missing(
                root@,
                libraries@.skip(i as int),
                presence@.skip(i as int),
            ) < 0 {
                -1
            } else {
                first_missing(root@, libraries@.skip(i as int), presence@.skip(i as int)) + i
            }),
        decreases libraries.len() - i,
    {
        let ghost lr = libraries@.skip(i as int);
        let ghost pr = presence@.skip(i as int);
        assert(lr[0] == libraries@[i as int] && pr[0] == presence@[i as int]);
        assert(lr.drop_first() == libraries@.skip(i + 1));
        assert(pr.drop_first() == presence@.skip(i + 1));
        let lib = &libraries[i];
        if library_allowed(lib) {
            match library_file_path(root, lib, presence[i].artifact) {
                Some(_) => {
                    if !presence[i].resolved {
                        return InstallState::MissingLibrary(lib.name.clone());
                    }
                },
                None => {},
            }
        }
        i = i + 1;
    }
    assert(libraries@.skip(i as int).len() == 0);
    if !index_present {
        return InstallState::MissingIndex;
    }
    InstallState::Installed
}

/// The classifier artifact stored under `key`, if any.
pub open spec fn classifier(entries: Seq<(String, DownloadEntry)>, key: Seq<char>) -> Option<
    DownloadEntry,
>
    decreases entries.len(),
{
    if entries.len() == 0 {
        None
    } else if entries[0].0@ == key {
        Some(entries[0].1)
    } else {
        classifier(entries.drop_first(), key)
    }
}

/// The Windows native artifacts of a library: its `natives-windows` classifier, then
/// its `natives-windows-x64` one, each when present.
pub open spec fn windows_natives(lib: Library) -> Seq<DownloadEntry> {
    match lib.downloads {
        Some(d) => match d.classifiers {
            Some(c) => (match classifier(c@, "natives-windows"@) {
                Some(e) => seq![e],
                None => Seq::empty(),
            }) + (match classifier(c@, "natives-windows-x64"@) {
                Some(e) => seq![e],
                None => Seq::empty(),
            }),
            None => Seq::empty(),
        },
        None => Seq::empty(),
    }
}

fn clone_entry(e: &DownloadEntry) -> (r: DownloadEntry)
    ensures
        r == *e,
{
    DownloadEntry { url: e.url.clone(), sha1: e.sha1.clone(), path: e.path.clone() }
}

fn find_classifier(entries: &Vec<(String, DownloadEntry)>, key: &str) -> (r: Option<DownloadEntry>)
    ensures
        r == classifier(entries@, key@),
{
    let k = chars_of(key);
    let mut i: usize = 0;
    assert(entries@.skip(0) == entries@);
    while i < entries.len()
        invariant
            i <= entries.len(),
            k@ == key@,
            classifier(entries@, key@) == classifier(entries@.skip(i as int), key@),
        decreases entries.len() - i,
    {
        let ghost rest = entries@.skip(i as int);
        assert(rest[0] == entries@[i as int]);
        assert(rest.drop_first() == entries@.skip(i + 1));
        let c = chars_of(entries[i].0.as_str());
        if chars_equal(&c, &k) {
            return Some(clone_entry(&entries[i].1));
        }
        i = i + 1;
    }
    None
}

/// The Windows native artifacts of a library.
pub fn windows_classifiers(lib: &Library) -> (r: Vec<DownloadEntry>)
    ensures
        r@ == windows_natives(*lib),
{
    let mut out: Vec<DownloadEntry> = Vec::new();
    if let Some(d) = &lib.downloads {
        if let Some(c) = &d.classifiers {
            if let Some(e) = find_classifier(c, "natives-windows") {
                out.push(e);
            }
            let ghost first = out@;
            if let Some(e) = find_classifier(c, "natives-windows-x64") {
                out.push(e);
            }
            assert(out@ =~= windows_natives(*lib));
        }
    }
    out
}

/// The jars to unpack into the natives folder for a library: nothing for an unused
/// library; the artifact of a native library; the Windows classifiers of any other.
pub open spec fn native_jar_locations(root: Seq<Seq<char>>, lib: Library) -> Seq<Seq<Seq<char>>> {
    if !library_allowed_spec(lib) {
        Seq::empty()
    } else if is_native_name(lib.name@) {
        match artifact_of(lib) {
            Some(a) => seq![artifact_location(root, a)],
            None => Seq::empty(),
        }
    } else {
        windows_natives(lib).map_values(|e: DownloadEntry| artifact_location(root, e))
    }
}

/// The jars whose native files are unpacked for a library (each only if it exists).
pub fn native_jars(root: &GamePath, lib: &Library) -> (r: Vec<GamePath>)
    ensures
        paths_view(r@) == native_jar_locations(root@, *lib),
{
    let mut out: Vec<GamePath> = Vec::new();
    if !library_allowed(lib) {
        assert(paths_view(out@) =~= Seq::<Seq<Seq<char>>>::empty());
        return out;
    }
    if is_native_library(lib.name.as_str()) {
        if let Some(a) = library_artifact(lib) {
            out.push(artifact_destination(root, a));
        }
        assert(paths_view(out@) =~= native_jar_locations(root@, *lib));
        return out;
    }
    let entries = windows_classifiers(lib);
    let mut i: usize = 0;
    while i < entries.len()
        invariant
            i <= entries.len(),
            paths_view(out@) == entries@.take(i as int).map_values(
                |e: DownloadEntry| artifact_location(root@, e),
            ),
        decreases entries.len() - i,
    {
        let p = artifact_destination(root, &entries[i]);
        let ghost before = out@;
        out.push(p);
        assert(paths_view(out@) =~= paths_view(before).push(p@));
        assert(entries@.take(i + 1).map_values(|e: DownloadEntry| artifact_location(root@, e))
            =~= entries@.take(i as int).map_values(|e: DownloadEntry| artifact_location(root@, e)).push(
            artifact_location(root@, entries@[i as int]),
        ));
        i = i + 1;
    }
    assert(entries@.take(entries.len() as int) == entries@);
    out
}

/// What is known of an entry of a Java folder: whether it is a directory (unknown when
/// that cannot be read), and whether it is a usable Java home.
pub struct JavaDirEntry {
    pub is_dir: Option<bool>,
    pub valid: bool,
}

/// Which Java home to use.
pub enum JavaHomeChoice {
    /// The Java folder itself.
    Folder,
    /// This entry of it.
    Entry(usize),
    /// None.
    Missing,
}

/// The Java home among `entries`: the first that is a usable directory, stopping at the
/// first whose kind cannot be read.
pub open spec fn java_home_index(entries: Seq<JavaDirEntry>) -> int
    decreases entries.len(),
{
    if entries.len() == 0 {
        -1
    } else {
        match entries[0].is_dir {
            None => -1,
            Some(d) => if d && entries[0].valid {
                0
            } else {
                let r = java_home_index(entries.drop_first());
                if r < 0 {
                    -1
                } else {
                    r + 1
                }
            },
        }
    }
}

/// The Java home to use: the folder itself when it is one; else one of its entries
/// (none when the folder cannot be listed).
pub fn pick_java_home(folder_valid: bool, entries: Option<&Vec<JavaDirEntry>>) -> (r: JavaHomeChoice)
    ensures
        folder_valid ==> r is Folder,
        !folder_valid ==> match entries {
            None => r is Missing,
            Some(e) => {
                let k = java_home_index(e@);
                if k >= 0 {
                    r matches JavaHomeChoice::Entry(i) && i == k
                } else {
                    r is Missing
                }
            },
        },
{
    if folder_valid {
        return JavaHomeChoice::Folder;
    }
    let list = match entries {
        Some(l) => l,
        None => {
            return JavaHomeChoice::Missing;
        },
    };
    let mut i: usize = 0;
    assert(list@.skip(0) == list@);
    while i < list.len()
        invariant
            i <= list.len(),
            entries == Some(list),
            !folder_valid,
            java_home_index(list@) == (if java_home_index(list@.skip(i as int)) < 0 {
                -1
            } else {
                java_home_index(list@.skip(i as int)) + i
            }),
        decreases list.len() - i,
    {
        let ghost rest = list@.skip(i as int);
        assert(rest[0] == list@[i as int]);
        assert(rest.drop_first() == list@.skip(i + 1));
        match list[i].is_dir {
            None => {
                return JavaHomeChoice::Missing;
            },
            Some(d) => {
                if d && list[i].valid {
                    return JavaHomeChoice::Entry(i);
                }
            },
        }
        i = i + 1;
    }
    assert(list@.skip(i as int).len() == 0);
    JavaHomeChoice::Missing
}

/// Where the Java runtime of a major version is downloaded from.
pub fn java_download_url(major: u32) -> (r: String)
    ensures
        r@ == "https://api.adoptium.net/v3/binary/latest/"@ + decimal(major as nat)
            + "/ga/windows/x64/jdk/hotspot/normal/eclipse?project=jdk"@,
{
    let mut u = chars_of("https://api.adoptium.net/v3/binary/latest/");
    push_decimal(&mut u, major as u64);
    push_str(&mut u, "/ga/windows/x64/jdk/hotspot/normal/eclipse?project=jdk");
    string_from_chars(&u)
}

/// What an unpacked client pack turned out to be.
pub enum PackLayout {
    /// A complete client.
    Full,
    /// Only mods, to lay over a client installed from Mojang.
    Overlay,
    /// Unusable, for this reason.
    Broken(String),
}

/// What an unpacked client pack is: without a version description it is an overlay
/// when it brought mods and unusable otherwise; with one it is complete only when the
/// version is completely installed.
pub fn pack_layout(description_present: bool, has_mods: bool, installed: bool) -> (r: PackLayout)
    ensures
        !description_present && has_mods ==> r is Overlay,
        !description_present && !has_mods ==> (r matches PackLayout::Broken(m) && m@
            == "В архиве нет version.json"@),
        description_present && !installed ==> (r matches PackLayout::Broken(m) && m@
            == "Архив распакован не полностью"@),
        description_present && installed ==> r is Full,
{
    if !description_present {
        if has_mods {
            return PackLayout::Overlay;
        }
        let m = chars_of("В архиве нет version.json");
        return PackLayout::Broken(string_from_chars(&m));
    }
    if !installed {
        let m = chars_of("Архив распакован не полностью");
        return PackLayout::Broken(string_from_chars(&m));
    }
    PackLayout::Full
}

/// An archive entry that names a directory (its name ends with `/`).
pub fn is_directory_entry(name: &str) -> (b: bool)
    ensures
        b == ends_with(name@, "/"@),
{
    let n = chars_of(name);
    ends_with_str(&n, "/")
}

/// An archive entry that holds a Windows native library (its name ends with `.dll`).
pub fn is_dll_entry(name: &str) -> (b: bool)
    ensures
        b == ends_with(name@, ".dll"@),
{
    let n = chars_of(name);
    ends_with_str(&n, ".dll")
}

/// The class path always ends with the version's client jar, and a Fabric loader
/// entry, when there is one, comes first.
pub proof fn classpath_shape(
    root: Seq<Seq<char>>,
    version: Seq<char>,
    libs: Seq<Library>,
    presence: Seq<LibraryPresence>,
)
    ensures
        classpath(root, version, libs, presence).len() >= 1,
        classpath(root, version, libs, presence).last() == root + seq![
            "versions"@,
            version,
            version + ".jar"@,
        ],
        loader_entry(root, libs, presence) matches Some(l) ==> classpath(
            root,
            version,
            libs,
            presence,
        )[0] == l,
{
}

/// With fewer than 256 items, item `i` of `total` is always reported between `from`
/// and `to` (for `from <= to`): the percentage can be computed and stays in range.
pub proof fn progress_stays_in_span(from: u8, to: u8, i: nat, total: nat)
    requires
        from <= to,
        i < total < 256,
    ensures
        progress_defined(from, to, i, total),
        from <= from + progress_step(from, to, i, total) <= to,
{
    let span = (to - from) as int;
    assert(i % 256 == i);
    assert(total % 256 == total);
    let product = if i * span > 255 {
        255
    } else {
        i * span
    };
    assert(product <= i * span);
    assert(i * span <= (total - 1) * span) by (nonlinear_arith)
        requires
            i < total,
            span >= 0,
    ;
    assert(product / (total as int) <= span) by (nonlinear_arith)
        requires
            0 <= product <= (total - 1) * span,
            total >= 1,
            span >= 0,
    ;
    assert(product / (total as int) >= 0) by (nonlinear_arith)
        requires
            product >= 0,
            total >= 1,
    ;
}

/// With fewer than 256 items, a later item is never reported at a lower percentage
/// than an earlier one.
pub proof fn progress_never_goes_back(from: u8, to: u8, i: nat, j: nat, total: nat)
    requires
        i <= j < total < 256,
    ensures
        progress_step(from, to, i, total) <= progress_step(from, to, j, total),
{
    let span: int = if to >= from {
        to - from
    } else {
        0
    };
    assert(i % 256 == i);
    assert(j % 256 == j);
    assert(total % 256 == total);
    assert(i * span <= j * span) by (nonlinear_arith)
        requires
            i <= j,
            span >= 0,
    ;
    let pi: int = if i * span > 255 {
        255
    } else {
        i * span
    };
    let pj: int = if j * span > 255 {
        255
    } else {
        j * span
    };
    assert(0 <= pi <= pj) by (nonlinear_arith)
        requires
            i * span <= j * span,
            i >= 0,
            span >= 0,
            pi == (if i * span > 255 { 255 } else { i * span }),
            pj == (if j * span > 255 { 255 } else { j * span }),
    ;
    assert(pi / (total as int) <= pj / (total as int)) by (nonlinear_arith)
        requires
            0 <= pi <= pj,
            total >= 1,
    ;
}

// ---------------------------------------------------------------------------
// The course of an install
// ---------------------------------------------------------------------------

/// How an attempt to install from a client pack ended.
pub enum PackOutcome {
    /// The pack held a complete client.
    Full,
    /// The pack held only mods.
    Overlay,
    /// The pack could not be used.
    Failed,
}

/// What is known at a point of installing a Minecraft version.
pub enum InstallEvent {
    /// Before installing: `existing` is `Some((complete, pack_update))` when the
    /// version's jar and description are on disk and the description could be read;
    /// whether a client pack applies to the version; whether mods are present.
    Examined { existing: Option<(bool, bool)>, pack_applies: bool, has_mods: bool },
    /// The client pack attempt ended so; whether mods are present now.
    PackTried { outcome: PackOutcome, has_mods: bool },
    /// After a pack that held only mods: whether the jar and description are on disk
    /// and the version is completely installed.
    OverlayChecked { installed: bool },
    /// The install from Mojang finished; whether mods are present.
    Downloaded { has_mods: bool },
}

/// What to do next while installing a Minecraft version.
pub enum InstallAction {
    /// Stop with the version's details, preparing Fabric first when asked.
    Finish { prepare_fabric: bool },
    /// Install from the client pack.
    TryPack,
    /// See whether the mods-only pack left a complete install.
    CheckOverlay,
    /// Install from Mojang; `after_pack_failure` when a pack attempt failed before.
    FromMojang { after_pack_failure: bool },
}

/// The next step of installing a Minecraft version: an existing complete install with
/// no pack update due is kept (with Fabric when mods are present); otherwise a pack
/// that applies is tried first. A complete pack finishes (with Fabric when mods are
/// present), a mods-only pack finishes with Fabric if it left a complete install,
/// and anything else falls back to Mojang, after which Fabric is prepared when mods
/// are present.
pub fn install_step(event: &InstallEvent) -> (a: InstallAction)
    ensures
        match *event {
            InstallEvent::Examined { existing, pack_applies, has_mods } => if existing == Some(
                (true, false),
            ) {
                a == InstallAction::Finish { prepare_fabric: has_mods }
            } else if pack_applies {
                a == InstallAction::TryPack
            } else {
                a == InstallAction::FromMojang { after_pack_failure: false }
            },
            InstallEvent::PackTried { outcome, has_mods } => match outcome {
                PackOutcome::Full => a == InstallAction::Finish { prepare_fabric: has_mods },
                PackOutcome::Overlay => a == InstallAction::CheckOverlay,
                PackOutcome::Failed => a == InstallAction::FromMojang { after_pack_failure: true },
            },
            InstallEvent::OverlayChecked { installed } => if installed {
                a == InstallAction::Finish { prepare_fabric: true }
            } else {
                a == InstallAction::FromMojang { after_pack_failure: false }
            },
            InstallEvent::Downloaded { has_mods } => a == InstallAction::Finish {
                prepare_fabric: has_mods,
            },
        },
{
    match event {
        InstallEvent::Examined { existing, pack_applies, has_mods } => {
            let keep = match existing {
                Some((complete, pack_update)) => *complete && !*pack_update,
                None => false,
            };
            if keep {
                InstallAction::Finish { prepare_fabric: *has_mods }
            } else if *pack_applies {
                InstallAction::TryPack
            } else {
                InstallAction::FromMojang { after_pack_failure: false }
            }
        },
        InstallEvent::PackTried { outcome, has_mods } => match outcome {
            PackOutcome::Full => InstallAction::Finish { prepare_fabric: *has_mods },
            PackOutcome::Overlay => InstallAction::CheckOverlay,
            PackOutcome::Failed => InstallAction::FromMojang { after_pack_failure: true },
        },
        InstallEvent::OverlayChecked { installed } => {
            if *installed {
                InstallAction::Finish { prepare_fabric: true }
            } else {
                InstallAction::FromMojang { after_pack_failure: false }
            }
        },
        InstallEvent::Downloaded { has_mods } => InstallAction::Finish { prepare_fabric: *has_mods },
    }
}

/// What is known at a point of downloading a file.
pub enum DownloadEvent {
    /// Before downloading: whether the file on disk already passes its check.
    Examined { valid: bool },
    /// After writing: whether the file passes its check, and its name.
    Written { valid: bool, file_name: String },
}

/// What to do next while downloading a file.
pub enum DownloadAction {
    /// The file is there and usable: nothing is fetched.
    AlreadyDone,
    /// Fetch the file.
    Fetch,
    /// The download is complete.
    Finished,
    /// Delete the file and fail with this error.
    DiscardAndFail(String),
}

/// The next step of a download: a file that already passes its check is kept
/// without fetching; a written file that does not pass it is deleted and the download
/// fails with the corrupted-file error.
pub fn download_step(event: &DownloadEvent) -> (a: DownloadAction)
    ensures
        match *event {
            DownloadEvent::Examined { valid } => if valid {
                a is AlreadyDone
            } else {
                a is Fetch
            },
            DownloadEvent::Written { valid, file_name } => if valid {
                a is Finished
            } else {
                a matches DownloadAction::DiscardAndFail(m) && m@
                    == "Файл повреждён после загрузки: "@ + file_name@
            },
        },
{
    match event {
        DownloadEvent::Examined { valid } => {
            if *valid {
                DownloadAction::AlreadyDone
            } else {
                DownloadAction::Fetch
            }
        },
        DownloadEvent::Written { valid, file_name } => {
            if *valid {
                DownloadAction::Finished
            } else {
                DownloadAction::DiscardAndFail(corrupted_download_message(file_name.as_str()))
            }
        },
    }
}

/// Once a complete client pack with a digest is applied and its digest recorded,
/// that pack is not due again: the record read back gives the pack's digest. This
/// holds for a digest that normalizing leaves as it is, as it does a hex digest.
pub proof fn applied_pack_needs_no_update(pack: ClientPack, version: Seq<char>)
    requires
        pack_applies(pack, version),
        normalized_digest(pack.sha256@).len() > 0,
        normalized_digest(normalized_digest(pack.sha256@)) == normalized_digest(pack.sha256@),
    ensures
        recorded_digest(Some(normalized_digest(pack.sha256@))) == Some(
            normalized_digest(pack.sha256@),
        ),
        !pack_needs_update(pack, version, Some(normalized_digest(pack.sha256@))),
{
}

proof fn lemma_plain_entries_contain(
    root: Seq<Seq<char>>,
    libs: Seq<Library>,
    presence: Seq<LibraryPresence>,
    i: int,
)
    requires
        presence.len() == libs.len(),
        0 <= i < libs.len(),
        classpath_entry(root, libs[i], presence[i]) is Some,
        !is_fabric_loader(libs[i]),
    ensures
        plain_entries(root, libs, presence).contains(
            classpath_entry(root, libs[i], presence[i])->0,
        ),
    decreases libs.len(),
{
    let n = libs.len() - 1;
    let earlier = plain_entries(root, libs.drop_last(), presence.take(n));
    if i == n {
        assert(presence[n] == presence[i]);
        let e = classpath_entry(root, libs[i], presence[i])->0;
        assert(plain_entries(root, libs, presence) == earlier.push(e));
        assert(earlier.push(e)[earlier.len() as int] == e);
    } else {
        assert(libs.drop_last()[i] == libs[i]);
        assert(presence.take(n)[i] == presence[i]);
        lemma_plain_entries_contain(root, libs.drop_last(), presence.take(n), i);
        let e = classpath_entry(root, libs[i], presence[i])->0;
        let k = choose|k: int| 0 <= k < earlier.len() && earlier[k] == e;
        match classpath_entry(root, libs.last(), presence[n]) {
            Some(x) if !is_fabric_loader(libs.last()) => {
                assert(earlier.push(x)[k] == e);
            },
            _ => {},
        }
    }
}

/// Every library that is used, not native and present on disk is on the class path:
/// each one but the Fabric loader by its entry, and the Fabric loader's entry too.
pub proof fn used_libraries_are_on_classpath(
    root: Seq<Seq<char>>,
    version: Seq<char>,
    libs: Seq<Library>,
    presence: Seq<LibraryPresence>,
)
    requires
        presence.len() == libs.len(),
    ensures
        forall|i: int|
            0 <= i < libs.len() && !is_fabric_loader(libs[i]) && #[trigger] classpath_entry(
                root,
                libs[i],
                presence[i],
            ) is Some ==> classpath(root, version, libs, presence).contains(
                classpath_entry(root, libs[i], presence[i])->0,
            ),
        loader_entry(root, libs, presence) matches Some(l) ==> classpath(
            root,
            version,
            libs,
            presence,
        ).contains(l),
{
    let cp = classpath(root, version, libs, presence);
    let plain = plain_entries(root, libs, presence);
    let jar = root + seq!["versions"@, version, version + ".jar"@];
    assert forall|i: int|
        0 <= i < libs.len() && !is_fabric_loader(libs[i]) && #[trigger] classpath_entry(
            root,
            libs[i],
            presence[i],
        ) is Some implies cp.contains(classpath_entry(root, libs[i], presence[i])->0) by {
        lemma_plain_entries_contain(root, libs, presence, i);
        let e = classpath_entry(root, libs[i], presence[i])->0;
        let k = choose|k: int| 0 <= k < plain.len() && plain[k] == e;
        match loader_entry(root, libs, presence) {
            Some(l) => {
                assert(cp == seq![l] + plain.push(jar));
                assert(cp[k + 1] == e);
            },
            None => {
                assert(cp == plain.push(jar));
                assert(cp[k] == e);
            },
        }
    }
    if let Some(l) = loader_entry(root, libs, presence) {
        assert(cp[0] == l);
    }
}

proof fn lemma_no_rule_for_windows(rules: Seq<LibraryRule>)
    requires
        forall|i: int|
            0 <= i < rules.len() ==> ((#[trigger] rules[i]).os matches Some(os) && os.name matches Some(
                n,
            ) && n@ != "windows"@),
    ensures
        !rules_allow(rules),
    decreases rules.len(),
{
    if rules.len() > 0 {
        let last = rules[rules.len() - 1];
        assert(!rule_applies(last));
        assert forall|i: int| 0 <= i < rules.drop_last().len() implies ((
        #[trigger] rules.drop_last()[i]).os matches Some(os) && os.name matches Some(n) && n@
            != "windows"@) by {
            assert(rules.drop_last()[i] == rules[i]);
        }
        lemma_no_rule_for_windows(rules.drop_last());
    }
}

/// Which libraries are used on this system: a Windows native library always; a
/// native library for any other system never; a library that names no native code
/// and has no rules always; one whose rules all name a system other than Windows
/// never, and neither one with an empty rule list.
pub proof fn which_libraries_are_used(lib: Library)
    ensures
        ends_with(lib.name@, ":natives-windows"@) ==> library_allowed_spec(lib),
        is_native_name(lib.name@) && !ends_with(lib.name@, ":natives-windows"@)
            ==> !library_allowed_spec(lib),
        !is_native_name(lib.name@) && lib.rules is None ==> library_allowed_spec(lib),
        !is_native_name(lib.name@) && (lib.rules matches Some(rules) && forall|i: int|
            0 <= i < rules@.len() ==> ((#[trigger] rules@[i]).os matches Some(os)
                && os.name matches Some(n) && n@ != "windows"@)) ==> !library_allowed_spec(lib),
{
    let n = lib.name@;
    if ends_with(n, ":natives-windows"@) {
        reveal_strlit(":natives-windows");
        reveal_strlit(":natives-");
        let i = n.len() - 16;
        assert(n.subrange(i, i + 9) =~= ":natives-"@) by {
            assert forall|j: int| 0 <= j < 9 implies n.subrange(i, i + 9)[j] == ":natives-"@[j] by {
                assert(n.skip(i)[j] == n[i + j]);
                assert(":natives-windows"@[j] == ":natives-"@[j]);
            }
        }
        assert(crate::text::occurs_at(n, ":natives-"@, i));
    }
    if !is_native_name(n) {
        if let Some(rules) = lib.rules {
            if forall|i: int|
                0 <= i < rules@.len() ==> ((#[trigger] rules@[i]).os matches Some(os)
                    && os.name matches Some(nm) && nm@ != "windows"@) {
                lemma_no_rule_for_windows(rules@);
            }
        }
    }
}

/// What makes a version incomplete: the library `first_missing` names is the first
/// one that is used and looked for at a place that holds no file, and when it names
/// none, no used library is missing. A library that is not used never counts.
pub proof fn missing_library_is_first_used_absent(
    root: Seq<Seq<char>>,
    libs: Seq<Library>,
    presence: Seq<LibraryPresence>,
)
    requires
        presence.len() == libs.len(),
    ensures
        ({
            let k = first_missing(root, libs, presence);
            &&& -1 <= k < libs.len()
            &&& k >= 0 ==> library_allowed_spec(libs[k]) && library_location(
                root,
                libs[k],
                presence[k].artifact,
            ) is Some && !presence[k].resolved
            &&& forall|j: int|
                0 <= j < libs.len() && (k < 0 || j < k) ==> !(library_allowed_spec(libs[j])
                    && #[trigger] library_location(root, libs[j], presence[j].artifact) is Some
                    && !presence[j].resolved)
        }),
    decreases libs.len(),
{
    if libs.len() > 0 {
        let l1 = libs.drop_first();
        let p1 = presence.drop_first();
        missing_library_is_first_used_absent(root, l1, p1);
        assert forall|j: int| 0 < j < libs.len() implies libs[j] == l1[j - 1] && presence[j] == p1[
            j - 1] by {}
    }
}

proof fn lemma_plain_entries_from(root: Seq<Seq<char>>, libs: Seq<Library>, presence: Seq<LibraryPresence>)
    requires
        presence.len() == libs.len(),
    ensures
        forall|k: int|
            #![trigger plain_entries(root, libs, presence)[k]]
            0 <= k < plain_entries(root, libs, presence).len() ==> exists|i: int|
                0 <= i < libs.len() && #[trigger] classpath_entry(root, libs[i], presence[i]) == Some(
                    plain_entries(root, libs, presence)[k],
                ),
    decreases libs.len(),
{
    if libs.len() > 0 {
        let n = libs.len() - 1;
        let ld = libs.drop_last();
        let pt = presence.take(n);
        lemma_plain_entries_from(root, ld, pt);
        let earlier = plain_entries(root, ld, pt);
        let all = plain_entries(root, libs, presence);
        assert forall|k: int| #![trigger all[k]] 0 <= k < all.len() implies exists|i: int|
            0 <= i < libs.len() && #[trigger] classpath_entry(root, libs[i], presence[i]) == Some(
                all[k],
            ) by {
            if k < earlier.len() {
                assert(all[k] == earlier[k]);
                let i = choose|i: int|
                    0 <= i < ld.len() && #[trigger] classpath_entry(root, ld[i], pt[i]) == Some(
                        earlier[k],
                    );
                assert(ld[i] == libs[i] && pt[i] == presence[i]);
            } else {
                assert(classpath_entry(root, libs[n], presence[n]) == Some(all[k]));
            }
        }
    }
}

proof fn lemma_loader_entry_from(root: Seq<Seq<char>>, libs: Seq<Library>, presence: Seq<LibraryPresence>)
    requires
        presence.len() == libs.len(),
    ensures
        loader_entry(root, libs, presence) matches Some(l) ==> exists|i: int|
            0 <= i < libs.len() && #[trigger] classpath_entry(root, libs[i], presence[i]) == Some(l),
    decreases libs.len(),
{
    if libs.len() > 0 {
        let n = libs.len() - 1;
        let ld = libs.drop_last();
        let pt = presence.take(n);
        lemma_loader_entry_from(root, ld, pt);
        match classpath_entry(root, libs.last(), presence[n]) {
            Some(e) if is_fabric_loader(libs.last()) => {},
            _ => {
                if let Some(l) = loader_entry(root, ld, pt) {
                    let i = choose|i: int|
                        0 <= i < ld.len() && #[trigger] classpath_entry(root, ld[i], pt[i]) == Some(l);
                    assert(ld[i] == libs[i] && pt[i] == presence[i]);
                }
            },
        }
    }
}

/// The class path holds nothing but the client jar, last, and the places of
/// libraries that are used on this system, not native and present on disk.
pub proof fn classpath_holds_only_used_libraries(
    root: Seq<Seq<char>>,
    version: Seq<char>,
    libs: Seq<Library>,
    presence: Seq<LibraryPresence>,
)
    requires
        presence.len() == libs.len(),
    ensures
        classpath(root, version, libs, presence).last() == root + seq![
            "versions"@,
            version,
            version + ".jar"@,
        ],
        forall|k: int|
            #![trigger classpath(root, version, libs, presence)[k]]
            0 <= k < classpath(root, version, libs, presence).len() - 1 ==> exists|i: int|
                0 <= i < libs.len() && library_allowed_spec(libs[i]) && !is_native_name(
                    libs[i].name@,
                ) && presence[i].resolved && #[trigger] library_location(
                    root,
                    libs[i],
                    presence[i].artifact,
                ) == Some(classpath(root, version, libs, presence)[k]),
{
    lemma_plain_entries_from(root, libs, presence);
    lemma_loader_entry_from(root, libs, presence);
    let cp = classpath(root, version, libs, presence);
    let plain = plain_entries(root, libs, presence);
    let jar = root + seq!["versions"@, version, version + ".jar"@];
    assert forall|k: int| #![trigger cp[k]] 0 <= k < cp.len() - 1 implies exists|i: int|
        0 <= i < libs.len() && library_allowed_spec(libs[i]) && !is_native_name(libs[i].name@)
            && presence[i].resolved && #[trigger] library_location(root, libs[i], presence[i].artifact)
            == Some(cp[k]) by {
        let e = match loader_entry(root, libs, presence) {
            Some(l) => if k == 0 {
                l
            } else {
                plain[k - 1]
            },
            None => plain[k],
        };
        match loader_entry(root, libs, presence) {
            Some(l) => {
                assert(cp == seq![l] + plain.push(jar));
            },
            None => {
                assert(cp == plain.push(jar));
            },
        }
        assert(cp[k] == e);
        let i = choose|i: int|
            0 <= i < libs.len() && #[trigger] classpath_entry(root, libs[i], presence[i]) == Some(e);
        assert(classpath_entry(root, libs[i], presence[i]) == Some(e));
    }
}

} // verus!
