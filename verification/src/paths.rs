//! Where the launcher keeps things: every location is a root followed by the
//! segments joined onto it, exactly as the launcher joins them.
use vstd::prelude::*;
use crate::text::{chars_equal_str, chars_of, decimal, push_decimal, push_str, string_from_chars};

verus! {

/// A location: the first segment is the root as given, each later one is joined onto
/// it in turn. Turning it into an operating-system path is left to the caller.
pub struct GamePath {
    pub segments: Vec<String>,
}

/// The views of a list of strings.
pub open spec fn strings_view(v: Seq<String>) -> Seq<Seq<char>> {
    v.map_values(|s: String| s@)
}

impl View for GamePath {
    type V = Seq<Seq<char>>;

    open spec fn view(&self) -> Seq<Seq<char>> {
        strings_view(self.segments@)
    }
}

/// A copy of a list of strings.
pub fn clone_strings(v: &Vec<String>) -> (r: Vec<String>)
    ensures
        strings_view(r@) == strings_view(v@),
        r@ == v@,
{
    let mut r: Vec<String> = Vec::new();
    let mut i: usize = 0;
    while i < v.len()
        invariant
            i <= v.len(),
            r@ == v@.take(i as int),
        decreases v.len() - i,
    {
        r.push(v[i].clone());
        i = i + 1;
        assert(v@.take(i as int) == v@.take(i - 1).push(v@[i - 1]));
    }
    assert(v@.take(v.len() as int) == v@);
    r
}

impl GamePath {
    /// A location that is just `root`.
    pub fn from_root(root: &str) -> (p: GamePath)
        ensures
            p@ == seq![root@],
    {
        let mut segments: Vec<String> = Vec::new();
        segments.push(root.to_string());
        proof {
            vstd::string::to_string_from_display_ensures_for_str(root, segments@[0]);
            assert(strings_view(segments@) =~= seq![root@]);
        }
        GamePath { segments }
    }

    /// `self` with `part` joined onto it.
    pub fn join(&self, part: &str) -> (p: GamePath)
        ensures
            p@ == self@.push(part@),
    {
        let mut segments = clone_strings(&self.segments);
        let piece = part.to_string();
        proof {
            vstd::string::to_string_from_display_ensures_for_str(part, piece);
        }
        segments.push(piece);
        proof {
            assert(strings_view(segments@) =~= self@.push(part@));
        }
        GamePath { segments }
    }

    /// `self` with the characters of `part` joined onto it.
    pub fn join_chars(&self, part: &Vec<char>) -> (p: GamePath)
        ensures
            p@ == self@.push(part@),
    {
        let s = string_from_chars(part);
        self.join(s.as_str())
    }

    /// A copy of `self`.
    pub fn duplicate(&self) -> (p: GamePath)
        ensures
            p@ == self@,
    {
        GamePath { segments: clone_strings(&self.segments) }
    }
}

/// Where mods are installed: `root/instances/default/mods`.
pub fn mods_dir(root: &GamePath) -> (p: GamePath)
    ensures
        p@ == root@ + seq!["instances"@, "default"@, "mods"@],
{
    root.join("instances").join("default").join("mods")
}

/// The game directory of the default instance: `root/instances/default`.
pub fn game_dir(root: &GamePath) -> (p: GamePath)
    ensures
        p@ == root@ + seq!["instances"@, "default"@],
{
    root.join("instances").join("default")
}

/// The Java launcher inside a Java home: `home/bin/java.exe`.
pub fn java_home_bin(home: &GamePath) -> (p: GamePath)
    ensures
        p@ == home@ + seq!["bin"@, "java.exe"@],
{
    home.join("bin").join("java.exe")
}

/// The two files whose presence makes a directory a usable Java home:
/// `home/bin/java.exe` and `home/lib/jvm.cfg`.
pub fn java_home_markers(home: &GamePath) -> (r: (GamePath, GamePath))
    ensures
        r.0@ == home@ + seq!["bin"@, "java.exe"@],
        r.1@ == home@ + seq!["lib"@, "jvm.cfg"@],
{
    (java_home_bin(home), home.join("lib").join("jvm.cfg"))
}

/// Where a Java major version is installed: `launcher/java/<major>`.
pub fn java_dir(launcher: &GamePath, major: u32) -> (p: GamePath)
    ensures
        p@ == launcher@ + seq!["java"@, decimal(major as nat)],
{
    let mut digits: Vec<char> = Vec::new();
    push_decimal(&mut digits, major as u64);
    launcher.join("java").join_chars(&digits)
}

/// The characters of `a` followed by those of `b`.
pub fn cat(a: &str, b: &str) -> (r: Vec<char>)
    ensures
        r@ == a@ + b@,
{
    let mut r = chars_of(a);
    push_str(&mut r, b);
    r
}

/// The characters of `a`, `b` and `c` in turn.
pub fn cat3(a: &str, b: &str, c: &str) -> (r: Vec<char>)
    ensures
        r@ == a@ + b@ + c@,
{
    let mut r = cat(a, b);
    push_str(&mut r, c);
    r
}

/// The record of the client pack applied to a version:
/// `root/.cache/applied-pack-<version>.sha256`.
pub fn client_pack_stamp_path(root: &GamePath, version: &str) -> (p: GamePath)
    ensures
        p@ == root@ + seq![".cache"@, "applied-pack-"@ + version@ + ".sha256"@],
{
    root.join(".cache").join_chars(&cat3("applied-pack-", version, ".sha256"))
}

/// Where a client pack archive is downloaded: `root/.cache/client-<version>.zip`.
pub fn client_pack_zip_path(root: &GamePath, version: &str) -> (p: GamePath)
    ensures
        p@ == root@ + seq![".cache"@, "client-"@ + version@ + ".zip"@],
{
    root.join(".cache").join_chars(&cat3("client-", version, ".zip"))
}

/// The directory of a version: `root/versions/<version>`.
pub fn version_dir(root: &GamePath, version: &str) -> (p: GamePath)
    ensures
        p@ == root@ + seq!["versions"@, version@],
{
    root.join("versions").join(version)
}

/// The client jar of a version: `root/versions/<version>/<version>.jar`.
pub fn version_jar_path(root: &GamePath, version: &str) -> (p: GamePath)
    ensures
        p@ == root@ + seq!["versions"@, version@, version@ + ".jar"@],
{
    version_dir(root, version).join_chars(&cat(version, ".jar"))
}

/// The description of a version: `root/versions/<version>/<version>.json`.
pub fn version_json_path(root: &GamePath, version: &str) -> (p: GamePath)
    ensures
        p@ == root@ + seq!["versions"@, version@, version@ + ".json"@],
{
    version_dir(root, version).join_chars(&cat(version, ".json"))
}

/// Where native libraries are unpacked: `root/natives`.
pub fn natives_dir(root: &GamePath) -> (p: GamePath)
    ensures
        p@ == root@ + seq!["natives"@],
{
    root.join("natives")
}

/// Where assets are kept: `root/assets`.
pub fn assets_dir(root: &GamePath) -> (p: GamePath)
    ensures
        p@ == root@ + seq!["assets"@],
{
    root.join("assets")
}

/// The asset index of a version: `root/assets/indexes/<id>.json`.
pub fn asset_index_path(root: &GamePath, id: &str) -> (p: GamePath)
    ensures
        p@ == root@ + seq!["assets"@, "indexes"@, id@ + ".json"@],
{
    assets_dir(root).join("indexes").join_chars(&cat(id, ".json"))
}

/// The profile file: `launcher/profile.json`.
pub fn profile_path(launcher: &GamePath) -> (p: GamePath)
    ensures
        p@ == launcher@ + seq!["profile.json"@],
{
    launcher.join("profile.json")
}

/// The cached bootstrap document: `launcher/bootstrap-cache.json`.
pub fn bootstrap_cache_path(launcher: &GamePath) -> (p: GamePath)
    ensures
        p@ == launcher@ + seq!["bootstrap-cache.json"@],
{
    launcher.join("bootstrap-cache.json")
}

/// The launcher's own log: `launcher/launcher.log`.
pub fn launcher_log_path(launcher: &GamePath) -> (p: GamePath)
    ensures
        p@ == launcher@ + seq!["launcher.log"@],
{
    launcher.join("launcher.log")
}

/// Where games live: the launcher's root itself.
pub fn game_root(launcher: &GamePath) -> (p: GamePath)
    ensures
        p@ == launcher@,
{
    launcher.duplicate()
}

/// Where a game is installed unless the user chose otherwise: Minecraft in the
/// launcher's root, any other game in `launcher/games/<id>`.
pub open spec fn default_install_root(launcher: Seq<Seq<char>>, game_id: Seq<char>) -> Seq<
    Seq<char>,
> {
    if game_id == "minecraft"@ {
        launcher
    } else {
        launcher + seq!["games"@, game_id]
    }
}

/// Where a game is installed unless the user chose otherwise.
pub fn default_game_install_root(launcher: &GamePath, game_id: &str) -> (p: GamePath)
    ensures
        p@ == default_install_root(launcher@, game_id@),
{
    let id = chars_of(game_id);
    if chars_equal_str(&id, "minecraft") {
        return launcher.duplicate();
    }
    launcher.join("games").join(game_id)
}

/// The game's options file: `game_dir/options.txt`.
pub fn options_path(game_dir: &GamePath) -> (p: GamePath)
    ensures
        p@ == game_dir@ + seq!["options.txt"@],
{
    game_dir.join("options.txt")
}

/// The server to join on start-up is left here: `game_dir/chadow-connect.txt`.
pub fn pending_connect_path(game_dir: &GamePath) -> (p: GamePath)
    ensures
        p@ == game_dir@ + seq!["chadow-connect.txt"@],
{
    game_dir.join("chadow-connect.txt")
}

/// The game's own log: `root/minecraft-game.log`.
pub fn game_log_path(root: &GamePath) -> (p: GamePath)
    ensures
        p@ == root@ + seq!["minecraft-game.log"@],
{
    root.join("minecraft-game.log")
}

} // verus!
