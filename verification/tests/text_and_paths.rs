use chadow_launcher::paths::{
    asset_index_path, bootstrap_cache_path, client_pack_stamp_path, client_pack_zip_path,
    default_game_install_root, game_dir, game_log_path, game_root, java_dir, java_home_bin,
    java_home_markers, mods_dir, natives_dir, options_path, pending_connect_path, profile_path,
    version_jar_path, version_json_path, GamePath,
};
use chadow_launcher::text::{
    chars_of, contains_str, ends_with_str, eq_ignore_ascii_case_chars, file_extension,
    join_chars, push_decimal, push_signed_decimal, replace_chars, split_chars, starts_with_str,
    trim_chars, trim_end_char_chars, trimmed,
};

fn s(v: &[char]) -> String {
    v.iter().collect()
}

fn segs(p: &GamePath) -> Vec<&str> {
    p.segments.iter().map(|x| x.as_str()).collect()
}

#[test]
fn trim_removes_unicode_white_space() {
    assert_eq!(s(&trimmed("  hello \t\n")), "hello");
    assert_eq!(s(&trimmed("\u{3000}x y\u{a0}")), "x y");
    assert_eq!(s(&trimmed("   ")), "");
    assert_eq!(s(&trim_chars(&chars_of("abc"))), "abc");
}

#[test]
fn trim_end_slashes() {
    assert_eq!(s(&trim_end_char_chars(&chars_of("https://x/api///"), '/')), "https://x/api");
    assert_eq!(s(&trim_end_char_chars(&chars_of("///"), '/')), "");
}

#[test]
fn prefix_suffix_and_contains() {
    let v = chars_of("lwjgl:natives-windows");
    assert!(starts_with_str(&v, "lwjgl"));
    assert!(ends_with_str(&v, ":natives-windows"));
    assert!(contains_str(&v, ":natives-"));
    assert!(!contains_str(&v, "linux"));
    assert!(contains_str(&v, ""));
}

#[test]
fn replace_is_left_to_right_and_non_overlapping() {
    let r = replace_chars(&chars_of("aaaa"), &chars_of("aa"), &chars_of("b"));
    assert_eq!(s(&r), "bb");
    let r = replace_chars(&chars_of("org.lwjgl.lwjgl"), &chars_of("."), &chars_of("/"));
    assert_eq!(s(&r), "org/lwjgl/lwjgl");
}

#[test]
fn split_keeps_empty_pieces() {
    let parts = split_chars(&chars_of("a::b:"), ':');
    let texts: Vec<String> = parts.iter().map(|p| s(p)).collect();
    assert_eq!(texts, vec!["a", "", "b", ""]);
    let one = split_chars(&chars_of(""), ':');
    assert_eq!(one.len(), 1);
    let joined = join_chars(&parts, &chars_of("-"));
    assert_eq!(s(&joined), "a--b-");
}

#[test]
fn decimals() {
    let mut v = Vec::new();
    push_decimal(&mut v, 0);
    assert_eq!(s(&v), "0");
    let mut v = Vec::new();
    push_decimal(&mut v, 1234567890123);
    assert_eq!(s(&v), "1234567890123");
    let mut v = Vec::new();
    push_signed_decimal(&mut v, -1);
    assert_eq!(s(&v), "-1");
    let mut v = Vec::new();
    push_signed_decimal(&mut v, i32::MIN);
    assert_eq!(s(&v), "-2147483648");
}

#[test]
fn extensions_follow_path_rules() {
    assert_eq!(file_extension(&chars_of("mod.jar")).map(|e| s(&e)), Some("jar".to_string()));
    assert_eq!(file_extension(&chars_of("a.b.JAR")).map(|e| s(&e)), Some("JAR".to_string()));
    assert_eq!(file_extension(&chars_of(".jar")), None);
    assert_eq!(file_extension(&chars_of("README")), None);
    assert_eq!(file_extension(&chars_of("name.")).map(|e| s(&e)), Some(String::new()));
}

#[test]
fn ascii_case_insensitive_equality() {
    assert!(eq_ignore_ascii_case_chars(&chars_of("JaVa.EXE"), &chars_of("java.exe")));
    assert!(!eq_ignore_ascii_case_chars(&chars_of("java.ex"), &chars_of("java.exe")));
}

#[test]
fn path_layout() {
    let root = GamePath::from_root("C:\\Games");
    assert_eq!(segs(&mods_dir(&root)), vec!["C:\\Games", "instances", "default", "mods"]);
    assert_eq!(segs(&game_dir(&root)), vec!["C:\\Games", "instances", "default"]);
    assert_eq!(segs(&natives_dir(&root)), vec!["C:\\Games", "natives"]);
    assert_eq!(segs(&version_jar_path(&root, "1.21.1")), vec!["C:\\Games", "versions", "1.21.1", "1.21.1.jar"]);
    assert_eq!(segs(&version_json_path(&root, "1.21.1")), vec!["C:\\Games", "versions", "1.21.1", "1.21.1.json"]);
    assert_eq!(segs(&asset_index_path(&root, "17")), vec!["C:\\Games", "assets", "indexes", "17.json"]);
    assert_eq!(segs(&client_pack_stamp_path(&root, "1.21.1")), vec!["C:\\Games", ".cache", "applied-pack-1.21.1.sha256"]);
    assert_eq!(segs(&client_pack_zip_path(&root, "1.21.1")), vec!["C:\\Games", ".cache", "client-1.21.1.zip"]);
    assert_eq!(segs(&java_dir(&root, 21)), vec!["C:\\Games", "java", "21"]);
    assert_eq!(segs(&java_home_bin(&root)), vec!["C:\\Games", "bin", "java.exe"]);
    let (exe, cfg) = java_home_markers(&root);
    assert_eq!(segs(&exe), vec!["C:\\Games", "bin", "java.exe"]);
    assert_eq!(segs(&cfg), vec!["C:\\Games", "lib", "jvm.cfg"]);
    assert_eq!(segs(&profile_path(&root)), vec!["C:\\Games", "profile.json"]);
    assert_eq!(segs(&bootstrap_cache_path(&root)), vec!["C:\\Games", "bootstrap-cache.json"]);
    assert_eq!(segs(&game_root(&root)), vec!["C:\\Games"]);
    let gd = game_dir(&root);
    assert_eq!(segs(&options_path(&gd)).last(), Some(&"options.txt"));
    assert_eq!(segs(&pending_connect_path(&gd)).last(), Some(&"chadow-connect.txt"));
    assert_eq!(segs(&game_log_path(&root)), vec!["C:\\Games", "minecraft-game.log"]);
}

#[test]
fn default_install_roots() {
    let launcher = GamePath::from_root("/data/ChadowGamesLauncher");
    assert_eq!(segs(&default_game_install_root(&launcher, "minecraft")), vec!["/data/ChadowGamesLauncher"]);
    assert_eq!(segs(&default_game_install_root(&launcher, "terraria")), vec!["/data/ChadowGamesLauncher", "games", "terraria"]);
}

#[test]
fn trimming_twice_is_trimming_once() {
    for text in ["  a b  ", "\t\n", "x", "", "\u{2003}y\u{2003}"] {
        let once = trimmed(text);
        let again = trim_chars(&once);
        assert_eq!(once, again);
    }
}
