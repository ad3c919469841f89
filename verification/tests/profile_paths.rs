use chadow_launcher::paths::GamePath;
use chadow_launcher::profile::{
    custom_install_dirs, game_install_path_info, game_install_root, set_game_install_path,
    Profile, TextMap,
};

fn segs(p: &GamePath) -> Vec<&str> {
    p.segments.iter().map(|x| x.as_str()).collect()
}

fn launcher() -> GamePath {
    GamePath::from_root("/data/ChadowGamesLauncher")
}

#[test]
fn text_map_reads_back_what_was_written() {
    let mut m = TextMap::new();
    assert_eq!(m.get("a"), None);
    m.insert("a", "1");
    m.insert("b", "2");
    assert_eq!(m.get("a"), Some("1".to_string()));
    m.insert("a", "3");
    assert_eq!(m.get("a"), Some("3".to_string()));
    assert_eq!(m.get("b"), Some("2".to_string()));
    assert_eq!(m.pairs().len(), 2);
    m.remove("a");
    assert_eq!(m.get("a"), None);
    assert_eq!(m.get("b"), Some("2".to_string()));
    m.remove("zzz");
    assert_eq!(m.pairs().len(), 1);
}

#[test]
fn default_profile() {
    let p = Profile::default();
    assert_eq!(p.nickname, "");
    assert_eq!(p.api_url, "https://chadow.ru/api/minecraft/bootstrap");
    assert!(p.game_install_paths.pairs().is_empty());
    assert!(p.selected_servers.pairs().is_empty());
}

#[test]
fn install_roots_follow_the_choice() {
    let mut p = Profile::default();
    assert_eq!(segs(&game_install_root(&p, &launcher(), "minecraft")), vec!["/data/ChadowGamesLauncher"]);
    assert_eq!(
        segs(&game_install_root(&p, &launcher(), "terraria")),
        vec!["/data/ChadowGamesLauncher", "games", "terraria"]
    );
    set_game_install_path(&mut p, "minecraft", Some("  D:\\Games\\MC  ".to_string()));
    assert_eq!(p.game_install_paths.get("minecraft"), Some("D:\\Games\\MC".to_string()));
    assert_eq!(segs(&game_install_root(&p, &launcher(), "minecraft")), vec!["D:\\Games\\MC"]);
    assert_eq!(
        segs(&game_install_root(&p, &launcher(), "terraria")),
        vec!["/data/ChadowGamesLauncher", "games", "terraria"]
    );
    set_game_install_path(&mut p, "minecraft", Some("   ".to_string()));
    assert_eq!(p.game_install_paths.get("minecraft"), None);
    assert_eq!(segs(&game_install_root(&p, &launcher(), "minecraft")), vec!["/data/ChadowGamesLauncher"]);
    set_game_install_path(&mut p, "minecraft", Some("E:\\MC".to_string()));
    set_game_install_path(&mut p, "minecraft", None);
    assert_eq!(segs(&game_install_root(&p, &launcher(), "minecraft")), vec!["/data/ChadowGamesLauncher"]);
}

#[test]
fn a_blank_stored_path_means_the_default() {
    let mut p = Profile::default();
    p.game_install_paths.insert("minecraft", "   ");
    assert_eq!(segs(&game_install_root(&p, &launcher(), "minecraft")), vec!["/data/ChadowGamesLauncher"]);
    let info = game_install_path_info(&p, &launcher(), "minecraft");
    assert!(!info.is_custom);
    assert_eq!(segs(&info.path), vec!["/data/ChadowGamesLauncher"]);
}

#[test]
fn path_info_shows_the_stored_choice() {
    let mut p = Profile::default();
    p.game_install_paths.insert("terraria", " T:\\x ");
    let info = game_install_path_info(&p, &launcher(), "terraria");
    assert_eq!(info.game_id, "terraria");
    assert!(info.is_custom);
    assert_eq!(segs(&info.path), vec![" T:\\x "]);
    assert_eq!(segs(&info.default_path), vec!["/data/ChadowGamesLauncher", "games", "terraria"]);
    let info = game_install_path_info(&p, &launcher(), "minecraft");
    assert!(!info.is_custom);
    assert_eq!(segs(&info.path), segs(&info.default_path));
}

#[test]
fn setting_one_game_leaves_others() {
    let mut p = Profile::default();
    set_game_install_path(&mut p, "terraria", Some("T".to_string()));
    set_game_install_path(&mut p, "minecraft", Some("M".to_string()));
    p.selected_servers.insert("minecraft", "main");
    set_game_install_path(&mut p, "minecraft", None);
    assert_eq!(segs(&game_install_root(&p, &launcher(), "terraria")), vec!["T"]);
    assert_eq!(p.selected_servers.get("minecraft"), Some("main".to_string()));
}

#[test]
fn custom_dirs_are_trimmed_and_non_blank() {
    let mut p = Profile::default();
    p.game_install_paths.insert("a", " X ");
    p.game_install_paths.insert("b", "  ");
    p.game_install_paths.insert("c", "Y");
    assert_eq!(custom_install_dirs(&p), vec!["X".to_string(), "Y".to_string()]);
}
