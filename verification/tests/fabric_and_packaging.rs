use chadow_launcher::client_zip::{pick_mod_jar, zip_entry_name};
use chadow_launcher::commands::{
    check_external_url, clear_data_gate, install_path_change_gate, launch_gate, relaunch_gate,
};
use chadow_launcher::fabric::{
    fabric_libraries_to_add, fabric_library_download, fabric_profile_url, has_mods,
    is_fabric_main_class, is_mod_jar, manifest_version_url, mod_copy_plan, vanilla_version,
    FabricLibrary, ManifestEntry,
};
use chadow_launcher::paths::GamePath;

fn strings(v: &[&str]) -> Vec<String> {
    v.iter().map(|s| s.to_string()).collect()
}

fn lib(name: &str, url: Option<&str>) -> FabricLibrary {
    FabricLibrary { name: name.to_string(), url: url.map(|u| u.to_string()) }
}

#[test]
fn mods_are_jar_files_in_any_case() {
    assert!(is_mod_jar("sodium-0.6.jar"));
    assert!(is_mod_jar("OptiFine.JAR"));
    assert!(!is_mod_jar("readme.txt"));
    assert!(!is_mod_jar(".jar"));
    assert!(!is_mod_jar("jar"));
    assert!(has_mods(&strings(&["notes.txt", "a.Jar"])));
    assert!(!has_mods(&strings(&["notes.txt", "config"])));
    assert!(!has_mods(&vec![]));
}

#[test]
fn mods_to_copy_skip_present_and_non_jars() {
    let names = strings(&["a.jar", "b.txt", "c.JAR", "d.jar"]);
    let present = vec![false, false, false, true];
    assert_eq!(mod_copy_plan(&names, &present), strings(&["a.jar", "c.JAR"]));
}

#[test]
fn fabric_profile_addresses() {
    assert!(is_fabric_main_class("net.fabricmc.loader.impl.launch.knot.KnotClient"));
    assert!(!is_fabric_main_class("net.minecraft.client.main.Main"));
    assert_eq!(
        fabric_profile_url("1.21.1", "0.18.2"),
        "https://meta.fabricmc.net/v2/versions/loader/1.21.1/0.18.2/profile/json"
    );
    assert_eq!(vanilla_version(Some("1.21"), "1.21.1"), "1.21");
    assert_eq!(vanilla_version(None, "1.21.1"), "1.21.1");
}

#[test]
fn fabric_libraries_are_added_once() {
    let vanilla = vec![Some("org.ow2.asm:asm:9.7".to_string()), None, Some("com.google.guava:guava:33".to_string())];
    let fabric = vec![
        lib("org.ow2.asm:asm:9.7", None),
        lib("net.fabricmc:fabric-loader:0.18.2", None),
        lib("net.fabricmc:intermediary:1.21.1", None),
        lib("net.fabricmc:fabric-loader:0.18.2", None),
    ];
    assert_eq!(fabric_libraries_to_add(&vanilla, &fabric), vec![1, 2]);
    assert!(fabric_libraries_to_add(&vanilla, &vec![]).is_empty());
}

#[test]
fn fabric_library_downloads() {
    let root = GamePath::from_root("R");
    let (path, url) = fabric_library_download(&root, &lib("net.fabricmc:fabric-loader:0.18.2", Some("https://maven.fabricmc.net/"))).unwrap();
    assert_eq!(path.segments, strings(&["R", "libraries", "net/fabricmc/fabric-loader/0.18.2/fabric-loader-0.18.2.jar"]));
    assert_eq!(url, "https://maven.fabricmc.net/net.fabricmc/fabric-loader/0.18.2/fabric-loader-0.18.2.jar");
    let (_, url) = fabric_library_download(&root, &lib("org.ow2.asm:asm:9.7", None)).unwrap();
    assert_eq!(url, "https://libraries.minecraft.net/org/ow2/asm/asm/9.7/asm-9.7.jar");
    let (_, url) = fabric_library_download(&root, &lib("g.h:a:1:c", Some("https://repo.example"))).unwrap();
    assert_eq!(url, "https://repo.example/g/h/a/1/a-1-c.jar");
    assert!(fabric_library_download(&root, &lib("bad:name", None)).is_none());
}

#[test]
fn manifest_lookup() {
    let entries = vec![
        ManifestEntry { id: Some("1.21.2".to_string()), url: Some("u2".to_string()) },
        ManifestEntry { id: None, url: Some("x".to_string()) },
        ManifestEntry { id: Some("1.21.1".to_string()), url: None },
        ManifestEntry { id: Some("1.21.1".to_string()), url: Some("later".to_string()) },
    ];
    assert_eq!(manifest_version_url(Some(&entries), "1.21.2"), Ok("u2".to_string()));
    assert_eq!(manifest_version_url(Some(&entries), "1.21.1"), Err("Нет URL версии Mojang".to_string()));
    assert_eq!(
        manifest_version_url(Some(&entries), "1.8"),
        Err("Версия 1.8 не найдена в манифесте Mojang".to_string())
    );
    assert_eq!(
        manifest_version_url(None, "1.8"),
        Err("Версия 1.8 не найдена в манифесте Mojang".to_string())
    );
}

#[test]
fn built_mod_is_the_greatest_name() {
    let names = strings(&[
        "chadow-games-client-1.0.0.jar",
        "chadow-games-client-1.2.0-sources.jar",
        "chadow-games-client-1.1.0.jar",
        "other.jar",
        "chadow-games-client-9.txt",
    ]);
    assert_eq!(pick_mod_jar(&names), Some(2));
    assert_eq!(pick_mod_jar(&strings(&["x.jar", "chadow-games-client-1.JAR"])), None);
    assert_eq!(pick_mod_jar(&vec![]), None);
}

#[test]
fn archive_entry_names_use_forward_slashes() {
    assert_eq!(zip_entry_name("versions\\1.21.11\\1.21.11.json"), "versions/1.21.11/1.21.11.json");
    assert_eq!(zip_entry_name("mods/a.jar"), "mods/a.jar");
}

#[test]
fn command_gates() {
    assert_eq!(launch_gate(false, "minecraft"), Err("Лаунчер отключён администратором".to_string()));
    assert_eq!(launch_gate(true, "terraria"), Err("Эта игра пока не поддерживается".to_string()));
    assert_eq!(launch_gate(true, "minecraft"), Ok(()));
    assert_eq!(install_path_change_gate(true), Err("Закройте игру перед сменой папки установки".to_string()));
    assert_eq!(install_path_change_gate(false), Ok(()));
    assert_eq!(clear_data_gate(true), Err("Закройте игру перед очисткой данных".to_string()));
    assert_eq!(clear_data_gate(false), Ok(()));
    assert_eq!(relaunch_gate(true), Err("Игра уже запущена".to_string()));
    assert_eq!(relaunch_gate(false), Ok(()));
}

#[test]
fn only_web_links_are_opened() {
    assert_eq!(check_external_url("https://chadow.ru"), Ok(()));
    assert_eq!(check_external_url("http://x"), Ok(()));
    assert_eq!(check_external_url("file:///etc/passwd"), Err("Разрешены только http(s) ссылки".to_string()));
    assert_eq!(check_external_url("HTTPS://x"), Err("Разрешены только http(s) ссылки".to_string()));
}
