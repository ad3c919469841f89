use chadow_launcher::install::{
    download_step, install_step, DownloadAction, DownloadEvent, InstallAction, InstallEvent, PackOutcome,
};
use chadow_launcher::install::{
    applied_pack_stamp, artifact_check, artifact_destination, asset_object, client_pack_applies,
    client_pack_needs_update, collect_classpath, corrupted_download_message, counted_label,
    download_sha1, file_check, http_failure_message, is_dll_entry, is_directory_entry,
    is_native_library, java_download_url, join_classpath, library_allowed, library_file_path,
    maven_library_path, maven_relative_path, native_jars, pack_layout, partial_download_action,
    pick_java_home, progress_in_range, progress_percent, response_action, sha1_verdict,
    sha256_verdict, total_expected, version_install_state, windows_classifiers, ClientPack,
    DownloadEntry, FileCheck, InstallState, JavaDirEntry, JavaHomeChoice, Library,
    LibraryDownloads, LibraryPresence, LibraryRule, LibraryRuleOs, PackLayout, PartialAction,
    ResponseAction,
};
use chadow_launcher::paths::GamePath;

fn segs(p: &GamePath) -> Vec<&str> {
    p.segments.iter().map(|x| x.as_str()).collect()
}

fn entry(url: &str, sha1: &str, path: Option<&str>) -> DownloadEntry {
    DownloadEntry { url: url.to_string(), sha1: sha1.to_string(), path: path.map(|p| p.to_string()) }
}

fn plain(name: &str) -> Library {
    Library { name: name.to_string(), downloads: None, rules: None }
}

fn with_artifact(name: &str, path: Option<&str>) -> Library {
    Library {
        name: name.to_string(),
        downloads: Some(LibraryDownloads { artifact: Some(entry("https://x/a.jar", "", path)), classifiers: None }),
        rules: None,
    }
}

fn rule(action: &str, os: Option<&str>) -> LibraryRule {
    LibraryRule { action: action.to_string(), os: os.map(|n| LibraryRuleOs { name: Some(n.to_string()) }) }
}

fn present() -> LibraryPresence {
    LibraryPresence { artifact: true, resolved: true }
}

fn pack(version: &str, url: &str, sha256: &str) -> ClientPack {
    ClientPack { version: version.to_string(), url: url.to_string(), sha256: sha256.to_string(), size: 0 }
}

#[test]
fn native_libraries_are_recognised_by_name() {
    assert!(is_native_library("org.lwjgl:lwjgl:3.3.3:natives-windows"));
    assert!(!is_native_library("org.lwjgl:lwjgl:3.3.3"));
}

#[test]
fn only_windows_natives_are_used() {
    assert!(library_allowed(&plain("org.lwjgl:lwjgl:3.3.3:natives-windows")));
    assert!(!library_allowed(&plain("org.lwjgl:lwjgl:3.3.3:natives-linux")));
    assert!(!library_allowed(&plain("org.lwjgl:lwjgl:3.3.3:natives-windows-arm64")));
}

#[test]
fn library_rules_last_matching_rule_wins() {
    assert!(library_allowed(&plain("a:b:1")));
    let mut lib = plain("a:b:1");
    lib.rules = Some(vec![]);
    assert!(!library_allowed(&lib));
    lib.rules = Some(vec![rule("allow", None)]);
    assert!(library_allowed(&lib));
    lib.rules = Some(vec![rule("allow", None), rule("disallow", Some("windows"))]);
    assert!(!library_allowed(&lib));
    lib.rules = Some(vec![rule("allow", None), rule("disallow", Some("osx"))]);
    assert!(library_allowed(&lib));
    lib.rules = Some(vec![rule("allow", Some("osx"))]);
    assert!(!library_allowed(&lib));
    lib.rules = Some(vec![LibraryRule { action: "allow".to_string(), os: Some(LibraryRuleOs { name: None }) }]);
    assert!(library_allowed(&lib));
}

#[test]
fn maven_paths() {
    let rel: String = maven_relative_path("org.lwjgl:lwjgl:3.3.3").unwrap().iter().collect();
    assert_eq!(rel, "org/lwjgl/lwjgl/3.3.3/lwjgl-3.3.3.jar");
    let rel: String = maven_relative_path("org.lwjgl:lwjgl:3.3.3:natives-windows").unwrap().iter().collect();
    assert_eq!(rel, "org/lwjgl/lwjgl/3.3.3/lwjgl-3.3.3-natives-windows.jar");
    let rel: String = maven_relative_path("g:a:1:x:y").unwrap().iter().collect();
    assert_eq!(rel, "g/a/1/a-1-x-y.jar");
    assert!(maven_relative_path("just:two").is_none());
    assert!(maven_relative_path("").is_none());
    let root = GamePath::from_root("R");
    let p = maven_library_path(&root, "net.fabricmc:fabric-loader:0.18.2").unwrap();
    assert_eq!(segs(&p), vec!["R", "libraries", "net/fabricmc/fabric-loader/0.18.2/fabric-loader-0.18.2.jar"]);
}

#[test]
fn artifact_locations() {
    let root = GamePath::from_root("R");
    assert_eq!(segs(&artifact_destination(&root, &entry("u", "", Some("a/b.jar")))), vec!["R", "libraries", "a/b.jar"]);
    assert_eq!(segs(&artifact_destination(&root, &entry("u", "", None))), vec!["R", "libraries", "unknown.jar"]);
}

#[test]
fn library_lookup_prefers_named_artifact_then_maven() {
    let root = GamePath::from_root("R");
    let lib = with_artifact("g:a:1", Some("g/a/1/a-1.jar"));
    assert_eq!(segs(&library_file_path(&root, &lib, false).unwrap()), vec!["R", "libraries", "g/a/1/a-1.jar"]);
    let lib = with_artifact("g:a:1", None);
    assert_eq!(segs(&library_file_path(&root, &lib, true).unwrap()), vec!["R", "libraries", "unknown.jar"]);
    assert_eq!(segs(&library_file_path(&root, &lib, false).unwrap()), vec!["R", "libraries", "g/a/1/a-1.jar"]);
    assert!(library_file_path(&root, &plain("bad"), false).is_none());
}

#[test]
fn classpath_puts_loader_first_and_client_jar_last() {
    let root = GamePath::from_root("R");
    let libs = vec![
        plain("com.example:first:1"),
        plain("org.lwjgl:lwjgl:3:natives-windows"),
        plain("net.fabricmc:fabric-loader:0.18.2"),
        plain("com.example:second:2"),
        plain("com.example:missing:3"),
    ];
    let pres = vec![
        present(),
        present(),
        present(),
        present(),
        LibraryPresence { artifact: false, resolved: false },
    ];
    let cp = collect_classpath(&root, "1.21.1", &libs, &pres);
    let rendered: Vec<String> = cp.iter().map(|p| p.segments.join("/")).collect();
    assert_eq!(
        rendered,
        vec![
            "R/libraries/net/fabricmc/fabric-loader/0.18.2/fabric-loader-0.18.2.jar",
            "R/libraries/com/example/first/1/first-1.jar",
            "R/libraries/com/example/second/2/second-2.jar",
            "R/versions/1.21.1/1.21.1.jar",
        ]
    );
}

#[test]
fn classpath_of_no_libraries_is_the_client_jar() {
    let root = GamePath::from_root("R");
    let cp = collect_classpath(&root, "1.8.9", &vec![], &vec![]);
    assert_eq!(cp.len(), 1);
    assert_eq!(segs(&cp[0]), vec!["R", "versions", "1.8.9", "1.8.9.jar"]);
}

#[test]
fn classpath_string_is_semicolon_separated() {
    assert_eq!(join_classpath(&vec!["a.jar".to_string(), "b.jar".to_string()]), "a.jar;b.jar");
    assert_eq!(join_classpath(&vec![]), "");
}

#[test]
fn client_pack_applicability() {
    assert!(client_pack_applies(&pack("1.21.1", "https://x/c.zip", ""), "1.21.1"));
    assert!(!client_pack_applies(&pack("1.21.1", "   ", ""), "1.21.1"));
    assert!(!client_pack_applies(&pack("1.20", "https://x/c.zip", ""), "1.21.1"));
}

#[test]
fn client_pack_update_decisions() {
    let p = pack("1.21.1", "https://x/c.zip", " ABCD ");
    assert!(client_pack_needs_update(&p, "1.21.1", None));
    assert!(!client_pack_needs_update(&p, "1.21.1", Some("abcd\n".to_string())));
    assert!(client_pack_needs_update(&p, "1.21.1", Some("ffff".to_string())));
    assert!(client_pack_needs_update(&p, "1.21.1", Some("   ".to_string())));
    assert!(!client_pack_needs_update(&p, "1.20", None));
    let no_digest = pack("1.21.1", "https://x/c.zip", "");
    assert!(client_pack_needs_update(&no_digest, "1.21.1", Some("abcd".to_string())));
}

#[test]
fn applied_stamp_is_normalised() {
    assert_eq!(applied_pack_stamp("  ABCDEF\n"), Some("abcdef".to_string()));
    assert_eq!(applied_pack_stamp("  "), None);
}

#[test]
fn progress_percentages() {
    assert_eq!(progress_percent(59, 82, 0, 10), 59);
    assert_eq!(progress_percent(59, 82, 5, 10), 70);
    assert_eq!(progress_percent(59, 82, 9, 10), 79);
    // the product saturates at 255 before the division
    assert_eq!(progress_percent(83, 99, 100, 200), 84);
    assert!(progress_in_range(59, 82, 5, 10));
    assert!(!progress_in_range(59, 82, 0, 256));
    assert!(progress_in_range(59, 82, 0, 1));
}

#[test]
fn progress_on_concrete_values_stays_in_span() {
    for total in 1usize..40 {
        for i in 0..total {
            assert!(progress_in_range(10, 40, i, total));
            let p = progress_percent(10, 40, i, total);
            assert!((10..=40).contains(&p));
        }
    }
}

#[test]
fn counted_labels() {
    assert_eq!(counted_label("Библиотеки", 3, 40), "Библиотеки (3/40)");
}

#[test]
fn file_checks() {
    assert!(matches!(file_check(false, 10, Some("aa"), None), FileCheck::Invalid));
    assert!(matches!(file_check(true, 0, None, None), FileCheck::Invalid));
    assert!(matches!(file_check(true, 5, None, None), FileCheck::Valid));
    assert!(matches!(file_check(true, 5, Some("  "), Some("")), FileCheck::Valid));
    assert!(matches!(file_check(true, 5, Some("aa"), Some("bb")), FileCheck::Sha256(ref s) if s == "bb"));
    assert!(matches!(file_check(true, 5, Some("aa"), Some(" ")), FileCheck::Sha1(ref s) if s == "aa"));
}

#[test]
fn artifact_checks() {
    assert!(matches!(artifact_check("abc", 0), FileCheck::Sha1(ref s) if s == "abc"));
    assert!(matches!(artifact_check("", 7), FileCheck::Valid));
    assert!(matches!(artifact_check("", 0), FileCheck::Invalid));
    assert_eq!(download_sha1(&entry("u", "", None)), None);
    assert_eq!(download_sha1(&entry("u", "ab12", None)), Some("ab12".to_string()));
}

#[test]
fn digest_verdicts() {
    assert_eq!(sha1_verdict("a9993e36", "A9993E36", "x.jar"), Ok(()));
    assert_eq!(sha1_verdict("a9993e36", "", "x.jar"), Ok(()));
    assert_eq!(sha1_verdict("a9993e36", "00", "x.jar"), Err("SHA1 не совпадает для x.jar".to_string()));
    assert_eq!(sha256_verdict("ff", "00"), Err("Контрольная сумма архива не совпадает".to_string()));
    assert_eq!(sha256_verdict("ff", " FF "), Ok(()));
}

#[test]
fn partial_downloads() {
    assert!(matches!(partial_download_action(false, 10, Some(5), true), PartialAction::Keep));
    assert!(matches!(partial_download_action(true, 0, Some(5), true), PartialAction::Keep));
    assert!(matches!(partial_download_action(true, 10, Some(5), false), PartialAction::Discard));
    assert!(matches!(partial_download_action(true, 5, Some(5), false), PartialAction::DiscardIfInvalid));
    assert!(matches!(partial_download_action(true, 4, Some(5), true), PartialAction::Keep));
    assert!(matches!(partial_download_action(true, 4, None, true), PartialAction::DiscardIfInvalid));
    assert!(matches!(partial_download_action(true, 4, None, false), PartialAction::Keep));
}

#[test]
fn responses() {
    assert!(matches!(response_action(10, 200), ResponseAction::Restart));
    assert!(matches!(response_action(0, 200), ResponseAction::Write));
    assert!(matches!(response_action(10, 206), ResponseAction::Write));
    assert!(matches!(response_action(0, 404), ResponseAction::Reject));
    assert!(matches!(response_action(10, 416), ResponseAction::Reject));
}

#[test]
fn expected_totals() {
    assert_eq!(total_expected(0, Some(100), 40), Some(100));
    assert_eq!(total_expected(0, None, 40), Some(40));
    assert_eq!(total_expected(0, None, 0), None);
    assert_eq!(total_expected(60, None, 40), Some(100));
    assert_eq!(total_expected(60, Some(90), 40), Some(90));
}

#[test]
fn messages() {
    assert_eq!(http_failure_message("404 Not Found", "https://x/y"), "HTTP 404 Not Found для https://x/y");
    assert_eq!(corrupted_download_message("a.jar"), "Файл повреждён после загрузки: a.jar");
    assert_eq!(
        java_download_url(21),
        "https://api.adoptium.net/v3/binary/latest/21/ga/windows/x64/jdk/hotspot/normal/eclipse?project=jdk"
    );
}

#[test]
fn asset_objects() {
    let root = GamePath::from_root("R");
    let (path, url) = asset_object(&root, "ab12cd").unwrap();
    assert_eq!(segs(&path), vec!["R", "assets", "objects", "ab", "ab12cd"]);
    assert_eq!(url, "https://resources.download.minecraft.net/ab/ab12cd");
    assert!(asset_object(&root, "a").is_none());
}

#[test]
fn install_states() {
    let root = GamePath::from_root("R");
    let libs = vec![plain("g:a:1"), plain("g:b:2"), plain("g:c:3:natives-linux")];
    let ok = vec![present(), present(), LibraryPresence { artifact: false, resolved: false }];
    assert!(matches!(version_install_state(&root, false, 5000, &libs, &ok, true), InstallState::MissingJar));
    assert!(matches!(version_install_state(&root, true, 1023, &libs, &ok, true), InstallState::MissingJar));
    assert!(matches!(version_install_state(&root, true, 1024, &libs, &ok, true), InstallState::Installed));
    assert!(matches!(version_install_state(&root, true, 1024, &libs, &ok, false), InstallState::MissingIndex));
    let missing = vec![present(), LibraryPresence { artifact: false, resolved: false }, present()];
    assert!(matches!(
        version_install_state(&root, true, 4096, &libs, &missing, true),
        InstallState::MissingLibrary(ref n) if n == "g:b:2"
    ));
}

#[test]
fn windows_native_classifiers() {
    let lib = Library {
        name: "org.lwjgl:lwjgl:2.9".to_string(),
        downloads: Some(LibraryDownloads {
            artifact: None,
            classifiers: Some(vec![
                ("natives-windows-x64".to_string(), entry("u64", "", Some("w64.jar"))),
                ("natives-linux".to_string(), entry("ul", "", Some("l.jar"))),
                ("natives-windows".to_string(), entry("uw", "", Some("w.jar"))),
            ]),
        }),
        rules: None,
    };
    let found = windows_classifiers(&lib);
    let urls: Vec<&str> = found.iter().map(|e| e.url.as_str()).collect();
    assert_eq!(urls, vec!["uw", "u64"]);
    let root = GamePath::from_root("R");
    let jars: Vec<String> = native_jars(&root, &lib).iter().map(|p| p.segments.join("/")).collect();
    assert_eq!(jars, vec!["R/libraries/w.jar", "R/libraries/w64.jar"]);
    let native = with_artifact("org.lwjgl:lwjgl:3:natives-windows", Some("n.jar"));
    let jars: Vec<String> = native_jars(&root, &native).iter().map(|p| p.segments.join("/")).collect();
    assert_eq!(jars, vec!["R/libraries/n.jar"]);
    assert!(native_jars(&root, &plain("org.lwjgl:lwjgl:3:natives-linux")).is_empty());
}

#[test]
fn java_home_choice() {
    assert!(matches!(pick_java_home(true, None), JavaHomeChoice::Folder));
    assert!(matches!(pick_java_home(false, None), JavaHomeChoice::Missing));
    let entries = vec![
        JavaDirEntry { is_dir: Some(false), valid: true },
        JavaDirEntry { is_dir: Some(true), valid: false },
        JavaDirEntry { is_dir: Some(true), valid: true },
    ];
    assert!(matches!(pick_java_home(false, Some(&entries)), JavaHomeChoice::Entry(2)));
    let unreadable = vec![JavaDirEntry { is_dir: None, valid: true }, JavaDirEntry { is_dir: Some(true), valid: true }];
    assert!(matches!(pick_java_home(false, Some(&unreadable)), JavaHomeChoice::Missing));
}

#[test]
fn pack_layouts() {
    assert!(matches!(pack_layout(false, true, false), PackLayout::Overlay));
    assert!(matches!(pack_layout(false, false, false), PackLayout::Broken(ref m) if m == "В архиве нет version.json"));
    assert!(matches!(pack_layout(true, false, false), PackLayout::Broken(ref m) if m == "Архив распакован не полностью"));
    assert!(matches!(pack_layout(true, false, true), PackLayout::Full));
}

#[test]
fn archive_entry_kinds() {
    assert!(is_directory_entry("mods/"));
    assert!(!is_directory_entry("mods/a.jar"));
    assert!(is_dll_entry("windows/x64/lwjgl.dll"));
    assert!(!is_dll_entry("lwjgl.so"));
}

#[test]
fn progress_never_decreases_on_concrete_values() {
    for total in 1usize..60 {
        let mut last = 0u8;
        for i in 0..total {
            let p = progress_percent(83, 99, i, total);
            assert!(p >= last);
            last = p;
        }
    }
}

#[test]
fn install_steps() {
    let keep = install_step(&InstallEvent::Examined { existing: Some((true, false)), pack_applies: true, has_mods: true });
    assert!(matches!(keep, InstallAction::Finish { prepare_fabric: true }));
    let update = install_step(&InstallEvent::Examined { existing: Some((true, true)), pack_applies: true, has_mods: false });
    assert!(matches!(update, InstallAction::TryPack));
    let incomplete = install_step(&InstallEvent::Examined { existing: Some((false, false)), pack_applies: false, has_mods: false });
    assert!(matches!(incomplete, InstallAction::FromMojang { after_pack_failure: false }));
    let fresh = install_step(&InstallEvent::Examined { existing: None, pack_applies: true, has_mods: false });
    assert!(matches!(fresh, InstallAction::TryPack));
    assert!(matches!(
        install_step(&InstallEvent::PackTried { outcome: PackOutcome::Full, has_mods: false }),
        InstallAction::Finish { prepare_fabric: false }
    ));
    assert!(matches!(
        install_step(&InstallEvent::PackTried { outcome: PackOutcome::Overlay, has_mods: true }),
        InstallAction::CheckOverlay
    ));
    assert!(matches!(
        install_step(&InstallEvent::PackTried { outcome: PackOutcome::Failed, has_mods: true }),
        InstallAction::FromMojang { after_pack_failure: true }
    ));
    assert!(matches!(
        install_step(&InstallEvent::OverlayChecked { installed: true }),
        InstallAction::Finish { prepare_fabric: true }
    ));
    assert!(matches!(
        install_step(&InstallEvent::OverlayChecked { installed: false }),
        InstallAction::FromMojang { after_pack_failure: false }
    ));
    assert!(matches!(
        install_step(&InstallEvent::Downloaded { has_mods: true }),
        InstallAction::Finish { prepare_fabric: true }
    ));
}

#[test]
fn download_steps() {
    assert!(matches!(download_step(&DownloadEvent::Examined { valid: true }), DownloadAction::AlreadyDone));
    assert!(matches!(download_step(&DownloadEvent::Examined { valid: false }), DownloadAction::Fetch));
    assert!(matches!(
        download_step(&DownloadEvent::Written { valid: true, file_name: "a.jar".to_string() }),
        DownloadAction::Finished
    ));
    assert!(matches!(
        download_step(&DownloadEvent::Written { valid: false, file_name: "a.jar".to_string() }),
        DownloadAction::DiscardAndFail(ref m) if m == "Файл повреждён после загрузки: a.jar"
    ));
}

#[test]
fn an_applied_pack_is_not_due_again() {
    let p = pack("1.21.1", "https://x/c.zip", " ABCDEF ");
    let stamp = applied_pack_stamp(&p.sha256).unwrap();
    assert!(!client_pack_needs_update(&p, "1.21.1", Some(stamp)));
    let blank = pack("1.21.1", "https://x/c.zip", "  ");
    assert_eq!(applied_pack_stamp(&blank.sha256), None);
    assert!(client_pack_needs_update(&blank, "1.21.1", None));
}

#[test]
fn every_present_library_is_on_the_classpath() {
    let root = GamePath::from_root("R");
    let libs = vec![plain("a:b:1"), plain("net.fabricmc:fabric-loader:1"), plain("c:d:2"), plain("e:f:3:natives-windows")];
    let pres = vec![present(), present(), present(), present()];
    let cp: Vec<String> = collect_classpath(&root, "v", &libs, &pres).iter().map(|p| p.segments.join("/")).collect();
    for lib in ["a:b:1", "net.fabricmc:fabric-loader:1", "c:d:2"] {
        let p = library_file_path(&root, &plain(lib), true).unwrap().segments.join("/");
        assert!(cp.contains(&p));
    }
}
