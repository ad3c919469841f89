use chadow_launcher::launch::{
    collect_arg_values, early_exit_message, filter_optional_game_args, flag_requires_value,
    format_quick_play_server, fullscreen_options, is_unresolved, java_arguments, java_gui_exe, java_home_of,
    launch_features, launch_vars, legacy_game_args, legacy_jvm_args, lines_of, log_excerpt,
    merge_jvm_args, offline_uuid, pick_launch_server, prepend_native_jvm_props, push_resolved,
    resolve_args, resolve_connect, rule_matches, set_game_option, substitute, ArgEntry, ArgRule,
    ArgRuleOs, ArgValue, BootstrapServers, GameEntry, LaunchContext, ServerEntry,
    VersionArguments, DEFAULT_SERVER_PORT,
};
use chadow_launcher::paths::GamePath;

fn strings(v: &[&str]) -> Vec<String> {
    v.iter().map(|s| s.to_string()).collect()
}

fn server(id: Option<&str>, host: &str, port: Option<u16>) -> ServerEntry {
    ServerEntry {
        id: id.map(|s| s.to_string()),
        host: host.to_string(),
        port,
        connect_host: None,
        connect_port: None,
    }
}

fn vars(pairs: &[(&str, &str)]) -> Vec<(String, String)> {
    pairs.iter().map(|(k, v)| (k.to_string(), v.to_string())).collect()
}

fn features(custom: bool) -> Vec<(String, bool)> {
    launch_features(custom)
}

fn ctx(window: Option<(u32, u32)>) -> LaunchContext {
    LaunchContext {
        natives: "R/natives".to_string(),
        classpath: "a.jar;b.jar".to_string(),
        username: "Steve".to_string(),
        version: "1.21.1".to_string(),
        game_dir: "R/instances/default".to_string(),
        assets_dir: "R/assets".to_string(),
        asset_index: "17".to_string(),
        uuid: "u-u-i-d".to_string(),
        window,
    }
}

#[test]
fn connect_target_prefers_connect_host_and_port() {
    let mut s = server(None, "  play.example.net ", Some(25570));
    assert_eq!(resolve_connect(&s), Some(("play.example.net".to_string(), 25570)));
    s.connect_host = Some(" 10.0.0.5 ".to_string());
    s.connect_port = Some(30000);
    assert_eq!(resolve_connect(&s), Some(("10.0.0.5".to_string(), 30000)));
    s.connect_host = Some("   ".to_string());
    assert_eq!(resolve_connect(&s), Some(("play.example.net".to_string(), 30000)));
    let blank = server(None, "  ", None);
    assert_eq!(resolve_connect(&blank), None);
    let default_port = server(None, "h", None);
    assert_eq!(resolve_connect(&default_port), Some(("h".to_string(), DEFAULT_SERVER_PORT)));
    assert_eq!(DEFAULT_SERVER_PORT, 25565);
}

#[test]
fn launch_server_from_game_entry() {
    let b = BootstrapServers {
        games: Some(vec![
            None,
            Some(GameEntry { id: Some("terraria".to_string()), servers: vec![server(None, "t", None)] }),
            Some(GameEntry {
                id: None,
                servers: vec![server(Some("main"), " ", None), server(Some("alt"), "alt.host", Some(1)), server(Some("main"), "main.host", None)],
            }),
        ]),
        servers: Some(vec![Some(server(None, "top", None))]),
    };
    assert_eq!(pick_launch_server(&b, "minecraft", Some(" main ")), Some(("main.host".to_string(), 25565)));
    assert_eq!(pick_launch_server(&b, "minecraft", None), Some(("alt.host".to_string(), 1)));
    assert_eq!(pick_launch_server(&b, "minecraft", Some("nope")), Some(("alt.host".to_string(), 1)));
    assert_eq!(pick_launch_server(&b, "minecraft", Some("  ")), Some(("alt.host".to_string(), 1)));
    assert_eq!(pick_launch_server(&b, "terraria", None), Some(("t".to_string(), 25565)));
    assert_eq!(pick_launch_server(&b, "other", None), Some(("top".to_string(), 25565)));
}

#[test]
fn launch_server_falls_back_to_top_level_list() {
    let b = BootstrapServers {
        games: Some(vec![Some(GameEntry { id: Some("minecraft".to_string()), servers: vec![] })]),
        servers: Some(vec![None, Some(server(Some("x"), "first", Some(2))), Some(server(Some("y"), "second", None))]),
    };
    assert_eq!(pick_launch_server(&b, "minecraft", Some("y")), Some(("second".to_string(), 25565)));
    assert_eq!(pick_launch_server(&b, "minecraft", None), Some(("first".to_string(), 2)));
    let empty = BootstrapServers { games: None, servers: None };
    assert_eq!(pick_launch_server(&empty, "minecraft", None), None);
}

#[test]
fn quick_play_address() {
    assert_eq!(format_quick_play_server("mc.example.org", 25565), "mc.example.org:25565");
    assert_eq!(format_quick_play_server("h", 0), "h:0");
}

#[test]
fn argument_rules() {
    let f = features(true);
    assert!(rule_matches(&vec![], &f));
    let allow_win = ArgRule {
        action: "allow".to_string(),
        os: Some(ArgRuleOs { name: Some("windows".to_string()), arch: None }),
        features: None,
    };
    assert!(rule_matches(&vec![allow_win], &f));
    let allow_osx = ArgRule {
        action: "allow".to_string(),
        os: Some(ArgRuleOs { name: Some("osx".to_string()), arch: None }),
        features: None,
    };
    assert!(!rule_matches(&vec![allow_osx], &f));
    let arm = ArgRule {
        action: "allow".to_string(),
        os: Some(ArgRuleOs { name: None, arch: Some("arm64".to_string()) }),
        features: None,
    };
    assert!(!rule_matches(&vec![arm], &f));
    let x86 = ArgRule {
        action: "allow".to_string(),
        os: Some(ArgRuleOs { name: None, arch: Some("x86".to_string()) }),
        features: None,
    };
    assert!(rule_matches(&vec![x86], &f));
    let custom_res = ArgRule {
        action: "allow".to_string(),
        os: None,
        features: Some(vec![("has_custom_resolution".to_string(), Some(true))]),
    };
    assert!(rule_matches(&vec![custom_res], &features(true)));
    let custom_res = ArgRule {
        action: "allow".to_string(),
        os: None,
        features: Some(vec![("has_custom_resolution".to_string(), Some(true))]),
    };
    assert!(!rule_matches(&vec![custom_res], &features(false)));
    let demo = ArgRule {
        action: "allow".to_string(),
        os: None,
        features: Some(vec![("is_demo_user".to_string(), Some(true))]),
    };
    assert!(!rule_matches(&vec![demo], &f));
    let unknown_non_bool = ArgRule {
        action: "allow".to_string(),
        os: None,
        features: Some(vec![("something_else".to_string(), None)]),
    };
    assert!(rule_matches(&vec![unknown_non_bool], &f));
    let allow_all = ArgRule { action: "allow".to_string(), os: None, features: None };
    let deny_win = ArgRule {
        action: "disallow".to_string(),
        os: Some(ArgRuleOs { name: Some("windows".to_string()), arch: None }),
        features: None,
    };
    assert!(!rule_matches(&vec![allow_all, deny_win], &f));
}

#[test]
fn placeholders_are_filled_in_order() {
    let v = vars(&[("auth_player_name", "Steve"), ("version_name", "1.21.1")]);
    assert_eq!(substitute("--name ${auth_player_name} v${version_name}", &v), "--name Steve v1.21.1");
    assert_eq!(substitute("${missing}", &v), "${missing}");
    assert_eq!(substitute("plain", &v), "plain");
    // a value that holds a later placeholder is filled too
    let chained = vars(&[("a", "${b}"), ("b", "x")]);
    assert_eq!(substitute("${a}", &chained), "x");
    assert!(is_unresolved("${x}"));
    assert!(!is_unresolved("$x}"));
}

#[test]
fn resolved_values_skip_empty_and_unresolved() {
    let v = vars(&[("clientid", ""), ("user", "Alex")]);
    let mut out = vec!["keep".to_string()];
    push_resolved(&mut out, "${clientid}", &v);
    push_resolved(&mut out, "${unknown}", &v);
    push_resolved(&mut out, "--user=${user}", &v);
    assert_eq!(out, strings(&["keep", "--user=Alex"]));
}

#[test]
fn conditional_entries() {
    let v = vars(&[("w", "854")]);
    let f = features(true);
    let entry = ArgEntry::Conditional {
        rules: vec![ArgRule {
            action: "allow".to_string(),
            os: None,
            features: Some(vec![("has_custom_resolution".to_string(), Some(true))]),
        }],
        value: ArgValue::List(vec![Some("--width".to_string()), None, Some("${w}".to_string())]),
    };
    let mut out = Vec::new();
    collect_arg_values(&entry, &v, &f, &mut out);
    assert_eq!(out, strings(&["--width", "854"]));
    let mut out = Vec::new();
    collect_arg_values(&entry, &v, &features(false), &mut out);
    assert!(out.is_empty());
    let mut out = Vec::new();
    collect_arg_values(&ArgEntry::Other, &v, &f, &mut out);
    assert!(out.is_empty());
    let entries = vec![ArgEntry::Text("--demo".to_string()), ArgEntry::Text("${w}".to_string())];
    assert_eq!(resolve_args(Some(&entries), &v, &f), strings(&["--demo", "854"]));
    assert!(resolve_args(None, &v, &f).is_empty());
}

#[test]
fn optional_game_args_are_dropped_when_incomplete() {
    let args = strings(&["--username", "Steve", "--quickPlayPath", "", "--demo", "--width", "--height", "${h}", "x", "--last"]);
    assert_eq!(filter_optional_game_args(args), strings(&["--username", "Steve", "--demo", "x"]));
    assert!(flag_requires_value("--width"));
    assert!(!flag_requires_value("--demo"));
}

#[test]
fn legacy_jvm_arguments() {
    assert_eq!(
        legacy_jvm_args("N", "cp"),
        strings(&[
            "-Djava.library.path=N",
            "-Djna.tmpdir=N",
            "-Dorg.lwjgl.system.SharedLibraryExtractPath=N",
            "-Dio.netty.native.workdir=N",
            "-Dminecraft.launcher.brand=chadow-games-launcher",
            "-Dminecraft.launcher.version=3.2.2",
            "-cp",
            "cp",
        ])
    );
}

#[test]
fn native_props_are_prepended_once() {
    let mut args = strings(&["-Djna.tmpdir=N", "-cp", "x"]);
    prepend_native_jvm_props(&mut args, "N");
    assert_eq!(
        args,
        strings(&[
            "-Djava.library.path=N",
            "-Dorg.lwjgl.system.SharedLibraryExtractPath=N",
            "-Dio.netty.native.workdir=N",
            "-Djna.tmpdir=N",
            "-cp",
            "x",
        ])
    );
}

#[test]
fn jvm_args_merge() {
    let with_cp = merge_jvm_args("N", "cp", strings(&["-Xss1M", "--classpath", "y"]));
    assert_eq!(with_cp.len(), 7);
    assert_eq!(with_cp[0], "-Djava.library.path=N");
    assert_eq!(&with_cp[4..], &strings(&["-Xss1M", "--classpath", "y"])[..]);
    let without = merge_jvm_args("N", "cp", strings(&["-Xss1M"]));
    let mut expected = legacy_jvm_args("N", "cp");
    expected.push("-Xss1M".to_string());
    assert_eq!(without, expected);
}

#[test]
fn legacy_game_arguments() {
    let args = legacy_game_args("Steve", "1.8.9", "G", "A", "1.8", "id", Some((1280, 720)));
    assert_eq!(
        args,
        strings(&[
            "--username", "Steve", "--version", "1.8.9", "--gameDir", "G", "--assetsDir", "A",
            "--assetIndex", "1.8", "--uuid", "id", "--accessToken", "id", "--userType", "legacy",
            "--versionType", "release", "--width", "1280", "--height", "720",
        ])
    );
    assert_eq!(legacy_game_args("a", "b", "c", "d", "e", "f", None).len(), 18);
}

#[test]
fn options_file_lines() {
    assert_eq!(lines_of("a\r\nb\n\nc\r"), strings(&["a", "b", "", "c\r"]));
    assert_eq!(lines_of("x\n"), strings(&["x"]));
    assert!(lines_of("").is_empty());
    let mut lines = strings(&["version:3", "fullscreen:true", "fullscreen:x"]);
    set_game_option(&mut lines, "fullscreen", "false");
    assert_eq!(lines, strings(&["version:3", "fullscreen:false", "fullscreen:x"]));
    let mut lines = strings(&["version:3"]);
    set_game_option(&mut lines, "fullscreen", "true");
    assert_eq!(lines, strings(&["version:3", "fullscreen:true"]));
}

#[test]
fn fullscreen_option_text() {
    assert_eq!(fullscreen_options(None, true), "fullscreen:true");
    assert_eq!(fullscreen_options(Some("a:1\r\nfullscreen:true\n"), false), "a:1\nfullscreen:false");
    assert_eq!(fullscreen_options(Some("a:1"), false), "a:1\nfullscreen:false");
}

#[test]
fn launch_placeholder_values() {
    let v = launch_vars(&ctx(Some((1920, 1080))));
    assert_eq!(v.len(), 20);
    let get = |k: &str| v.iter().find(|(key, _)| key == k).map(|(_, val)| val.clone());
    assert_eq!(get("resolution_width"), Some("1920".to_string()));
    assert_eq!(get("auth_access_token"), Some("u-u-i-d".to_string()));
    assert_eq!(get("launcher_version"), Some("3.2.2".to_string()));
    let v = launch_vars(&ctx(None));
    assert_eq!(v.iter().find(|(k, _)| k == "resolution_height").map(|(_, x)| x.as_str()), Some(""));
}

#[test]
fn java_command_line_for_a_legacy_version() {
    let args = java_arguments(1, "net.minecraft.client.main.Main", None, &ctx(None));
    assert_eq!(args[0], "-Xmx2G");
    assert_eq!(&args[1..9], &legacy_jvm_args("R/natives", "a.jar;b.jar")[..]);
    assert_eq!(args[9], "net.minecraft.client.main.Main");
    assert_eq!(args[10], "--username");
    assert_eq!(args.len(), 28);
}

#[test]
fn java_command_line_for_a_modern_version() {
    let arguments = VersionArguments {
        jvm: Some(vec![
            ArgEntry::Text("-Djava.library.path=${natives_directory}".to_string()),
            ArgEntry::Text("-cp".to_string()),
            ArgEntry::Text("${classpath}".to_string()),
        ]),
        game: Some(vec![
            ArgEntry::Text("--username".to_string()),
            ArgEntry::Text("${auth_player_name}".to_string()),
            ArgEntry::Text("--clientId".to_string()),
            ArgEntry::Text("${clientid}".to_string()),
            ArgEntry::Conditional {
                rules: vec![ArgRule {
                    action: "allow".to_string(),
                    os: None,
                    features: Some(vec![("has_custom_resolution".to_string(), Some(true))]),
                }],
                value: ArgValue::List(vec![
                    Some("--width".to_string()),
                    Some("${resolution_width}".to_string()),
                ]),
            },
        ]),
    };
    let args = java_arguments(8, "Main", Some(&arguments), &ctx(Some((800, 600))));
    assert_eq!(
        args,
        strings(&[
            "-Xmx8G",
            "-Djna.tmpdir=R/natives",
            "-Dorg.lwjgl.system.SharedLibraryExtractPath=R/natives",
            "-Dio.netty.native.workdir=R/natives",
            "-Djava.library.path=R/natives",
            "-cp",
            "a.jar;b.jar",
            "Main",
            "--username",
            "Steve",
            "--width",
            "800",
        ])
    );
    let empty_jvm = VersionArguments { jvm: Some(vec![]), game: None };
    let args = java_arguments(4, "Main", Some(&empty_jvm), &ctx(None));
    assert_eq!(args.len(), 10);
    assert_eq!(args[0], "-Xmx4G");
    assert_eq!(args[9], "Main");
}

#[test]
fn early_exit_messages() {
    assert_eq!(early_exit_message(1, ""), "Игра завершилась сразу после запуска (код выхода 1)");
    assert_eq!(early_exit_message(-1, "boom"), "Игра завершилась сразу после запуска (код выхода -1: boom)");
}

#[test]
fn log_excerpts() {
    assert_eq!(log_excerpt("  \n tail \n"), "tail");
    let long: String = std::iter::repeat('x').take(1500).collect();
    assert_eq!(log_excerpt(&long).chars().count(), 1200);
}

#[test]
fn windowed_java_launcher() {
    let p = GamePath { segments: strings(&["C:\\jdk", "bin", "Java.EXE"]) };
    assert_eq!(java_gui_exe(&p, true).segments, strings(&["C:\\jdk", "bin", "javaw.exe"]));
    assert_eq!(java_gui_exe(&p, false).segments, p.segments);
    let q = GamePath { segments: strings(&["C:\\jdk", "bin", "javaw.exe"]) };
    assert_eq!(java_gui_exe(&q, true).segments, q.segments);
}

#[test]
fn java_home_is_two_segments_up() {
    let exe = GamePath { segments: strings(&["C:\\data", "java", "21", "bin", "java.exe"]) };
    assert_eq!(java_home_of(&exe).map(|h| h.segments), Some(strings(&["C:\\data", "java", "21"])));
    let short = GamePath { segments: strings(&["bin", "java.exe"]) };
    assert!(java_home_of(&short).is_none());
}

#[test]
fn filtering_game_args_twice_changes_nothing() {
    let args = strings(&["--username", "Steve", "--quickPlayPath", "", "--demo", "--width", "--height", "${h}", "x", "--last"]);
    let once = filter_optional_game_args(args.clone());
    let twice = filter_optional_game_args(once.clone());
    assert_eq!(once, twice);
    let mut pos = 0;
    for a in &once {
        pos += args[pos..].iter().position(|b| b == a).unwrap() + 1;
    }
}

#[test]
fn offline_uuids_are_name_based() {
    assert_eq!(offline_uuid("Steve"), "0550532a-7bdf-3ae6-902f-d9f724b94386");
    assert_eq!(offline_uuid("Notch"), "dbada1bb-c3b6-3839-a50d-543d675f92fa");
    assert_eq!(offline_uuid("Steve"), offline_uuid("Steve"));
}

#[test]
fn setting_an_option_twice_is_setting_it_once() {
    let mut once = strings(&["a:1", "fullscreen:true", "b:2"]);
    set_game_option(&mut once, "fullscreen", "false");
    let mut twice = strings(&["a:1", "fullscreen:true", "b:2"]);
    set_game_option(&mut twice, "fullscreen", "false");
    set_game_option(&mut twice, "fullscreen", "false");
    assert_eq!(once, twice);
    let mut fresh = strings(&["a:1"]);
    set_game_option(&mut fresh, "k", "v");
    set_game_option(&mut fresh, "k", "v");
    assert_eq!(fresh, strings(&["a:1", "k:v"]));
}

#[test]
fn resolved_arguments_are_complete() {
    let v = vars(&[("empty", ""), ("name", "Steve")]);
    let entries = vec![
        ArgEntry::Text("${empty}".to_string()),
        ArgEntry::Text("${nope}".to_string()),
        ArgEntry::Text("".to_string()),
        ArgEntry::Text("--name".to_string()),
        ArgEntry::Text("${name}".to_string()),
        ArgEntry::Conditional {
            rules: vec![],
            value: ArgValue::List(vec![Some("${empty}".to_string()), Some("x${nope}".to_string()), Some("ok".to_string())]),
        },
    ];
    let out = resolve_args(Some(&entries), &v, &features(false));
    assert_eq!(out, strings(&["--name", "Steve", "ok"]));
    assert!(out.iter().all(|a| !a.is_empty() && !is_unresolved(a)));
}
