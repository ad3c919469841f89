use chadow_launcher::remote::{
    api_base_url, bootstrap_attempt, bootstrap_candidates, bootstrap_unavailable, wait_gate,
    wait_message, wake_attempt, wake_candidates, wake_request_url, wake_unavailable, Attempt,
    FetchOutcome, ReplyStatus, WAIT_TIMEOUT_SECS,
};

fn strings(v: &[&str]) -> Vec<String> {
    v.iter().map(|s| s.to_string()).collect()
}

#[test]
fn bootstrap_addresses() {
    assert_eq!(
        bootstrap_candidates(" https://chadow.ru/api/minecraft/bootstrap/ ").unwrap(),
        strings(&[
            "https://chadow.ru/api/minecraft/bootstrap",
            "https://chadow.ru/api/minecraft/bootstrap.php",
            "https://chadow.ru/api/minecraft/bootstrap.php",
        ])
    );
    assert_eq!(
        bootstrap_candidates("https://x/api/bootstrap.php").unwrap(),
        strings(&["https://x/api/bootstrap.php"])
    );
    assert_eq!(
        bootstrap_candidates("https://x/api").unwrap(),
        strings(&["https://x/api", "https://x/api.php"])
    );
    assert_eq!(bootstrap_candidates("  //  "), Err("Пустой URL API".to_string()));
    assert_eq!(bootstrap_candidates(""), Err("Пустой URL API".to_string()));
}

#[test]
fn api_base_addresses() {
    assert_eq!(api_base_url("https://chadow.ru/api/minecraft/bootstrap"), Ok("https://chadow.ru/api/minecraft".to_string()));
    assert_eq!(api_base_url("https://chadow.ru/api/minecraft/bootstrap.php"), Ok("https://chadow.ru/api/minecraft".to_string()));
    assert_eq!(api_base_url("https://x/api/index.php/"), Ok("https://x/api".to_string()));
    assert_eq!(api_base_url("https://x/api"), Ok("https://x/api".to_string()));
    assert_eq!(api_base_url("noslash.php"), Ok("noslash.php".to_string()));
    assert_eq!(api_base_url("   "), Err("Пустой URL API".to_string()));
}

#[test]
fn wake_addresses() {
    assert_eq!(
        wake_candidates("https://chadow.ru/api/minecraft/bootstrap").unwrap(),
        strings(&[
            "https://chadow.ru/api/minecraft/server-wake.php",
            "https://chadow.ru/api/minecraft/server-wake",
        ])
    );
    assert_eq!(wake_candidates("/"), Err("Пустой URL API".to_string()));
}

#[test]
fn wake_request_addresses() {
    assert_eq!(
        wake_request_url("https://chadow.ru/api/minecraft/server-wake.php", "minecraft", Some("  main ")),
        Ok("https://chadow.ru/api/minecraft/server-wake.php?gameId=minecraft&serverId=main".to_string())
    );
    assert_eq!(
        wake_request_url("https://x/server-wake", "minecraft", Some("  ")),
        Ok("https://x/server-wake?gameId=minecraft".to_string())
    );
    assert_eq!(
        wake_request_url("https://x/server-wake", "a b&c", None),
        Ok("https://x/server-wake?gameId=a+b%26c".to_string())
    );
    assert!(wake_request_url("not a url", "minecraft", None).is_err());
}

#[test]
fn bootstrap_reply_handling() {
    let url = "https://x/b";
    assert!(matches!(
        bootstrap_attempt(url, &FetchOutcome::Unreachable("timeout".to_string())),
        Attempt::Retry(ref m) if m == "timeout (https://x/b)"
    ));
    assert!(matches!(
        bootstrap_attempt(url, &FetchOutcome::Refused("404 Not Found".to_string())),
        Attempt::Retry(ref m) if m == "HTTP 404 Not Found (https://x/b)"
    ));
    assert!(matches!(
        bootstrap_attempt(url, &FetchOutcome::Unreadable("reset".to_string())),
        Attempt::Fail(ref m) if m == "reset"
    ));
    assert!(matches!(
        bootstrap_attempt(url, &FetchOutcome::NotJson("expected value".to_string())),
        Attempt::Fail(ref m) if m == "Некорректный JSON: expected value"
    ));
    let refused = ReplyStatus { success: Some(false), error: Some("maintenance".to_string()) };
    assert!(matches!(bootstrap_attempt(url, &FetchOutcome::Replied(refused)), Attempt::Retry(ref m) if m == "maintenance"));
    let refused = ReplyStatus { success: Some(false), error: None };
    assert!(matches!(bootstrap_attempt(url, &FetchOutcome::Replied(refused)), Attempt::Retry(ref m) if m == "Bootstrap error"));
    let ok = ReplyStatus { success: None, error: Some("ignored".to_string()) };
    assert!(matches!(bootstrap_attempt(url, &FetchOutcome::Replied(ok)), Attempt::Done));
    let ok = ReplyStatus { success: Some(true), error: None };
    assert!(matches!(bootstrap_attempt(url, &FetchOutcome::Replied(ok)), Attempt::Done));
    assert_eq!(bootstrap_unavailable(), "API недоступен");
}

#[test]
fn wake_reply_handling() {
    let url = "https://x/w";
    assert!(matches!(
        wake_attempt(url, &FetchOutcome::Unreachable("dns".to_string())),
        Attempt::Retry(ref m) if m == "dns (https://x/w)"
    ));
    assert!(matches!(
        wake_attempt(url, &FetchOutcome::Refused("500 Internal Server Error".to_string())),
        Attempt::Retry(ref m) if m == "HTTP 500 Internal Server Error (https://x/w)"
    ));
    assert!(matches!(wake_attempt(url, &FetchOutcome::Unreadable("x".to_string())), Attempt::Done));
    assert!(matches!(wake_attempt(url, &FetchOutcome::NotJson("x".to_string())), Attempt::Done));
    let refused = ReplyStatus { success: Some(false), error: None };
    assert!(matches!(wake_attempt(url, &FetchOutcome::Replied(refused)), Attempt::Retry(ref m) if m == "wake error"));
    assert_eq!(wake_unavailable(), "API пробуждения недоступен");
}

#[test]
fn waiting_for_a_server() {
    assert_eq!(WAIT_TIMEOUT_SECS, 180);
    assert_eq!(wait_gate(true, 0), Some("Установка отменена".to_string()));
    assert_eq!(wait_gate(false, 179), None);
    assert_eq!(
        wait_gate(false, 180),
        Some("Сервер не ответил за 180 сек. Подождите и нажмите «Играть» снова.".to_string())
    );
    assert_eq!(wait_message(0), "Запуск сервера…");
    assert_eq!(wait_message(14), "Запуск сервера…");
    assert_eq!(wait_message(15), "Сервер загружается… (15 с)");
    assert_eq!(wait_message(60), "Ожидание сервера… (60 с)");
}
