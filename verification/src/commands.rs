//! The checks the launcher's commands make before they act.
use vstd::prelude::*;
use crate::text::{chars_equal_str, chars_of, starts_with, starts_with_str, string_from_chars};

verus! {

/// The only game the launcher can start.
pub open spec fn supported_game() -> Seq<char> {
    "minecraft"@
}

/// Whether a launch may go ahead: the launcher must be enabled by the server, and the
/// game must be Minecraft.
pub fn launch_gate(enabled: bool, game_id: &str) -> (r: Result<(), String>)
    ensures
        !enabled ==> (r matches Err(e) && e@ == "Лаунчер отключён администратором"@),
        enabled && game_id@ != supported_game() ==> (r matches Err(e) && e@
            == "Эта игра пока не поддерживается"@),
        enabled && game_id@ == supported_game() ==> r is Ok,
{
    if !enabled {
        let m = chars_of("Лаунчер отключён администратором");
        return Err(string_from_chars(&m));
    }
    let g = chars_of(game_id);
    if !chars_equal_str(&g, "minecraft") {
        let m = chars_of("Эта игра пока не поддерживается");
        return Err(string_from_chars(&m));
    }
    Ok(())
}

/// Whether the install folder may be changed: not while the game runs.
pub fn install_path_change_gate(game_running: bool) -> (r: Result<(), String>)
    ensures
        game_running ==> (r matches Err(e) && e@ == "Закройте игру перед сменой папки установки"@),
        !game_running ==> r is Ok,
{
    if game_running {
        let m = chars_of("Закройте игру перед сменой папки установки");
        return Err(string_from_chars(&m));
    }
    Ok(())
}

/// Whether all data may be cleared: not while the game runs.
pub fn clear_data_gate(game_running: bool) -> (r: Result<(), String>)
    ensures
        game_running ==> (r matches Err(e) && e@ == "Закройте игру перед очисткой данных"@),
        !game_running ==> r is Ok,
{
    if game_running {
        let m = chars_of("Закройте игру перед очисткой данных");
        return Err(string_from_chars(&m));
    }
    Ok(())
}

/// Whether an address may be opened in the browser: only `http://` and `https://` ones.
pub fn check_external_url(url: &str) -> (r: Result<(), String>)
    ensures
        r is Ok <==> (starts_with(url@, "http://"@) || starts_with(url@, "https://"@)),
        r matches Err(e) ==> e@ == "Разрешены только http(s) ссылки"@,
{
    let u = chars_of(url);
    if !starts_with_str(&u, "http://") && !starts_with_str(&u, "https://") {
        let m = chars_of("Разрешены только http(s) ссылки");
        return Err(string_from_chars(&m));
    }
    Ok(())
}

/// Whether the game is already running when a launch is asked for.
pub fn relaunch_gate(game_running: bool) -> (r: Result<(), String>)
    ensures
        game_running ==> (r matches Err(e) && e@ == "Игра уже запущена"@),
        !game_running ==> r is Ok,
{
    if game_running {
        let m = chars_of("Игра уже запущена");
        return Err(string_from_chars(&m));
    }
    Ok(())
}

} // verus!
