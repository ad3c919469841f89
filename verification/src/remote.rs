//! Talking to the launcher's web API: which addresses to try for the bootstrap
//! document and for waking game servers, how each reply is judged, and what is
//! shown while waiting for a server to come up.
use vstd::prelude::*;
use crate::text::{
    chars_of, decimal, ends_with, ends_with_str, last_index, last_index_of, push_decimal,
    push_str, replace_all, replace_chars, slice_chars, string_from_chars, trim, trim_chars,
    trim_end_char, trim_end_char_chars, trimmed,
};

verus! {

/// The API address as the launcher uses it: trimmed, without trailing slashes.
pub open spec fn api_base(api_url: Seq<char>) -> Seq<char> {
    trim_end_char(trim(api_url), '/')
}

fn api_base_exec(api_url: &str) -> (r: Vec<char>)
    ensures
        r@ == api_base(api_url@),
{
    let t = trimmed(api_url);
    trim_end_char_chars(&t, '/')
}

/// The error for an API address that is blank.
pub open spec fn empty_api_error() -> Seq<char> {
    "Пустой URL API"@
}

/// The views of a list of strings.
pub open spec fn texts(v: Seq<String>) -> Seq<Seq<char>> {
    v.map_values(|s: String| s@)
}

/// The addresses tried for the bootstrap document, in order: the address itself; with
/// `.php` added unless it already ends so; and, when it ends with `/bootstrap`, with
/// every `/bootstrap` in it turned into `/bootstrap.php`.
pub open spec fn bootstrap_urls(base: Seq<char>) -> Seq<Seq<char>> {
    seq![base] + (if !ends_with(base, ".php"@) {
        seq![base + ".php"@]
    } else {
        Seq::empty()
    }) + (if ends_with(base, "/bootstrap"@) {
        seq![replace_all(base, "/bootstrap"@, "/bootstrap.php"@)]
    } else {
        Seq::empty()
    })
}

/// The addresses to try for the bootstrap document; an error when the API address is blank.
pub fn bootstrap_candidates(api_url: &str) -> (r: Result<Vec<String>, String>)
    ensures
        match r {
            Ok(v) => api_base(api_url@).len() > 0 && texts(v@) == bootstrap_urls(
                api_base(api_url@),
            ),
            Err(e) => api_base(api_url@).len() == 0 && e@ == empty_api_error(),
        },
{
    let base = api_base_exec(api_url);
    if base.len() == 0 {
        let e = chars_of("Пустой URL API");
        return Err(string_from_chars(&e));
    }
    let mut candidates: Vec<String> = Vec::new();
    candidates.push(string_from_chars(&base));
    let ghost first = texts(candidates@);
    assert(first =~= seq![base@]);
    if !ends_with_str(&base, ".php") {
        let mut p = slice_chars(&base, 0, base.len());
        assert(base@.subrange(0, base.len() as int) =~= base@);
        push_str(&mut p, ".php");
        let ghost before = texts(candidates@);
        candidates.push(string_from_chars(&p));
        assert(texts(candidates@) =~= before.push(p@));
    }
    let ghost mid = texts(candidates@);
    assert(mid =~= seq![base@] + (if !ends_with(base@, ".php"@) {
        seq![base@ + ".php"@]
    } else {
        Seq::empty()
    }));
    if ends_with_str(&base, "/bootstrap") {
        let from = chars_of("/bootstrap");
        let to = chars_of("/bootstrap.php");
        proof {
            reveal_strlit("/bootstrap");
        }
        let replaced = replace_chars(&base, &from, &to);
        candidates.push(string_from_chars(&replaced));
        assert(texts(candidates@) =~= mid.push(replaced@));
        assert(texts(candidates@) =~= mid + seq![replace_all(base@, "/bootstrap"@, "/bootstrap.php"@)]);
    } else {
        assert(texts(candidates@) =~= mid + Seq::<Seq<char>>::empty());
    }
    assert(texts(candidates@) =~= bootstrap_urls(base@));
    Ok(candidates)
}

/// The API's base address for other endpoints: the bootstrap address with a final
/// `*.php` file name removed, then a final `/bootstrap` removed.
pub open spec fn endpoint_base(api_url: Seq<char>) -> Seq<char> {
    let b0 = api_base(api_url);
    let b1 = if ends_with(b0, ".php"@) && last_index(b0, '/') >= 0 {
        b0.take(last_index(b0, '/'))
    } else {
        b0
    };
    if ends_with(b1, "/bootstrap"@) {
        b1.take(b1.len() - 10)
    } else {
        b1
    }
}

/// The API's base address; an error when the API address is blank.
pub fn api_base_url(api_url: &str) -> (r: Result<String, String>)
    ensures
        match r {
            Ok(b) => api_base(api_url@).len() > 0 && b@ == endpoint_base(api_url@),
            Err(e) => api_base(api_url@).len() == 0 && e@ == empty_api_error(),
        },
{
    let mut base = api_base_exec(api_url);
    if base.len() == 0 {
        let e = chars_of("Пустой URL API");
        return Err(string_from_chars(&e));
    }
    if ends_with_str(&base, ".php") {
        match last_index_of(&base, '/') {
            Some(k) => {
                base = slice_chars(&base, 0, k);
            },
            None => {},
        }
    }
    if ends_with_str(&base, "/bootstrap") {
        proof {
            reveal_strlit("/bootstrap");
        }
        base = slice_chars(&base, 0, base.len() - 10);
    }
    Ok(string_from_chars(&base))
}

/// The addresses tried to wake the game servers, in order.
pub open spec fn wake_urls(base: Seq<char>) -> Seq<Seq<char>> {
    seq![base + "/server-wake.php"@, base + "/server-wake"@]
}

/// The addresses to try to wake the game servers; an error when the API address is blank.
pub fn wake_candidates(api_url: &str) -> (r: Result<Vec<String>, String>)
    ensures
        match r {
            Ok(v) => api_base(api_url@).len() > 0 && texts(v@) == wake_urls(
                endpoint_base(api_url@),
            ),
            Err(e) => api_base(api_url@).len() == 0 && e@ == empty_api_error(),
        },
{
    let base = match api_base_url(api_url) {
        Ok(b) => b,
        Err(e) => {
            return Err(e);
        },
    };
    let mut a = chars_of(base.as_str());
    push_str(&mut a, "/server-wake.php");
    let mut b = chars_of(base.as_str());
    push_str(&mut b, "/server-wake");
    let mut v: Vec<String> = Vec::new();
    v.push(string_from_chars(&a));
    v.push(string_from_chars(&b));
    assert(texts(v@) =~= wake_urls(base@));
    Ok(v)
}

/// The name of the result of `Url::parse_with_params`: the serialized URL, or the
/// text of the parse error.
pub uninterp spec fn url_with_params(input: Seq<char>, pairs: Seq<(Seq<char>, Seq<char>)>) -> Result<
    Seq<char>,
    Seq<char>,
>;

/// The views of a list of pairs of strings.
pub open spec fn pairs_view(v: Seq<(String, String)>) -> Seq<(Seq<char>, Seq<char>)> {
    v.map_values(|p: (String, String)| (p.0@, p.1@))
}

/// `Url::parse_with_params(input, pairs)` (the `url` crate behind `reqwest::Url`): the
/// result is `url_with_params` of the input and the pairs, the URL as text and a parse
/// error as its message. The bounds keep the URL's text below the 4 GiB at which the
/// crate's `u32` offsets would overflow.
#[verifier::external_body]
fn parse_url_with_params(input: &str, pairs: &Vec<(String, String)>) -> (r: Result<String, String>)
    requires
        input@.len() < 0x0400_0000,
        pairs.len() <= 2,
        forall|i: int|
            0 <= i < pairs.len() ==> (#[trigger] pairs@[i]).0@.len() < 0x0400_0000
                && pairs@[i].1@.len() < 0x0400_0000,
    ensures
        match r {
            Ok(u) => url_with_params(input@, pairs_view(pairs@)) == Ok::<Seq<char>, Seq<char>>(u@),
            Err(e) => url_with_params(input@, pairs_view(pairs@)) == Err::<Seq<char>, Seq<char>>(
                e@,
            ),
        },
{
    match reqwest::Url::parse_with_params(input, pairs.iter()) {
        Ok(u) => Ok(u.to_string()),
        Err(e) => Err(e.to_string()),
    }
}

/// The query of a wake request: the game, and the server when one is named (trimmed,
/// not blank).
pub open spec fn wake_query(game_id: Seq<char>, server_id: Option<Seq<char>>) -> Seq<
    (Seq<char>, Seq<char>),
> {
    seq![("gameId"@, game_id)] + match server_id {
        Some(s) => if trim(s).len() > 0 {
            seq![("serverId"@, trim(s))]
        } else {
            Seq::empty()
        },
        None => Seq::empty(),
    }
}

/// The address of a wake request. Each text is bounded so that the address stays
/// below what the URL type can hold.
pub fn wake_request_url(wake_url: &str, game_id: &str, server_id: Option<&str>) -> (r: Result<
    String,
    String,
>)
    requires
        wake_url@.len() < 0x0400_0000,
        game_id@.len() < 0x0400_0000,
        server_id matches Some(s) ==> s@.len() < 0x0400_0000,
    ensures
        match r {
            Ok(u) => url_with_params(
                wake_url@,
                wake_query(
                    game_id@,
                    match server_id {
                        Some(s) => Some(s@),
                        None => None,
                    },
                ),
            ) == Ok::<Seq<char>, Seq<char>>(u@),
            Err(e) => url_with_params(
                wake_url@,
                wake_query(
                    game_id@,
                    match server_id {
                        Some(s) => Some(s@),
                        None => None,
                    },
                ),
            ) == Err::<Seq<char>, Seq<char>>(e@),
        },
{
    let mut pairs: Vec<(String, String)> = Vec::new();
    let k = chars_of("gameId");
    let v = chars_of(game_id);
    pairs.push((string_from_chars(&k), string_from_chars(&v)));
    proof {
        reveal_strlit("gameId");
    }
    match server_id {
        Some(s) => {
            let t = trimmed(s);
            proof {
                lemma_trim_shorter(s@);
            }
            if t.len() > 0 {
                let sk = chars_of("serverId");
                pairs.push((string_from_chars(&sk), string_from_chars(&t)));
                proof {
                    reveal_strlit("serverId");
                }
            }
        },
        None => {},
    }
    assert(pairs_view(pairs@) =~= wake_query(
        game_id@,
        match server_id {
            Some(s) => Some(s@),
            None => None,
        },
    ));
    parse_url_with_params(wake_url, &pairs)
}

proof fn lemma_trim_shorter(s: Seq<char>)
    ensures
        trim(s).len() <= s.len(),
{
    lemma_trim_start_shorter(s);
    lemma_trim_end_shorter(crate::text::trim_start(s));
}

proof fn lemma_trim_start_shorter(s: Seq<char>)
    ensures
        crate::text::trim_start(s).len() <= s.len(),
    decreases s.len(),
{
    if s.len() > 0 && crate::text::is_white_space(s[0]) {
        lemma_trim_start_shorter(s.drop_first());
    }
}

proof fn lemma_trim_end_shorter(s: Seq<char>)
    ensures
        crate::text::trim_end(s).len() <= s.len(),
    decreases s.len(),
{
    if s.len() > 0 && crate::text::is_white_space(s.last()) {
        lemma_trim_end_shorter(s.drop_last());
    }
}

// ---------------------------------------------------------------------------
// Judging replies
// ---------------------------------------------------------------------------

/// The fields of a reply body that the launcher reads: `success` when it is a boolean
/// and `error` when it is a string.
pub struct ReplyStatus {
    pub success: Option<bool>,
    pub error: Option<String>,
}

/// What came of one request, in the order the launcher learns it: the request failed;
/// its body could not be read; its status was not a success; its body is not JSON;
/// or its body is JSON with these fields.
pub enum FetchOutcome {
    Unreachable(String),
    Unreadable(String),
    Refused(String),
    NotJson(String),
    Replied(ReplyStatus),
}

/// What to do after one request.
pub enum Attempt {
    /// Try the next address, remembering this error.
    Retry(String),
    /// Stop with this error.
    Fail(String),
    /// Stop: the request succeeded.
    Done,
}

/// `<message> (<url>)`.
pub open spec fn with_url(message: Seq<char>, url: Seq<char>) -> Seq<char> {
    message + " ("@ + url + ")"@
}

fn with_url_exec(message: &str, url: &str) -> (r: String)
    ensures
        r@ == with_url(message@, url@),
{
    let mut m = chars_of(message);
    push_str(&mut m, " (");
    push_str(&mut m, url);
    push_str(&mut m, ")");
    string_from_chars(&m)
}

/// What the bootstrap request to `url` leads to: a failed request or a refused status
/// tries the next address; an unreadable or non-JSON body stops with an error; a body
/// that says `success: false` tries the next address with its error (or
/// `Bootstrap error`); any other body is the bootstrap document.
pub fn bootstrap_attempt(url: &str, outcome: &FetchOutcome) -> (a: Attempt)
    ensures
        match outcome {
            FetchOutcome::Unreachable(e) => a matches Attempt::Retry(m) && m@ == with_url(e@, url@),
            FetchOutcome::Unreadable(e) => a matches Attempt::Fail(m) && m@ == e@,
            FetchOutcome::Refused(s) => a matches Attempt::Retry(m) && m@ == with_url(
                "HTTP "@ + s@,
                url@,
            ),
            FetchOutcome::NotJson(e) => a matches Attempt::Fail(m) && m@ == "Некорректный JSON: "@
                + e@,
            FetchOutcome::Replied(r) => if r.success == Some(false) {
                a matches Attempt::Retry(m) && m@ == match r.error {
                    Some(t) => t@,
                    None => "Bootstrap error"@,
                }
            } else {
                a is Done
            },
        },
{
    match outcome {
        FetchOutcome::Unreachable(e) => Attempt::Retry(with_url_exec(e.as_str(), url)),
        FetchOutcome::Unreadable(e) => Attempt::Fail(e.clone()),
        FetchOutcome::Refused(s) => {
            let mut m = chars_of("HTTP ");
            push_str(&mut m, s.as_str());
            let m = string_from_chars(&m);
            Attempt::Retry(with_url_exec(m.as_str(), url))
        },
        FetchOutcome::NotJson(e) => {
            let mut m = chars_of("Некорректный JSON: ");
            push_str(&mut m, e.as_str());
            Attempt::Fail(string_from_chars(&m))
        },
        FetchOutcome::Replied(r) => {
            if r.success == Some(false) {
                match &r.error {
                    Some(t) => Attempt::Retry(t.clone()),
                    None => {
                        let m = chars_of("Bootstrap error");
                        Attempt::Retry(string_from_chars(&m))
                    },
                }
            } else {
                Attempt::Done
            }
        },
    }
}

/// What a wake request to `url` leads to: a failed request or a refused status tries
/// the next address; a body that says `success: false` tries the next address with its
/// error (or `wake error`); anything else, an unreadable or non-JSON body included,
/// counts as woken.
pub fn wake_attempt(url: &str, outcome: &FetchOutcome) -> (a: Attempt)
    ensures
        match outcome {
            FetchOutcome::Unreachable(e) => a matches Attempt::Retry(m) && m@ == with_url(e@, url@),
            FetchOutcome::Refused(s) => a matches Attempt::Retry(m) && m@ == with_url(
                "HTTP "@ + s@,
                url@,
            ),
            FetchOutcome::Replied(r) => if r.success == Some(false) {
                a matches Attempt::Retry(m) && m@ == match r.error {
                    Some(t) => t@,
                    None => "wake error"@,
                }
            } else {
                a is Done
            },
            _ => a is Done,
        },
{
    match outcome {
        FetchOutcome::Unreachable(e) => Attempt::Retry(with_url_exec(e.as_str(), url)),
        FetchOutcome::Refused(s) => {
            let mut m = chars_of("HTTP ");
            push_str(&mut m, s.as_str());
            let m = string_from_chars(&m);
            Attempt::Retry(with_url_exec(m.as_str(), url))
        },
        FetchOutcome::Replied(r) => {
            if r.success == Some(false) {
                match &r.error {
                    Some(t) => Attempt::Retry(t.clone()),
                    None => {
                        let m = chars_of("wake error");
                        Attempt::Retry(string_from_chars(&m))
                    },
                }
            } else {
                Attempt::Done
            }
        },
        _ => Attempt::Done,
    }
}

/// The error when no bootstrap address worked and none gave a reason.
pub fn bootstrap_unavailable() -> (e: String)
    ensures
        e@ == "API недоступен"@,
{
    let m = chars_of("API недоступен");
    string_from_chars(&m)
}

/// The error when no wake address worked and none gave a reason.
pub fn wake_unavailable() -> (e: String)
    ensures
        e@ == "API пробуждения недоступен"@,
{
    let m = chars_of("API пробуждения недоступен");
    string_from_chars(&m)
}

// ---------------------------------------------------------------------------
// Waiting for a server
// ---------------------------------------------------------------------------

/// How long to wait for a server, in seconds.
pub const WAIT_TIMEOUT_SECS: u64 = 180;

/// Why waiting stops before the next ping: the install was cancelled, or three
/// minutes have passed.
pub fn wait_gate(cancelled: bool, elapsed_secs: u64) -> (r: Option<String>)
    ensures
        cancelled ==> (r matches Some(m) && m@ == "Установка отменена"@),
        !cancelled && elapsed_secs >= 180 ==> (r matches Some(m) && m@
            == "Сервер не ответил за 180 сек. Подождите и нажмите «Играть» снова."@),
        !cancelled && elapsed_secs < 180 ==> r is None,
{
    if cancelled {
        let m = chars_of("Установка отменена");
        return Some(string_from_chars(&m));
    }
    if elapsed_secs >= WAIT_TIMEOUT_SECS {
        let m = chars_of("Сервер не ответил за 180 сек. Подождите и нажмите «Играть» снова.");
        return Some(string_from_chars(&m));
    }
    None
}

/// What is shown while waiting, by seconds waited.
pub fn wait_message(secs: u64) -> (m: String)
    ensures
        m@ == (if secs < 15 {
            "Запуск сервера…"@
        } else if secs < 60 {
            "Сервер загружается… ("@ + decimal(secs as nat) + " с)"@
        } else {
            "Ожидание сервера… ("@ + decimal(secs as nat) + " с)"@
        }),
{
    if secs < 15 {
        let m = chars_of("Запуск сервера…");
        return string_from_chars(&m);
    }
    let mut m = if secs < 60 {
        chars_of("Сервер загружается… (")
    } else {
        chars_of("Ожидание сервера… (")
    };
    push_decimal(&mut m, secs);
    push_str(&mut m, " с)");
    string_from_chars(&m)
}

} // verus!
