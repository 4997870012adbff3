//! The built-in `api` hook: session inspection and control over HTTP.
//!
//! `GET http://api.kittykat.hook/sessions[?pretty=true]` lists the sessions,
//! `/self/address/timeout` releases the exit address of the caller's session
//! and `/self/destroy` drops the caller's session; the caller is named by its
//! `Proxy-Authorization` header.

use vstd::prelude::*;
use super::special::Hook;
use super::token::{Token, TokenKey};
use super::{text_of, KittyKat, Model, SessionReport};
use crate::text::{find_last, lookup_last, pairs_view, parse_bool, same_text, spec_parse_bool};

verus! {

broadcast use vstd::string::group_string_axioms;

/// The name of the built-in hook.
pub const API_HOOK_NAME: &'static str = "api";

/// The built-in hook, reached at `api.kittykat.hook`.
pub fn builtin_api_hook() -> (res: Hook)
    ensures
        res.name@ == API_HOOK_NAME@,
{
    Hook::new(API_HOOK_NAME)
}

/// What the `api` hook is asked to do.
#[derive(Debug)]
pub enum Command {
    GetSessions { pretty: bool },
    AddressTimeout { token: String },
    DestroySelf { token: String },
}

/// A [`Command`] as a value.
pub enum CommandView {
    GetSessions { pretty: bool },
    AddressTimeout { token: Seq<char> },
    DestroySelf { token: Seq<char> },
}

impl View for Command {
    type V = CommandView;

    open spec fn view(&self) -> CommandView {
        match self {
            Command::GetSessions { pretty } => CommandView::GetSessions { pretty: *pretty },
            Command::AddressTimeout { token } => CommandView::AddressTimeout { token: token@ },
            Command::DestroySelf { token } => CommandView::DestroySelf { token: token@ },
        }
    }
}

/// What a command answers.  The session list is turned into JSON by the
/// server, indented when `pretty` is set.
#[derive(Debug)]
pub enum Message {
    Unit,
    Sessions { pretty: bool, sessions: Vec<SessionReport> },
}

/// Why a command failed.
#[derive(Clone, Copy, Debug, PartialEq, Eq, Structural)]
pub enum Error {
    SerializeError,
    SessionNotFound,
}

/// A request to the `api` hook: a command to run, or one to refuse.
#[derive(Debug)]
pub enum ApiRequest {
    Run(Command),
    BadRequest,
}

/// What a request path, its query pairs and the caller's token ask for;
/// `None` for a request that is refused.
pub open spec fn spec_api_command(
    path: Seq<char>,
    query: Seq<(Seq<char>, Seq<char>)>,
    token: Option<Seq<char>>,
) -> Option<CommandView> {
    if path == "/sessions"@ {
        match lookup_last(query, "pretty"@) {
            None => Some(CommandView::GetSessions { pretty: false }),
            Some(v) => match spec_parse_bool(v) {
                Some(b) => Some(CommandView::GetSessions { pretty: b }),
                None => None,
            },
        }
    } else if path == "/self/destroy"@ {
        match token {
            Some(t) => Some(CommandView::DestroySelf { token: t }),
            None => None,
        }
    } else if path == "/self/address/timeout"@ {
        match token {
            Some(t) => Some(CommandView::AddressTimeout { token: t }),
            None => None,
        }
    } else {
        None
    }
}

/// A request as a value: the command, or `None` when refused.
pub open spec fn request_view(r: ApiRequest) -> Option<CommandView> {
    match r {
        ApiRequest::Run(c) => Some(c@),
        ApiRequest::BadRequest => None,
    }
}

/// Reads the command of a request to the `api` hook from its path, its
/// query pairs (decoded, in order) and the caller's token.
pub fn api_command(path: &str, query: &Vec<(String, String)>, token: Option<String>) -> (res: ApiRequest)
    ensures
        request_view(res) == spec_api_command(path@, pairs_view(query@), text_of(token)),
{
    if same_text(path, "/sessions") {
        let pretty = match find_last(query, "pretty") {
            None => false,
            Some(v) => match parse_bool(v.as_str()) {
                Some(b) => b,
                None => {
                    return ApiRequest::BadRequest;
                },
            },
        };
        ApiRequest::Run(Command::GetSessions { pretty })
    } else if same_text(path, "/self/destroy") {
        match token {
            Some(t) => ApiRequest::Run(Command::DestroySelf { token: t }),
            None => ApiRequest::BadRequest,
        }
    } else if same_text(path, "/self/address/timeout") {
        match token {
            Some(t) => ApiRequest::Run(Command::AddressTimeout { token: t }),
            None => ApiRequest::BadRequest,
        }
    } else {
        ApiRequest::BadRequest
    }
}

/// The path and the decoded query pairs of a URL, as the `url` crate reads
/// them; `None` when the text is not a URL.
pub uninterp spec fn url_parts(uri: Seq<char>) -> Option<(Seq<char>, Seq<(Seq<char>, Seq<char>)>)>;

/// Parses `uri` with `url::Url::parse` and reads `Url::path` and
/// `Url::query_pairs` (the `application/x-www-form-urlencoded` pairs of the
/// query, decoded, in order).  Claims only that the result is a function of
/// the text: [`url_parts`] names it.
#[verifier::external_body]
fn parse_url(uri: &str) -> (res: Option<(String, Vec<(String, String)>)>)
    ensures
        match res {
            None => url_parts(uri@) is None,
            Some(p) => url_parts(uri@) == Some((p.0@, pairs_view(p.1@))),
        },
{
    match url::Url::parse(uri) {
        Ok(url) => Some(
            (
                url.path().to_owned(),
                url.query_pairs().map(|(k, v)| (k.into_owned(), v.into_owned())).collect(),
            ),
        ),
        Err(_) => None,
    }
}

/// Reads a request to the `api` hook from its full URI and the caller's
/// token.  `None` when the URI does not parse as a URL, which a request that
/// reached the proxy cannot do (the server treats it as a broken invariant).
pub fn read_api_request(uri: &str, token: Option<String>) -> (res: Option<ApiRequest>)
    ensures
        match url_parts(uri@) {
            None => res is None,
            Some((path, query)) => res matches Some(r) && request_view(r) == spec_api_command(
                path,
                query,
                text_of(token),
            ),
        },
{
    match parse_url(uri) {
        Some((path, query)) => Some(api_command(path.as_str(), &query, token)),
        None => None,
    }
}

/// Releases the exit address of the session registered under `token`.
pub fn timeout_session_address(kitty_kat: &mut KittyKat, token: &Token) -> (res: Result<(), Error>)
    requires
        old(kitty_kat).wf(),
    ensures
        final(kitty_kat).wf(),
        ({
            let (m, found) = old(kitty_kat).state().timeout(token@);
            &&& final(kitty_kat).state() == m
            &&& res == if found {
                Ok::<(), Error>(())
            } else {
                Err(Error::SessionNotFound)
            }
        }),
        final(kitty_kat).prefs() == old(kitty_kat).prefs(),
        final(kitty_kat).hooks() == old(kitty_kat).hooks(),
        final(kitty_kat).status() == old(kitty_kat).status(),
        final(kitty_kat).can_issue() == old(kitty_kat).can_issue(),
{
    if kitty_kat.release_address(token) {
        Ok(())
    } else {
        Err(Error::SessionNotFound)
    }
}

/// What running `command` at `now` does to the bookkeeping, and what it
/// answers (`None` for the session list, which [`Model::lists_sessions`]
/// describes).
pub open spec fn spec_process(m: Model, command: CommandView) -> (Model, Option<Result<(), Error>>) {
    match command {
        CommandView::DestroySelf { token } => {
            let (m1, found) = m.timeout(TokenKey::Session(token));
            if found {
                (m1.unregister(TokenKey::Session(token)), Some(Ok(())))
            } else {
                (m, Some(Err(Error::SessionNotFound)))
            }
        },
        CommandView::AddressTimeout { token } => {
            let (m1, found) = m.timeout(TokenKey::Session(token));
            (m1, Some(if found { Ok(()) } else { Err(Error::SessionNotFound) }))
        },
        CommandView::GetSessions { .. } => (m, None),
    }
}

/// Runs a command of the `api` hook at `now`.
///
/// `DestroySelf` releases the exit address of the caller's session (it stays
/// committed to the session until the address lifetime passes) and then
/// drops the session from the registry; for an unknown token it answers that
/// the session is not found.
pub fn process_command(kitty_kat: &mut KittyKat, command: Command, now: u64) -> (res: Result<Message, Error>)
    requires
        old(kitty_kat).wf(),
    ensures
        final(kitty_kat).wf(),
        ({
            let (m, answer) = spec_process(old(kitty_kat).state(), command@);
            &&& final(kitty_kat).state() == m
            &&& match answer {
                Some(Ok(())) => res matches Ok(Message::Unit),
                Some(Err(e)) => res == Err::<Message, Error>(e),
                None => res matches Ok(Message::Sessions { pretty, sessions }) && command@
                    == (CommandView::GetSessions { pretty }) && m.lists_sessions(sessions@, now),
            }
        }),
        final(kitty_kat).prefs() == old(kitty_kat).prefs(),
        final(kitty_kat).hooks() == old(kitty_kat).hooks(),
        final(kitty_kat).status() == old(kitty_kat).status(),
        final(kitty_kat).can_issue() == old(kitty_kat).can_issue(),
{
    match command {
        Command::DestroySelf { token } => {
            let token = Token::session(token.as_str());
            match timeout_session_address(kitty_kat, &token) {
                Ok(()) => {
                    kitty_kat.unregister(&token);
                    Ok(Message::Unit)
                },
                Err(e) => Err(e),
            }
        },
        Command::AddressTimeout { token } => {
            let token = Token::session(token.as_str());
            match timeout_session_address(kitty_kat, &token) {
                Ok(()) => Ok(Message::Unit),
                Err(e) => Err(e),
            }
        },
        Command::GetSessions { pretty } => {
            let sessions = kitty_kat.session_reports(now);
            Ok(Message::Sessions { pretty, sessions })
        },
    }
}

/// Destroying one's own session succeeds exactly when the token is
/// registered.  Then the token leaves the registry, and the exit the session
/// was pinned to stays committed to that session (which lives on through the
/// address registry) until the address lifetime passes; other tokens keep
/// their sessions.  An unknown token is answered "not found" and changes
/// nothing.
pub proof fn law_destroy_releases_session(m: Model, token: Seq<char>)
    requires
        m.wf(),
    ensures
        ({
            let key = TokenKey::Session(token);
            let (m2, answer) = spec_process(m, CommandView::DestroySelf { token });
            if m.sessions.contains_key(key) {
                let id = m.sessions[key];
                &&& answer == Some(Ok::<(), Error>(()))
                &&& !m2.sessions.contains_key(key)
                &&& m2.sessions == m.sessions.remove(key)
                &&& (m.records[id].session.addr matches Some(x) ==> {
                    &&& m2.addrs.contains_key(x)
                    &&& m2.addrs[x] == id
                    &&& m2.records.contains_key(id)
                    &&& m2.records[id].session.addr is None
                })
            } else {
                &&& answer == Some(Err::<(), Error>(Error::SessionNotFound))
                &&& m2 == m
            }
        }),
{
    let key = TokenKey::Session(token);
    if m.sessions.contains_key(key) {
        let id = m.sessions[key];
        crate::kitty::law_timeout_unpins(m, key);
        let (m1, found) = m.timeout(key);
        crate::kitty::lemma_timeout_wf(m, key);
        if let Some(x) = m.records[id].session.addr {
            let m3 = Model { sessions: m1.sessions.remove(key), ..m1 };
            assert(m3.addrs.contains_key(x) && m3.addrs[x] == id);
            assert(m3.referenced(id));
        }
    }
}

/// Releasing one's own exit address keeps the session: for a registered
/// token the answer is success, the token stays registered under the same
/// session, that session is unpinned (keeping its last use), and the exit it
/// was pinned to stays committed to it.  An unknown token is answered "not
/// found" and changes nothing.
pub proof fn law_address_timeout_keeps_session(m: Model, token: Seq<char>)
    requires
        m.wf(),
    ensures
        ({
            let key = TokenKey::Session(token);
            let (m2, answer) = spec_process(m, CommandView::AddressTimeout { token });
            if m.sessions.contains_key(key) {
                let id = m.sessions[key];
                &&& answer == Some(Ok::<(), Error>(()))
                &&& m2.sessions == m.sessions
                &&& m2.records.contains_key(id)
                &&& m2.records[id].session.addr is None
                &&& m2.records[id].session.last_used == m.records[id].session.last_used
                &&& (m.records[id].session.addr matches Some(x) ==> {
                    &&& m2.addrs.contains_key(x)
                    &&& m2.addrs[x] == id
                })
            } else {
                &&& answer == Some(Err::<(), Error>(Error::SessionNotFound))
                &&& m2 == m
            }
        }),
{
    let key = TokenKey::Session(token);
    if m.sessions.contains_key(key) {
        crate::kitty::law_timeout_unpins(m, key);
    }
}

/// The session list is pretty-printed exactly when the last `pretty` query
/// value is `true`; it is compact when that value is `false` or absent, and
/// any other value refuses the request.
pub proof fn law_sessions_pretty_flag(
    query: Seq<(Seq<char>, Seq<char>)>,
    token: Option<Seq<char>>,
)
    ensures
        ({
            let p = lookup_last(query, "pretty"@);
            let c = spec_api_command("/sessions"@, query, token);
            &&& (p is None || p == Some("true"@) || p == Some("false"@)) ==> c == Some(
                CommandView::GetSessions { pretty: p == Some("true"@) },
            )
            &&& !(p is None || p == Some("true"@) || p == Some("false"@)) ==> c is None
        }),
{
    reveal_strlit("true");
    reveal_strlit("false");
}

/// The caller's own commands need its token: `/self/destroy` and
/// `/self/address/timeout` run on the caller's token, and are refused when
/// the request carries none; any path other than these and `/sessions` is
/// refused.
pub proof fn law_self_commands_need_token(
    path: Seq<char>,
    query: Seq<(Seq<char>, Seq<char>)>,
    token: Option<Seq<char>>,
)
    ensures
        path == "/self/destroy"@ ==> spec_api_command(path, query, token) == match token {
            Some(t) => Some(CommandView::DestroySelf { token: t }),
            None => None::<CommandView>,
        },
        path == "/self/address/timeout"@ ==> spec_api_command(path, query, token) == match token {
            Some(t) => Some(CommandView::AddressTimeout { token: t }),
            None => None::<CommandView>,
        },
        spec_api_command(path, query, token) is Some ==> path == "/sessions"@ || path
            == "/self/destroy"@ || path == "/self/address/timeout"@,
{
    reveal_strlit("/sessions");
    reveal_strlit("/self/destroy");
    reveal_strlit("/self/address/timeout");
    assert("/sessions"@.len() == 9 && "/self/destroy"@.len() == 13);
    assert("/self/address/timeout"@.len() == 21);
}

/// The HTTP status of the answer to a command: 200 on success, 500 when the
/// session list could not be written, 404 for an unknown session.
pub fn status_code(result: &Result<Message, Error>) -> (res: u16)
    ensures
        res == match result {
            Ok(_) => 200u16,
            Err(Error::SerializeError) => 500u16,
            Err(Error::SessionNotFound) => 404u16,
        },
{
    match result {
        Ok(_) => 200,
        Err(Error::SerializeError) => 500,
        Err(Error::SessionNotFound) => 404,
    }
}

/// The HTTP status of the answer to a refused request.
pub const BAD_REQUEST: u16 = 400;

/// The body of the answer for an unknown session.
pub const SESSION_NOT_FOUND_BODY: &'static str = "Requested session token is not registered yet!";

} // verus!
