use kittykat::kitty::builtin::{
    api_command, builtin_api_hook, process_command, read_api_request, status_code,
    timeout_session_address, ApiRequest, Command, Error, Message, API_HOOK_NAME, BAD_REQUEST,
    SESSION_NOT_FOUND_BODY,
};
use kittykat::kitty::special::Hook;
use kittykat::kitty::token::Token;
use kittykat::kitty::util::extract_token;
use kittykat::kitty::{
    bad_gateway_body, forward_path, get_stream_address, target_port, task_pool_bound, KittyKat,
    Preferences, RelayAddr, Route,
};
use kittykat::kitty::{after_attempt, first_attempt, forward_headers, ConnectStep};
use kittykat::net::Ipv4SocketAddr;

fn addr(ip: u32, port: u16) -> Ipv4SocketAddr {
    Ipv4SocketAddr { ip, port }
}

fn kitty() -> KittyKat {
    KittyKat::new(Preferences::default(), None)
}

fn session_token(t: &Token) -> Option<&str> {
    match t {
        Token::Session(s) => Some(s.as_str()),
        Token::Anonymous(_) => None,
    }
}

#[test]
fn preferences_default_to_ten_and_twenty_seconds() {
    let p = Preferences::default();
    assert_eq!(p.session_lifetime, 10_000);
    assert_eq!(p.addr_dirtyness, 20_000);
}

#[test]
fn hooks_match_their_host() {
    let h = Hook::new("api");
    assert!(h.match_host("api.kittykat.hook"));
    assert!(!h.match_host("api.kittykat.hook."));
    assert!(!h.match_host("api"));
    assert!(!h.match_host("x.api.kittykat.hook"));
    assert_eq!(builtin_api_hook().name, API_HOOK_NAME);
}

#[test]
fn routing_prefers_hooks_then_method() {
    let k = KittyKat::new(Preferences::default(), Some(vec![Hook::new("stats"), Hook::new("api")]));
    assert_eq!(k.route(Some("stats.kittykat.hook"), false), Route::Hook(0));
    // The first of two hooks with one name is reached.
    assert_eq!(k.route(Some("api.kittykat.hook"), true), Route::Hook(1));
    assert_eq!(k.route(Some("example.com"), true), Route::Tunnel);
    assert_eq!(k.route(Some("example.com"), false), Route::Forward);
    assert_eq!(k.route(None, false), Route::Forward);
    let k = kitty();
    assert_eq!(k.route(Some("api.kittykat.hook"), false), Route::Hook(0));
}

#[test]
fn status_moves_to_running() {
    let mut k = kitty();
    assert!(k.is_ready());
    k.start();
    assert!(!k.is_ready());
}

#[test]
fn same_token_same_session_and_exit() {
    let mut k = kitty();
    let (t1, id1) = k.fetch_session_with(Some("cat:goes meow".to_string()), 0, 1);
    assert_eq!(session_token(&t1), Some("cat:goes meow"));
    assert!(k.settle_exit(id1, Some(addr(0x0a48_1404, 9001)), 5));
    k.release_session(id1);
    let (_, id2) = k.fetch_session_with(Some("cat:goes meow".to_string()), 100, 2);
    assert_eq!(id1, id2);
    let reports = k.session_reports(105);
    assert_eq!(reports.len(), 1);
    assert_eq!(reports[0].addr, Some(addr(0x0a48_1404, 9001)));
    assert_eq!(reports[0].lifetime, 100);
}

#[test]
fn different_tokens_are_isolated() {
    let mut k = kitty();
    let (_, a) = k.fetch_session_with(Some("a".to_string()), 0, 1);
    let (_, b) = k.fetch_session_with(Some("b".to_string()), 0, 2);
    assert_ne!(a, b);
    assert_eq!(k.session_reports(0).len(), 2);
}

#[test]
fn anonymous_clients_share_a_session() {
    let mut k = kitty();
    let (t1, a) = k.fetch_session_with(None, 0, 7);
    let (t2, b) = k.fetch_session_with(None, 1, 8);
    assert!(matches!(t1, Token::Anonymous(7)));
    assert!(matches!(t2, Token::Anonymous(7)));
    assert_eq!(a, b);
    let (t3, _) = k.fetch_session(None, 2);
    assert!(matches!(t3, Token::Anonymous(7)));
}

#[test]
fn random_anonymous_tokens_differ() {
    let a = Token::anonymous();
    let b = Token::anonymous();
    match (a, b) {
        (Token::Anonymous(x), Token::Anonymous(y)) => {
            assert_ne!(x, y);
            for u in [x, y] {
                assert_eq!((u >> 76) & 0xf, 4);
                assert_eq!((u >> 62) & 3, 2);
            }
        }
        _ => panic!("anonymous tokens expected"),
    }
    let mut k = kitty();
    let (t, _) = k.fetch_session(None, 0);
    assert!(matches!(t, Token::Anonymous(_)));
}

#[test]
fn committed_exit_is_exclusive() {
    let mut k = kitty();
    let exit = addr(0x0102_0304, 443);
    let (_, a) = k.fetch_session_with(Some("a".to_string()), 0, 0);
    let (_, b) = k.fetch_session_with(Some("b".to_string()), 0, 0);
    assert!(k.commit_address(exit));
    assert!(k.settle_exit(a, Some(exit), 1));
    assert!(!k.commit_address(exit));
    assert!(!k.settle_exit(b, Some(exit), 2));
    assert!(!k.settle_exit(b, None, 2));
    assert!(k.settle_exit(b, Some(addr(0x0102_0305, 443)), 3));
    // A pinned session is re-pinned without a commit check.
    assert!(k.settle_exit(b, Some(exit), 4));
}

#[test]
fn timeout_unpins_and_keeps_the_address_committed() {
    let mut k = kitty();
    let exit = addr(0x0102_0304, 443);
    let (t, a) = k.fetch_session_with(Some("a".to_string()), 0, 0);
    assert!(k.settle_exit(a, Some(exit), 1));
    assert_eq!(timeout_session_address(&mut k, &t), Ok(()));
    assert_eq!(k.session_reports(1)[0].addr, None);
    assert!(!k.commit_address(exit));
    assert_eq!(timeout_session_address(&mut k, &Token::session("nobody")), Err(Error::SessionNotFound));
    // An unpinned session is free to pin another exit.
    assert!(k.settle_exit(a, Some(addr(5, 5)), 2));
}

#[test]
fn cleanup_drops_idle_sessions_and_addresses() {
    let mut k = kitty();
    let (_, a) = k.fetch_session_with(Some("a".to_string()), 0, 0);
    let (_, b) = k.fetch_session_with(Some("b".to_string()), 0, 0);
    assert!(k.settle_exit(a, Some(addr(1, 1)), 1_000));
    assert!(k.settle_exit(b, Some(addr(2, 2)), 15_000));
    k.release_session(a);
    k.release_session(b);
    k.cleanup(10_999);
    assert_eq!(k.session_reports(10_999).len(), 2);
    k.cleanup(11_000);
    let reports = k.session_reports(11_000);
    assert_eq!(reports.len(), 1);
    assert_eq!(session_token(&reports[0].token), Some("b"));
    // The address of the dropped session stays committed until its own lifetime passes.
    assert!(!k.commit_address(addr(1, 1)));
    k.cleanup(21_000);
    assert!(k.commit_address(addr(1, 1)));
    assert!(!k.commit_address(addr(2, 2)));
    k.cleanup(35_000);
    assert!(k.session_reports(35_000).is_empty());
    assert!(k.commit_address(addr(2, 2)));
}

#[test]
fn held_session_survives_cleanup() {
    let mut k = kitty();
    let (_, a) = k.fetch_session_with(Some("a".to_string()), 0, 0);
    k.cleanup(50_000);
    assert!(k.session_reports(50_000).is_empty());
    // The connection still holds the session and may commit its exit.
    assert!(k.settle_exit(a, Some(addr(9, 9)), 50_001));
    assert!(!k.commit_address(addr(9, 9)));
    k.release_session(a);
    assert!(!k.commit_address(addr(9, 9)));
}

#[test]
fn elapsed_time_saturates() {
    let mut k = kitty();
    let (_, a) = k.fetch_session_with(Some("a".to_string()), 500, 0);
    assert_eq!(k.session_reports(100)[0].lifetime, 0);
    k.release_session(a);
    k.cleanup(100);
    assert_eq!(k.session_reports(100).len(), 1);
}

#[test]
fn destroy_self_drops_the_session_and_keeps_its_exit() {
    let mut k = kitty();
    let (_, a) = k.fetch_session_with(Some("me".to_string()), 0, 0);
    let (_, b) = k.fetch_session_with(Some("you".to_string()), 0, 0);
    assert!(k.settle_exit(a, Some(addr(7, 7)), 1));
    k.release_session(a);
    k.release_session(b);
    let r = process_command(&mut k, Command::DestroySelf { token: "me".to_string() }, 2);
    assert!(matches!(r, Ok(Message::Unit)));
    assert_eq!(status_code(&r), 200);
    let reports = k.session_reports(2);
    assert_eq!(reports.len(), 1);
    assert_eq!(session_token(&reports[0].token), Some("you"));
    // The exit stays committed to the destroyed session until the address lifetime passes.
    assert!(!k.commit_address(addr(7, 7)));
    k.cleanup(20_001);
    assert!(k.commit_address(addr(7, 7)));
    let r = process_command(&mut k, Command::DestroySelf { token: "me".to_string() }, 3);
    assert!(matches!(r, Err(Error::SessionNotFound)));
    assert_eq!(status_code(&r), 404);
}

#[test]
fn address_timeout_command() {
    let mut k = kitty();
    let (_, a) = k.fetch_session_with(Some("me".to_string()), 0, 0);
    assert!(k.settle_exit(a, Some(addr(3, 3)), 0));
    let r = process_command(&mut k, Command::AddressTimeout { token: "me".to_string() }, 1);
    assert!(matches!(r, Ok(Message::Unit)));
    assert_eq!(status_code(&r), 200);
    let r = process_command(&mut k, Command::AddressTimeout { token: "you".to_string() }, 1);
    assert!(matches!(r, Err(Error::SessionNotFound)));
}

#[test]
fn get_sessions_lists_every_session() {
    let mut k = kitty();
    k.fetch_session_with(Some("a".to_string()), 0, 0);
    k.fetch_session_with(None, 0, 42);
    match process_command(&mut k, Command::GetSessions { pretty: true }, 10) {
        Ok(Message::Sessions { pretty, sessions }) => {
            assert!(pretty);
            assert_eq!(sessions.len(), 2);
            assert!(sessions.iter().all(|s| s.lifetime == 10 && s.addr.is_none()));
        }
        other => panic!("{:?}", other),
    }
    assert_eq!(status_code(&Err(Error::SerializeError)), 500);
    assert_eq!(BAD_REQUEST, 400);
    assert_eq!(SESSION_NOT_FOUND_BODY, "Requested session token is not registered yet!");
}

fn run(r: Option<ApiRequest>) -> Option<Command> {
    match r {
        Some(ApiRequest::Run(c)) => Some(c),
        Some(ApiRequest::BadRequest) => None,
        None => panic!("unparseable"),
    }
}

#[test]
fn api_requests_are_read_from_the_url() {
    let c = run(read_api_request("http://api.kittykat.hook/sessions", None));
    assert!(matches!(c, Some(Command::GetSessions { pretty: false })));
    let c = run(read_api_request("http://api.kittykat.hook/sessions?pretty=true", None));
    assert!(matches!(c, Some(Command::GetSessions { pretty: true })));
    let c = run(read_api_request("http://api.kittykat.hook/sessions?pretty=false&pretty=true", None));
    assert!(matches!(c, Some(Command::GetSessions { pretty: true })));
    let c = run(read_api_request("http://api.kittykat.hook/sessions?pretty=%74rue", None));
    assert!(matches!(c, Some(Command::GetSessions { pretty: true })));
    assert!(run(read_api_request("http://api.kittykat.hook/sessions?pretty=yes", None)).is_none());
    assert!(run(read_api_request("http://api.kittykat.hook/other", Some("t".into()))).is_none());
    assert!(run(read_api_request("http://api.kittykat.hook/self/destroy", None)).is_none());
    match run(read_api_request("http://api.kittykat.hook/self/destroy", Some("Basic abc".into()))) {
        Some(Command::DestroySelf { token }) => assert_eq!(token, "Basic abc"),
        other => panic!("{:?}", other),
    }
    match run(read_api_request("http://api.kittykat.hook/self/address/timeout?x=1", Some("t".into()))) {
        Some(Command::AddressTimeout { token }) => assert_eq!(token, "t"),
        other => panic!("{:?}", other),
    }
    assert!(read_api_request("not a url", None).is_none());
}

#[test]
fn api_commands_from_parts() {
    let q = vec![("pretty".to_string(), "true".to_string())];
    assert!(matches!(api_command("/sessions", &q, None), ApiRequest::Run(Command::GetSessions { pretty: true })));
    assert!(matches!(api_command("/sessions/", &q, None), ApiRequest::BadRequest));
}

#[test]
fn tokens_come_from_the_proxy_authorization_header() {
    assert_eq!(extract_token(None), None);
    assert_eq!(extract_token(Some(b"Basic Y2F0OmdvZXMgbWVvdw==")), Some("Basic Y2F0OmdvZXMgbWVvdw==".to_string()));
    assert_eq!(extract_token(Some(b"a\tb c")), Some("a\tb c".to_string()));
    assert_eq!(extract_token(Some(b"caf\xc3\xa9")), None);
    assert_eq!(extract_token(Some(b"a\x7fb")), None);
    assert_eq!(extract_token(Some(b"")), Some(String::new()));
}

#[test]
fn stream_address_is_the_first_ipv4_of_the_last_hop() {
    assert_eq!(get_stream_address(None), None);
    assert_eq!(get_stream_address(Some(&vec![])), None);
    assert_eq!(get_stream_address(Some(&vec![RelayAddr::V6])), None);
    assert_eq!(
        get_stream_address(Some(&vec![RelayAddr::V6, RelayAddr::V4(addr(1, 2)), RelayAddr::V4(addr(3, 4))])),
        Some(addr(1, 2))
    );
}

#[test]
fn small_helpers() {
    assert_eq!(target_port(None, true), 443);
    assert_eq!(target_port(None, false), 80);
    assert_eq!(target_port(Some(8080), true), 8080);
    assert_eq!(forward_path(None), "/");
    assert_eq!(forward_path(Some("/a?b=c")), "/a?b=c");
    assert_eq!(bad_gateway_body("timeout"), "Tor connection failed: timeout\n");
    assert_eq!(task_pool_bound(4), 9);
    assert_eq!(session_token(&Token::from_str("x").duplicate()), Some("x"));
}

#[test]
fn cleanup_twice_is_cleanup_once() {
    let mut k = kitty();
    let (_, a) = k.fetch_session_with(Some("a".to_string()), 0, 0);
    let (_, b) = k.fetch_session_with(Some("b".to_string()), 9_000, 0);
    assert!(k.settle_exit(a, Some(addr(1, 1)), 0));
    k.release_session(a);
    k.release_session(b);
    k.cleanup(12_000);
    let once = k.session_reports(12_000).len();
    let committed = k.commit_address(addr(1, 1));
    k.cleanup(12_000);
    assert_eq!(k.session_reports(12_000).len(), once);
    assert_eq!(k.commit_address(addr(1, 1)), committed);
    assert_eq!(once, 1);
}

#[test]
fn live_sessions() {
    let mut k = kitty();
    let (_, a) = k.fetch_session_with(Some("a".to_string()), 0, 0);
    assert!(k.is_live(a));
    k.cleanup(60_000);
    assert!(k.is_live(a));
    k.release_session(a);
    assert!(!k.is_live(a));
    assert!(k.has_capacity());
    assert_eq!(k.preferences().session_lifetime, 10_000);
}

#[test]
fn connect_attempts_count_down() {
    assert_eq!(first_attempt(0), ConnectStep::Exhausted);
    assert_eq!(first_attempt(32), ConnectStep::Attempt(32));
    assert_eq!(after_attempt(32, false), ConnectStep::Attempt(31));
    assert_eq!(after_attempt(1, false), ConnectStep::Exhausted);
    assert_eq!(after_attempt(1, true), ConnectStep::Kept);
    let mut step = first_attempt(10);
    let mut attempts = 0;
    while let ConnectStep::Attempt(r) = step {
        attempts += 1;
        step = after_attempt(r, false);
    }
    assert_eq!(attempts, 10);
}

#[test]
fn forwarded_headers_take_the_target_host() {
    let h = |n: &str, v: &str| (n.to_string(), v.as_bytes().to_vec());
    let host = b"example.com".to_vec();
    assert_eq!(
        forward_headers(&vec![h("accept", "*/*"), h("host", "old"), h("x", "1"), h("host", "older")], &host),
        vec![h("accept", "*/*"), h("host", "example.com"), h("x", "1")]
    );
    assert_eq!(forward_headers(&vec![h("accept", "*/*")], &host), vec![h("accept", "*/*"), h("host", "example.com")]);
    assert_eq!(forward_headers(&vec![], &host), vec![h("host", "example.com")]);
}
