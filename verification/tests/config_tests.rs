use kittykat::config::{
    default_address_timeout, default_circuit_dirtiness, default_session_lifetime,
    environment_config, names_any_setting, Config, Error, Level, LISTEN_ADDRESS,
};
use kittykat::net::{parse_socket_addr, Ipv4SocketAddr};
use kittykat::text::{parse_bool, parse_u64};

fn env(pairs: &[(&str, &str)]) -> Vec<(String, String)> {
    pairs.iter().map(|(k, v)| (k.to_string(), v.to_string())).collect()
}

fn parse_error(r: Result<Config, Error>) -> String {
    match r {
        Err(Error::ParseError(msg)) => msg,
        other => panic!("expected a parse error, got {:?}", other),
    }
}

#[test]
fn defaults_are_ten_twenty_and_fifteen_seconds() {
    assert_eq!(default_session_lifetime(), 10_000);
    assert_eq!(default_address_timeout(), 20_000);
    assert_eq!(default_circuit_dirtiness(), 15_000);
}

#[test]
fn u64_grammar() {
    assert_eq!(parse_u64("42"), Some(42));
    assert_eq!(parse_u64("+42"), Some(42));
    assert_eq!(parse_u64("007"), Some(7));
    assert_eq!(parse_u64("18446744073709551615"), Some(u64::MAX));
    assert_eq!(parse_u64("18446744073709551616"), None);
    assert_eq!(parse_u64("99999999999999999999"), None);
    assert_eq!(parse_u64(""), None);
    assert_eq!(parse_u64("+"), None);
    assert_eq!(parse_u64("-1"), None);
    assert_eq!(parse_u64("4a"), None);
    assert_eq!(parse_u64(" 4"), None);
    for s in ["0", "1", "65535", "123456789", "+0", "12a", "++1", "18446744073709551615", "184467440737095516150"] {
        assert_eq!(parse_u64(s), s.parse::<u64>().ok(), "{}", s);
    }
}

#[test]
fn bool_grammar() {
    assert_eq!(parse_bool("true"), Some(true));
    assert_eq!(parse_bool("false"), Some(false));
    assert_eq!(parse_bool("True"), None);
    assert_eq!(parse_bool("1"), None);
    assert_eq!(parse_bool(""), None);
}

#[test]
fn socket_address_grammar() {
    assert_eq!(
        parse_socket_addr("127.0.0.1:8118"),
        Some(Ipv4SocketAddr { ip: 0x7f00_0001, port: 8118 })
    );
    assert_eq!(
        parse_socket_addr("255.255.255.255:65535"),
        Some(Ipv4SocketAddr { ip: u32::MAX, port: 65535 })
    );
    assert_eq!(parse_socket_addr("10.0.0.1:0080"), Some(Ipv4SocketAddr { ip: 0x0a00_0001, port: 80 }));
    for s in [
        "01.2.3.4:80",
        "256.1.1.1:80",
        "1.2.3:80",
        "1.2.3.4",
        "1.2.3.4:",
        "1.2.3.4:65536",
        " 1.2.3.4:80",
        "1.2.3.4:80 ",
        "1.2.3.4.5:80",
        "1..3.4:80",
        "1.2.3.4:+80",
        "0000.1.1.1:80",
        "localhost:80",
    ] {
        assert_eq!(parse_socket_addr(s), None, "{}", s);
    }
    assert_eq!(parse_socket_addr("0.0.0.0:0"), Some(Ipv4SocketAddr { ip: 0, port: 0 }));
    assert_eq!(parse_socket_addr("8.8.8.8:53"), Some(Ipv4SocketAddr { ip: 0x0808_0808, port: 53 }));
    assert_eq!(parse_socket_addr("192.168.001.1:80"), None);
    assert_eq!(parse_socket_addr("00.1.1.1:1"), None);
    assert_eq!(
        parse_socket_addr("1.2.3.4:00000000000000080"),
        Some(Ipv4SocketAddr { ip: 0x0102_0304, port: 80 })
    );
}

#[test]
fn level_names() {
    assert_eq!(Level::from_str("trace"), Ok(Level::Trace));
    assert_eq!(Level::from_str("debug"), Ok(Level::Debug));
    assert_eq!(Level::from_str("info"), Ok(Level::Info));
    assert_eq!(Level::from_str("warn"), Ok(Level::Warn));
    assert_eq!(Level::from_str("error"), Ok(Level::Error));
    assert_eq!(Level::from_str("INFO"), Err(()));
    assert_eq!(Level::default(), Level::Info);
}

#[test]
fn from_env_requires_the_listen_address() {
    let r = Config::from_env(&env(&[("KITTYKAT_LOG", "debug")]));
    let e = r.unwrap_err();
    assert_eq!(e.message(), "missing environment variable: KITTYKAT_LISTEN_ADDRESS");
    match e {
        Error::MissingEnvironmentVariable(name) => assert_eq!(name, LISTEN_ADDRESS),
        other => panic!("{:?}", other),
    }
}

#[test]
fn from_env_fills_in_defaults() {
    let c = Config::from_env(&env(&[("KITTYKAT_LISTEN_ADDRESS", "127.0.0.1:8118")])).unwrap();
    assert_eq!(c.listen_address, Ipv4SocketAddr { ip: 0x7f00_0001, port: 8118 });
    assert_eq!(c.session_lifetime(), 10_000);
    assert_eq!(c.address_timeout(), 20_000);
    assert!(!c.optimistic_stream);
    assert_eq!(c.log_level(), Level::Info);
    assert_eq!(c.max_circuit_dirtiness(), 15_000);
}

#[test]
fn from_env_reads_every_setting() {
    let c = Config::from_env(&env(&[
        ("KITTYKAT_LISTEN_ADDRESS", "0.0.0.0:3128"),
        ("KITTYKAT_TOKEN_LIFETIME", "5000"),
        ("KITTYKAT_ADDRESS_TIMEOUT", "+7000"),
        ("KITTYKAT_OPTIMISTIC", "true"),
        ("KITTYKAT_LOG", "warn"),
        ("KITTYKAT_MAX_CIRC_DIRT", "60000"),
        ("PATH", "/usr/bin"),
    ]))
    .unwrap();
    assert_eq!(
        c,
        Config::new(Ipv4SocketAddr { ip: 0, port: 3128 }, 5000, 7000, true, Level::Warn, 60000)
    );
}

#[test]
fn from_env_last_binding_wins() {
    let c = Config::from_env(&env(&[
        ("KITTYKAT_LISTEN_ADDRESS", "bad"),
        ("KITTYKAT_LISTEN_ADDRESS", "1.1.1.1:1"),
    ]))
    .unwrap();
    assert_eq!(c.listen_address, Ipv4SocketAddr { ip: 0x0101_0101, port: 1 });
}

#[test]
fn from_env_error_messages() {
    let base = ("KITTYKAT_LISTEN_ADDRESS", "127.0.0.1:8118");
    assert_eq!(
        parse_error(Config::from_env(&env(&[("KITTYKAT_LISTEN_ADDRESS", "nope")]))),
        "listen address \"nope\" could not be parsed"
    );
    assert_eq!(
        parse_error(Config::from_env(&env(&[base, ("KITTYKAT_TOKEN_LIFETIME", "10s")]))),
        "session lifetime \"10s\" could not be parsed as an integer"
    );
    assert_eq!(
        parse_error(Config::from_env(&env(&[base, ("KITTYKAT_ADDRESS_TIMEOUT", "-1")]))),
        "address lifetime \"-1\" could not be parsed as an integer"
    );
    assert_eq!(
        parse_error(Config::from_env(&env(&[base, ("KITTYKAT_OPTIMISTIC", "yes")]))),
        "value \"yes\" for optimistic stream could not be parsed as a boolean"
    );
    assert_eq!(
        parse_error(Config::from_env(&env(&[base, ("KITTYKAT_LOG", "loud")]))),
        "expected the log level to be one of: [trace, debug, info, warn, error], but got \"loud\" instead"
    );
    assert_eq!(
        parse_error(Config::from_env(&env(&[base, ("KITTYKAT_MAX_CIRC_DIRT", "")]))),
        "max circuit dirtiness \"\" could not be parsed as an integer"
    );
    // The first unreadable setting in field order is reported.
    assert_eq!(
        parse_error(Config::from_env(&env(&[
            base,
            ("KITTYKAT_LOG", "loud"),
            ("KITTYKAT_TOKEN_LIFETIME", "x")
        ]))),
        "session lifetime \"x\" could not be parsed as an integer"
    );
    let e = Error::ParseError("boom".to_string());
    assert_eq!(e.message(), "boom");
}

#[test]
fn environment_wins_when_it_names_a_setting() {
    assert!(environment_config(&env(&[("HOME", "/root")])).is_none());
    // The address timeout alone does not make the environment the source.
    assert!(environment_config(&env(&[("KITTYKAT_ADDRESS_TIMEOUT", "5000")])).is_none());
    assert!(!names_any_setting(&env(&[])));
    match environment_config(&env(&[("KITTYKAT_OPTIMISTIC", "true")])) {
        Some(Err(Error::MissingEnvironmentVariable(_))) => {}
        other => panic!("{:?}", other),
    }
    match environment_config(&env(&[("KITTYKAT_LISTEN_ADDRESS", "1.2.3.4:5")])) {
        Some(Ok(c)) => assert_eq!(c.listen_address.port, 5),
        other => panic!("{:?}", other),
    }
}
