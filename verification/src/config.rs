//! Configuration of the proxy: read from the process environment here; the
//! TOML file form is read by the binary and handed over through [`Config::new`].

use vstd::prelude::*;
use crate::net::{parse_socket_addr, spec_parse_socket_addr, Ipv4SocketAddr};
use crate::text::{
    find_last, join3, lookup_last, pairs_view, parse_bool, parse_u64, same_text, spec_parse_bool,
    spec_parse_u64,
};

verus! {

broadcast use vstd::string::group_string_axioms;

/// The configuration file read when the environment names no setting.
pub const CONFIG_FILE: &'static str = "kittykat.toml";

/// The environment variables that the settings are read from.
pub const LISTEN_ADDRESS: &'static str = "KITTYKAT_LISTEN_ADDRESS";
pub const TOKEN_LIFETIME: &'static str = "KITTYKAT_TOKEN_LIFETIME";
pub const ADDRESS_TIMEOUT: &'static str = "KITTYKAT_ADDRESS_TIMEOUT";
pub const OPTIMISTIC_STREAM: &'static str = "KITTYKAT_OPTIMISTIC";
pub const LOG_LEVEL: &'static str = "KITTYKAT_LOG";
pub const MAX_CIRCUIT_DIRTINESS: &'static str = "KITTYKAT_MAX_CIRC_DIRT";

/// Verbosity of the log.
#[derive(Clone, Copy, Debug, PartialEq, Eq, Structural)]
pub enum Level {
    Trace,
    Debug,
    Info,
    Warn,
    Error,
}

/// The level named by `s` (lower case), if any.
pub open spec fn spec_level(s: Seq<char>) -> Option<Level> {
    if s == "trace"@ {
        Some(Level::Trace)
    } else if s == "debug"@ {
        Some(Level::Debug)
    } else if s == "info"@ {
        Some(Level::Info)
    } else if s == "warn"@ {
        Some(Level::Warn)
    } else if s == "error"@ {
        Some(Level::Error)
    } else {
        None
    }
}

impl Level {
    /// Reads a level from its lower-case name.
    pub fn from_str(s: &str) -> (res: Result<Level, ()>)
        ensures
            match spec_level(s@) {
                Some(l) => res == Ok::<Level, ()>(l),
                None => res is Err,
            },
    {
        if same_text(s, "trace") {
            Ok(Level::Trace)
        } else if same_text(s, "debug") {
            Ok(Level::Debug)
        } else if same_text(s, "info") {
            Ok(Level::Info)
        } else if same_text(s, "warn") {
            Ok(Level::Warn)
        } else if same_text(s, "error") {
            Ok(Level::Error)
        } else {
            Err(())
        }
    }
}

impl Default for Level {
    fn default() -> (res: Level)
        ensures
            res == Level::Info,
    {
        Level::Info
    }
}

/// Why no configuration could be read from the environment.
#[derive(Debug, Clone)]
pub enum Error {
    MissingEnvironmentVariable(&'static str),
    ParseError(String),
}

/// An [`Error`] as text values.
pub enum ErrorView {
    MissingEnvironmentVariable(Seq<char>),
    ParseError(Seq<char>),
}

impl View for Error {
    type V = ErrorView;

    open spec fn view(&self) -> ErrorView {
        match self {
            Error::MissingEnvironmentVariable(name) => ErrorView::MissingEnvironmentVariable(name@),
            Error::ParseError(msg) => ErrorView::ParseError(msg@),
        }
    }
}

impl Error {
    /// The text shown for the error.
    pub fn message(&self) -> (res: String)
        ensures
            res@ == match self@ {
                ErrorView::MissingEnvironmentVariable(name) => "missing environment variable: "@
                    + name,
                ErrorView::ParseError(msg) => msg,
            },
    {
        match self {
            Error::MissingEnvironmentVariable(name) => {
                let mut text = "missing environment variable: ".to_owned();
                text.append(name);
                text
            },
            Error::ParseError(msg) => msg.clone(),
        }
    }
}

/// The proxy's settings.  Times are in milliseconds.
#[derive(Clone, Copy, Debug, PartialEq, Eq, Structural)]
pub struct Config {
    pub listen_address: Ipv4SocketAddr,
    pub session_lifetime: u64,
    pub address_timeout: u64,
    pub optimistic_stream: bool,
    pub log_level: Level,
    pub max_circuit_dirtiness: u64,
}

/// Default time-to-live of a session, in milliseconds.
pub open spec fn spec_default_session_lifetime() -> u64 {
    10_000
}

/// Default time an exit address stays committed to a session, in milliseconds.
pub open spec fn spec_default_address_timeout() -> u64 {
    20_000
}

/// Default maximal dirtiness of a Tor circuit, in milliseconds.
pub open spec fn spec_default_circuit_dirtiness() -> u64 {
    15_000
}

#[verifier::when_used_as_spec(spec_default_session_lifetime)]
pub fn default_session_lifetime() -> (res: u64)
    ensures
        res == spec_default_session_lifetime(),
{
    10_000
}

#[verifier::when_used_as_spec(spec_default_address_timeout)]
pub fn default_address_timeout() -> (res: u64)
    ensures
        res == spec_default_address_timeout(),
        res == 2 * spec_default_session_lifetime(),
{
    default_session_lifetime() * 2
}

#[verifier::when_used_as_spec(spec_default_circuit_dirtiness)]
pub fn default_circuit_dirtiness() -> (res: u64)
    ensures
        res == spec_default_circuit_dirtiness(),
{
    15_000
}

/// A setting whose text failed to parse: `prefix`, the text, then `suffix`.
pub open spec fn bad_value(prefix: Seq<char>, v: Seq<char>, suffix: Seq<char>) -> ErrorView {
    ErrorView::ParseError(prefix + v + suffix)
}

/// The text after the value in the messages for integer settings.
pub open spec fn not_an_integer() -> Seq<char> {
    "\" could not be parsed as an integer"@
}

/// An integer setting: `default` when unset.
pub open spec fn integer_setting(
    env: Seq<(Seq<char>, Seq<char>)>,
    name: Seq<char>,
    default: u64,
    prefix: Seq<char>,
) -> Result<u64, ErrorView> {
    match lookup_last(env, name) {
        None => Ok(default),
        Some(v) => match spec_parse_u64(v) {
            Some(n) => Ok(n),
            None => Err(bad_value(prefix, v, not_an_integer())),
        },
    }
}

/// The listen address, which must be set.
pub open spec fn address_setting(env: Seq<(Seq<char>, Seq<char>)>) -> Result<Ipv4SocketAddr, ErrorView> {
    match lookup_last(env, LISTEN_ADDRESS@) {
        None => Err(ErrorView::MissingEnvironmentVariable(LISTEN_ADDRESS@)),
        Some(v) => match spec_parse_socket_addr(v) {
            Some(a) => Ok(a),
            None => Err(bad_value("listen address \""@, v, "\" could not be parsed"@)),
        },
    }
}

/// Whether to open optimistic streams: `false` when unset.
pub open spec fn optimistic_setting(env: Seq<(Seq<char>, Seq<char>)>) -> Result<bool, ErrorView> {
    match lookup_last(env, OPTIMISTIC_STREAM@) {
        None => Ok(false),
        Some(v) => match spec_parse_bool(v) {
            Some(b) => Ok(b),
            None => Err(
                bad_value(
                    "value \""@,
                    v,
                    "\" for optimistic stream could not be parsed as a boolean"@,
                ),
            ),
        },
    }
}

/// Optimistic streams are on exactly when the last binding of
/// `KITTYKAT_OPTIMISTIC` is `true`: a configuration read from the
/// environment has them off when the variable is `false` or unset, and any
/// other value makes reading the environment fail.
pub proof fn law_optimistic_flag(env: Seq<(Seq<char>, Seq<char>)>)
    ensures
        ({
            let v = lookup_last(env, OPTIMISTIC_STREAM@);
            &&& (spec_from_env(env) matches Ok(c) ==> c.optimistic_stream == (v == Some("true"@)))
            &&& !(v is None || v == Some("true"@) || v == Some("false"@)) ==> spec_from_env(env) is Err
        }),
{
    reveal_strlit("true");
    reveal_strlit("false");
}

/// Reading the environment succeeds exactly when the listen address is set
/// to a socket address and every other setting is unset or readable; then
/// each field is the value of its variable's last binding, or its default
/// when the variable is unset (10 s token lifetime, 20 s address timeout,
/// log level `info`, 15 s circuit dirtiness).
pub proof fn law_env_settings(env: Seq<(Seq<char>, Seq<char>)>)
    ensures
        ({
            let la = lookup_last(env, LISTEN_ADDRESS@);
            let tl = lookup_last(env, TOKEN_LIFETIME@);
            let at = lookup_last(env, ADDRESS_TIMEOUT@);
            let op = lookup_last(env, OPTIMISTIC_STREAM@);
            let lv = lookup_last(env, LOG_LEVEL@);
            let cd = lookup_last(env, MAX_CIRCUIT_DIRTINESS@);
            &&& spec_from_env(env) is Ok <==> {
                &&& la matches Some(v) && spec_parse_socket_addr(v) is Some
                &&& (tl matches Some(v) ==> spec_parse_u64(v) is Some)
                &&& (at matches Some(v) ==> spec_parse_u64(v) is Some)
                &&& (op matches Some(v) ==> spec_parse_bool(v) is Some)
                &&& (lv matches Some(v) ==> spec_level(v) is Some)
                &&& (cd matches Some(v) ==> spec_parse_u64(v) is Some)
            }
            &&& spec_from_env(env) matches Ok(c) ==> {
                &&& la matches Some(v) && spec_parse_socket_addr(v) == Some(c.listen_address)
                &&& match tl {
                    None => c.session_lifetime == 10_000,
                    Some(v) => spec_parse_u64(v) == Some(c.session_lifetime),
                }
                &&& match at {
                    None => c.address_timeout == 20_000,
                    Some(v) => spec_parse_u64(v) == Some(c.address_timeout),
                }
                &&& match lv {
                    None => c.log_level == Level::Info,
                    Some(v) => spec_level(v) == Some(c.log_level),
                }
                &&& match cd {
                    None => c.max_circuit_dirtiness == 15_000,
                    Some(v) => spec_parse_u64(v) == Some(c.max_circuit_dirtiness),
                }
            }
        }),
{
}

/// The log level: `info` when unset.
pub open spec fn level_setting(env: Seq<(Seq<char>, Seq<char>)>) -> Result<Level, ErrorView> {
    match lookup_last(env, LOG_LEVEL@) {
        None => Ok(Level::Info),
        Some(v) => match spec_level(v) {
            Some(l) => Ok(l),
            None => Err(
                bad_value(
                    "expected the log level to be one of: [trace, debug, info, warn, error], but got \""@,
                    v,
                    "\" instead"@,
                ),
            ),
        },
    }
}

/// The configuration that the environment describes: the settings are read
/// in the order of the fields, and the first one that is missing (only the
/// listen address must be present) or unreadable is the error.
pub open spec fn spec_from_env(env: Seq<(Seq<char>, Seq<char>)>) -> Result<Config, ErrorView> {
    match address_setting(env) {
        Err(e) => Err(e),
        Ok(listen_address) => match integer_setting(
            env,
            TOKEN_LIFETIME@,
            spec_default_session_lifetime(),
            "session lifetime \""@,
        ) {
            Err(e) => Err(e),
            Ok(session_lifetime) => match integer_setting(
                env,
                ADDRESS_TIMEOUT@,
                spec_default_address_timeout(),
                "address lifetime \""@,
            ) {
                Err(e) => Err(e),
                Ok(address_timeout) => match optimistic_setting(env) {
                    Err(e) => Err(e),
                    Ok(optimistic_stream) => match level_setting(env) {
                        Err(e) => Err(e),
                        Ok(log_level) => match integer_setting(
                            env,
                            MAX_CIRCUIT_DIRTINESS@,
                            spec_default_circuit_dirtiness(),
                            "max circuit dirtiness \""@,
                        ) {
                            Err(e) => Err(e),
                            Ok(max_circuit_dirtiness) => Ok(
                                Config {
                                    listen_address,
                                    session_lifetime,
                                    address_timeout,
                                    optimistic_stream,
                                    log_level,
                                    max_circuit_dirtiness,
                                },
                            ),
                        },
                    },
                },
            },
        },
    }
}

/// The result of a configuration read, as values.
pub open spec fn result_view(r: Result<Config, Error>) -> Result<Config, ErrorView> {
    match r {
        Ok(c) => Ok(c),
        Err(e) => Err(e@),
    }
}

/// Names of the settings whose presence makes the environment the source of
/// the configuration: those the documentation lists (the address timeout,
/// read as well, is not among them).
pub open spec fn setting_names() -> Seq<Seq<char>> {
    seq![
        LISTEN_ADDRESS@,
        TOKEN_LIFETIME@,
        OPTIMISTIC_STREAM@,
        LOG_LEVEL@,
        MAX_CIRCUIT_DIRTINESS@,
    ]
}

/// The environment sets at least one setting.
pub open spec fn names_a_setting(env: Seq<(Seq<char>, Seq<char>)>) -> bool {
    exists|k: int| 0 <= k < setting_names().len() && lookup_last(env, setting_names()[k]) is Some
}

fn read_integer(
    vars: &Vec<(String, String)>,
    name: &str,
    default: u64,
    prefix: &str,
) -> (res: Result<u64, Error>)
    ensures
        match integer_setting(pairs_view(vars@), name@, default, prefix@) {
            Ok(n) => res == Ok::<u64, Error>(n),
            Err(e) => res matches Err(r) && r@ == e,
        },
{
    match find_last(vars, name) {
        None => Ok(default),
        Some(v) => match parse_u64(v.as_str()) {
            Some(n) => Ok(n),
            None => Err(
                Error::ParseError(join3(prefix, v.as_str(), "\" could not be parsed as an integer")),
            ),
        },
    }
}

impl Config {
    /// A configuration with the given settings.
    pub fn new(
        listen_address: Ipv4SocketAddr,
        session_lifetime: u64,
        address_timeout: u64,
        optimistic_stream: bool,
        log_level: Level,
        max_circuit_dirtiness: u64,
    ) -> (res: Config)
        ensures
            res == (Config {
                listen_address,
                session_lifetime,
                address_timeout,
                optimistic_stream,
                log_level,
                max_circuit_dirtiness,
            }),
    {
        Config {
            listen_address,
            session_lifetime,
            address_timeout,
            optimistic_stream,
            log_level,
            max_circuit_dirtiness,
        }
    }

    /// Reads the configuration from the environment `vars` (name, value pairs).
    pub fn from_env(vars: &Vec<(String, String)>) -> (res: Result<Config, Error>)
        ensures
            result_view(res) == spec_from_env(pairs_view(vars@)),
    {
        let listen_address = match find_last(vars, LISTEN_ADDRESS) {
            None => {
                return Err(Error::MissingEnvironmentVariable(LISTEN_ADDRESS));
            },
            Some(v) => match parse_socket_addr(v.as_str()) {
                Some(a) => a,
                None => {
                    return Err(
                        Error::ParseError(
                            join3("listen address \"", v.as_str(), "\" could not be parsed"),
                        ),
                    );
                },
            },
        };
        let session_lifetime = match read_integer(
            vars,
            TOKEN_LIFETIME,
            default_session_lifetime(),
            "session lifetime \"",
        ) {
            Ok(n) => n,
            Err(e) => {
                return Err(e);
            },
        };
        let address_timeout = match read_integer(
            vars,
            ADDRESS_TIMEOUT,
            default_address_timeout(),
            "address lifetime \"",
        ) {
            Ok(n) => n,
            Err(e) => {
                return Err(e);
            },
        };
        let optimistic_stream = match find_last(vars, OPTIMISTIC_STREAM) {
            None => false,
            Some(v) => match parse_bool(v.as_str()) {
                Some(b) => b,
                None => {
                    return Err(
                        Error::ParseError(
                            join3(
                                "value \"",
                                v.as_str(),
                                "\" for optimistic stream could not be parsed as a boolean",
                            ),
                        ),
                    );
                },
            },
        };
        let log_level = match find_last(vars, LOG_LEVEL) {
            None => Level::Info,
            Some(v) => match Level::from_str(v.as_str()) {
                Ok(l) => l,
                Err(()) => {
                    return Err(
                        Error::ParseError(
                            join3(
                                "expected the log level to be one of: [trace, debug, info, warn, error], but got \"",
                                v.as_str(),
                                "\" instead",
                            ),
                        ),
                    );
                },
            },
        };
        let max_circuit_dirtiness = match read_integer(
            vars,
            MAX_CIRCUIT_DIRTINESS,
            default_circuit_dirtiness(),
            "max circuit dirtiness \"",
        ) {
            Ok(n) => n,
            Err(e) => {
                return Err(e);
            },
        };
        Ok(
            Config {
                listen_address,
                session_lifetime,
                address_timeout,
                optimistic_stream,
                log_level,
                max_circuit_dirtiness,
            },
        )
    }

    /// Time-to-live of a session that is not used, in milliseconds.
    pub fn session_lifetime(&self) -> (res: u64)
        ensures
            res == self.session_lifetime,
    {
        self.session_lifetime
    }

    /// How long an exit address stays committed to a session, in milliseconds.
    pub fn address_timeout(&self) -> (res: u64)
        ensures
            res == self.address_timeout,
    {
        self.address_timeout
    }

    /// The configured log level.
    pub fn log_level(&self) -> (res: Level)
        ensures
            res == self.log_level,
    {
        self.log_level
    }

    /// Maximal dirtiness of a Tor circuit, in milliseconds.
    pub fn max_circuit_dirtiness(&self) -> (res: u64)
        ensures
            res == self.max_circuit_dirtiness,
    {
        self.max_circuit_dirtiness
    }
}

/// Whether the environment sets any of the settings in [`setting_names`].
pub fn names_any_setting(vars: &Vec<(String, String)>) -> (res: bool)
    ensures
        res == names_a_setting(pairs_view(vars@)),
{
    let names: [&str; 5] = [
        LISTEN_ADDRESS,
        TOKEN_LIFETIME,
        OPTIMISTIC_STREAM,
        LOG_LEVEL,
        MAX_CIRCUIT_DIRTINESS,
    ];
    let mut k: usize = 0;
    while k < 5
        invariant
            k <= 5,
            forall|j: int| 0 <= j < 5 ==> (#[trigger] names@[j])@ == setting_names()[j],
            forall|j: int| 0 <= j < k ==> lookup_last(pairs_view(vars@), #[trigger] setting_names()[j]) is None,
        decreases 5 - k,
    {
        if find_last(vars, names[k]).is_some() {
            return true;
        }
        k = k + 1;
    }
    false
}

/// Where the configuration comes from: when the environment sets any of
/// the settings in [`setting_names`], from the environment alone (and then the listen address must be
/// among them); otherwise `None`, and the configuration file is read.
pub fn environment_config(vars: &Vec<(String, String)>) -> (res: Option<Result<Config, Error>>)
    ensures
        match res {
            None => !names_a_setting(pairs_view(vars@)),
            Some(r) => names_a_setting(pairs_view(vars@)) && result_view(r) == spec_from_env(
                pairs_view(vars@),
            ),
        },
{
    if names_any_setting(vars) {
        Some(Config::from_env(vars))
    } else {
        None
    }
}

} // verus!
