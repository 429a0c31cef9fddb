pub mod logger;

use vstd::prelude::*;

use crate::config::logger::{LogFormat, LoggerConfig, format_named};
use crate::handler;
use crate::scylla;

verus! {

/// Everything the service reads from its environment.
#[derive(Debug, Clone)]
pub struct Config {
    pub handler: handler::config::Config,
    pub scylla: scylla::config::Config,
    pub logger: LoggerConfig,
}

/// Why the environment gives no configuration.
#[derive(Debug, Clone)]
pub enum ConfigError {
    /// A required variable is not set.
    EnvVarMissing { name: String },
    /// A variable's value cannot be read as its setting.
    ParseError { name: String },
}

/// The value of the first variable named `name`.
pub open spec fn env_value(vars: Seq<(Seq<char>, Seq<char>)>, name: Seq<char>) -> Option<Seq<char>>
    decreases vars.len(),
{
    if vars.len() == 0 {
        None
    } else if vars[0].0 == name {
        Some(vars[0].1)
    } else {
        env_value(vars.drop_first(), name)
    }
}

/// The variables as plain values.
pub open spec fn env_view(vars: Seq<(String, String)>) -> Seq<(Seq<char>, Seq<char>)> {
    vars.map_values(|v: (String, String)| (v.0@, v.1@))
}

/// A decimal digit.
pub open spec fn is_digit(c: char) -> bool {
    '0' <= c && c <= '9'
}

/// The number that decimal digits denote.
pub open spec fn digits_value(s: Seq<char>) -> int
    decreases s.len(),
{
    if s.len() == 0 {
        0
    } else {
        digits_value(s.drop_last()) * 10 + ((s.last() as int) - ('0' as int))
    }
}

/// What `str::parse::<u16>` reads from the text: an optional `+` and at least one
/// decimal digit, denoting a number that fits in sixteen bits.
pub open spec fn parsed_u16(s: Seq<char>) -> Option<u16> {
    let d = if s.len() > 0 && s[0] == '+' {
        s.drop_first()
    } else {
        s
    };
    if d.len() > 0 && (forall|i: int| 0 <= i < d.len() ==> is_digit(#[trigger] d[i]))
        && digits_value(d) <= u16::MAX {
        Some(digits_value(d) as u16)
    } else {
        None
    }
}

/// Relies on `str::parse::<u16>`: an optional `+` sign followed by decimal digits
/// whose value fits in `u16`; anything else, the empty text included, is an error.
#[verifier::external_body]
fn parse_u16(s: &str) -> (r: Option<u16>)
    ensures
        r == parsed_u16(s@),
{
    s.parse::<u16>().ok()
}

fn lookup(vars: &Vec<(String, String)>, name: &str) -> (r: Option<String>)
    ensures
        match r {
            Some(v) => env_value(env_view(vars@), name@) == Some(v@),
            None => env_value(env_view(vars@), name@) is None,
        },
{
    let key = name.to_string();
    let ghost all = env_view(vars@);
    let mut i: usize = 0;
    assert(all.subrange(0, all.len() as int) =~= all);
    while i < vars.len()
        invariant
            i <= vars@.len(),
            all == env_view(vars@),
            key@ == name@,
            env_value(all.subrange(i as int, all.len() as int), name@) == env_value(all, name@),
        decreases vars@.len() - i,
    {
        let ghost rest = all.subrange(i as int, all.len() as int);
        assert(rest[0] == (vars@[i as int].0@, vars@[i as int].1@));
        if vars[i].0 == key {
            return Some(vars[i].1.clone());
        }
        assert(rest.drop_first() =~= all.subrange(i + 1, all.len() as int));
        i = i + 1;
    }
    None
}

/// The value of a variable with a default.
pub open spec fn env_or(vars: Seq<(Seq<char>, Seq<char>)>, name: Seq<char>, default: Seq<char>) -> Seq<char> {
    match env_value(vars, name) {
        Some(v) => v,
        None => default,
    }
}

/// Reads the configuration from environment variables, given as name and value
/// pairs; where a name repeats, its first value counts. A variable with a
/// default may be unset; `SCYLLA_URL` may not. `PORT` must be a number that fits
/// in sixteen bits, and `RUST_LOG_FORMAT` must name `json` or `text`, in any case.
pub fn load(vars: &Vec<(String, String)>) -> (r: Result<Config, ConfigError>)
    ensures
        ({
            let env = env_view(vars@);
            let port = parsed_u16(env_or(env, "PORT"@, "8080"@));
            let format = format_named(env_or(env, "RUST_LOG_FORMAT"@, "json"@));
            match r {
                Ok(c) => {
                    &&& port == Some(c.handler.port)
                    &&& format == Some(c.logger.format)
                    &&& env_value(env, "SCYLLA_URL"@) == Some(c.scylla.url@)
                    &&& c.handler.base_url@ == env_or(env, "BASE_URL"@, "http://localhost:8080"@)
                    &&& c.scylla.user@ == env_or(env, "SCYLLA_USER"@, "cassandra"@)
                    &&& c.scylla.password@ == env_or(env, "SCYLLA_PASSWORD"@, "cassandra"@)
                    &&& c.scylla.keyspace@ == env_or(env, "SCYLLA_KEYSPACE"@, "walnuk"@)
                    &&& opt_text(c.scylla.ca_cert_path) == env_value(env, "SCYLLA_CA_CERT_PATH"@)
                    &&& opt_text(c.scylla.client_cert_path) == env_value(
                        env,
                        "SCYLLA_CLIENT_CERT_PATH"@,
                    )
                    &&& opt_text(c.scylla.client_key_path) == env_value(
                        env,
                        "SCYLLA_CLIENT_KEY_PATH"@,
                    )
                },
                Err(_) => port is None || format is None || env_value(env, "SCYLLA_URL"@) is None,
            }
        }),
{
    let base_url = match lookup(vars, "BASE_URL") {
        Some(v) => v,
        None => "http://localhost:8080".to_string(),
    };
    let port_text = match lookup(vars, "PORT") {
        Some(v) => v,
        None => "8080".to_string(),
    };
    let port = match parse_u16(port_text.as_str()) {
        Some(p) => p,
        None => {
            return Err(ConfigError::ParseError { name: "PORT".to_string() });
        },
    };
    let url = match lookup(vars, "SCYLLA_URL") {
        Some(v) => v,
        None => {
            return Err(ConfigError::EnvVarMissing { name: "SCYLLA_URL".to_string() });
        },
    };
    let user = match lookup(vars, "SCYLLA_USER") {
        Some(v) => v,
        None => "cassandra".to_string(),
    };
    let password = match lookup(vars, "SCYLLA_PASSWORD") {
        Some(v) => v,
        None => "cassandra".to_string(),
    };
    let keyspace = match lookup(vars, "SCYLLA_KEYSPACE") {
        Some(v) => v,
        None => "walnuk".to_string(),
    };
    let ca_cert_path = lookup(vars, "SCYLLA_CA_CERT_PATH");
    let client_cert_path = lookup(vars, "SCYLLA_CLIENT_CERT_PATH");
    let client_key_path = lookup(vars, "SCYLLA_CLIENT_KEY_PATH");
    let format_text = match lookup(vars, "RUST_LOG_FORMAT") {
        Some(v) => v,
        None => "json".to_string(),
    };
    let format = match LogFormat::parse(format_text.as_str()) {
        Some(f) => f,
        None => {
            return Err(ConfigError::ParseError { name: "RUST_LOG_FORMAT".to_string() });
        },
    };
    Ok(
        Config {
            handler: handler::config::Config { base_url, port },
            scylla: scylla::config::Config {
                url,
                user,
                password,
                keyspace,
                ca_cert_path,
                client_cert_path,
                client_key_path,
            },
            logger: LoggerConfig { format },
        },
    )
}

/// An optional setting as a plain value.
pub open spec fn opt_text(v: Option<String>) -> Option<Seq<char>> {
    match v {
        Some(s) => Some(s@),
        None => None,
    }
}

} // verus!
