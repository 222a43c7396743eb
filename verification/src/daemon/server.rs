//! Where the daemon listens, and who may talk to it.

use crate::http::{bearer_of, text_response, Request, Response};
use crate::image::opt_text;
use crate::num::{parse_unsigned, parsed_unsigned};
use crate::text::str_eq;
use vstd::prelude::*;

verus! {

/// The port on the loopback address.
pub const DEFAULT_TCP_PORT: u16 = 7867;

/// The port for other machines.
pub const DEFAULT_REMOTE_PORT: u16 = 7868;

/// The port that a setting gives, or else the default.
pub open spec fn port_of(setting: Option<Seq<char>>, default: u16) -> u16 {
    match setting {
        Some(s) => match parsed_unsigned(s, u16::MAX as nat) {
            Some(n) => n as u16,
            None => default,
        },
        None => default,
    }
}

/// The port that a setting gives, or else the default.
pub fn read_port(setting: &Option<String>, default: u16) -> (r: u16)
    ensures
        r == port_of(opt_text(*setting), default),
{
    match setting {
        Some(s) => match parse_unsigned(s.as_str(), 65535) {
            Some(n) => n as u16,
            None => default,
        },
        None => default,
    }
}

/// The port on the loopback address, given the setting `KILN_TCP_PORT`.
pub fn tcp_port(setting: &Option<String>) -> (r: u16)
    ensures
        r == port_of(opt_text(*setting), DEFAULT_TCP_PORT),
{
    read_port(setting, DEFAULT_TCP_PORT)
}

/// The listener for other machines.
pub struct RemoteConfig {
    pub token: String,
    pub port: u16,
}

/// The listener for other machines, given the settings `KILN_REMOTE_TOKEN`
/// and `KILN_REMOTE_PORT`: there is none without a token.
pub fn remote_config(token: Option<String>, port: &Option<String>) -> (r: Option<RemoteConfig>)
    ensures
        match r {
            Some(c) => token == Some(c.token) && c.token@.len() > 0 && c.port == port_of(
                opt_text(*port),
                DEFAULT_REMOTE_PORT,
            ),
            None => token is None || token->0@.len() == 0,
        },
{
    match token {
        Some(t) => {
            if t.as_str().unicode_len() == 0 {
                None
            } else {
                Some(RemoteConfig { token: t, port: read_port(port, DEFAULT_REMOTE_PORT) })
            }
        },
        None => None,
    }
}

/// Whether a request may go on to a handler, given the token that its
/// listener demands, if it demands one.
pub fn check_token(req: &Request, expected: &Option<String>) -> (r: Result<(), Response>)
    ensures
        match r {
            Ok(_) => expected matches Some(t) ==> bearer_of(req@) == Some(t@),
            Err(e) => expected matches Some(t) && bearer_of(req@) != Some(t@) && e@ == text_response(
                401,
                "missing or invalid bearer token"@,
            ),
        },
{
    if let Some(t) = expected {
        match req.bearer_token() {
            Some(given) => {
                if str_eq(given, t.as_str()) {
                    return Ok(());
                }
            },
            None => {},
        }
        return Err(Response::text(401, "missing or invalid bearer token"));
    }
    Ok(())
}

/// A setting that is a port is used, and any other is not.
pub proof fn ports_are_read(n: u16, default: u16)
    ensures
        port_of(Some(crate::num::decimal(n as nat)), default) == n,
        port_of(None, default) == default,
        port_of(Some(Seq::empty()), default) == default,
        DEFAULT_TCP_PORT == 7867,
        DEFAULT_REMOTE_PORT == 7868,
{
    crate::num::decimal_parses_back(n as nat, u16::MAX as nat);
}

} // verus!
