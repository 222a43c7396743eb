//! How the registry server is set up: where its data lives, where it
//! listens, and whether it speaks TLS.

use crate::daemon::server::{port_of, read_port};
use crate::image::opt_text;
use crate::paths::{joined_path, path_join};
use vstd::prelude::*;

verus! {

/// The port that the registry listens on by default.
pub const DEFAULT_REGISTRY_PORT: u16 = 5959;

/// Where the registry keeps its data, given the settings `KILN_REGISTRY_DATA`
/// and `HOME`.
pub fn default_data_dir(data: &Option<String>, home: &Option<String>) -> (r: String)
    ensures
        r@ == (match *data {
            Some(d) => d@,
            None => joined_path(
                match *home {
                    Some(h) => h@,
                    None => "/root"@,
                },
                ".kiln-registry"@,
            ),
        }),
{
    match data {
        Some(d) => d.as_str().to_owned(),
        None => {
            let base = match home {
                Some(h) => h.as_str(),
                None => "/root",
            };
            path_join(base, ".kiln-registry")
        },
    }
}

/// The port that the registry listens on, given the setting `KILN_REGISTRY_PORT`.
pub fn default_port(setting: &Option<String>) -> (r: u16)
    ensures
        r == port_of(opt_text(*setting), DEFAULT_REGISTRY_PORT),
{
    read_port(setting, DEFAULT_REGISTRY_PORT)
}

/// The certificate and the key to speak TLS with: both must be given, or
/// neither, for plain HTTP.
pub fn tls_files(cert: Option<String>, key: Option<String>) -> (r: Result<Option<(String, String)>, String>)
    ensures
        match (cert, key) {
            (Some(c), Some(k)) => r == Ok::<Option<(String, String)>, String>(Some((c, k))),
            (None, None) => r == Ok::<Option<(String, String)>, String>(None),
            _ => r matches Err(m) && m@
                == "--tls-cert and --tls-key must both be given (or neither, for plain HTTP)"@,
        },
{
    match (cert, key) {
        (Some(c), Some(k)) => Ok(Some((c, k))),
        (None, None) => Ok(None),
        _ => Err("--tls-cert and --tls-key must both be given (or neither, for plain HTTP)".to_owned()),
    }
}

} // verus!
