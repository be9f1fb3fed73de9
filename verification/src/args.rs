//! What the proxy is told on its command line.

use crate::exchange::Settings;
use vstd::prelude::*;

verus! {

/// What is said of a certificate without a key, or a key without a certificate.
pub const TLS_MISMATCH: &'static str =
    "tls cert and key should be either both provided or neither provided";

/// The trim level where none is given: labels are whole paths.
pub const DEFAULT_TRIM_LEVEL: u16 = 0;

/// The proxy's arguments.
#[derive(Debug)]
pub struct Args {
    /// Upstream host address
    pub upstream_address: String,
    /// Bind address
    pub bind_address: String,
    /// Prometheus bind address
    pub prometheus_bind_address: String,
    /// Number of path segments to keep in metrics, 0 keeps all
    pub trim_level: u16,
    /// Host http header to use for upstream, it is left untouched by default
    pub http_host: Option<String>,
    /// Metrics do not include requests for which the response status is this code
    pub ignore_status: Option<u16>,
    /// tls certificate path
    pub tls_cert: Option<String>,
    /// tls private key path
    pub tls_pkey: Option<String>,
    /// print websocket messages to stdout
    pub verbose: bool,
    /// print connecting IP to stdout
    pub print_ip: bool,
}

/// The files that a connection over TLS needs.
#[derive(Debug)]
pub struct TlsFiles {
    pub cert: String,
    pub pkey: String,
}

/// Only one of the two files for TLS was named.
#[derive(Clone, Copy, Debug, PartialEq, Eq, Structural)]
pub struct TlsMismatch;

/// The address to listen on where none is given.
pub fn default_bind_address() -> (result: String)
    ensures
        result@ == "127.0.0.1:8080"@,
{
    "127.0.0.1:8080".to_owned()
}

/// The address to export metrics on where none is given.
pub fn default_prometheus_bind_address() -> (result: String)
    ensures
        result@ == "127.0.0.1:9100"@,
{
    "127.0.0.1:9100".to_owned()
}

impl Args {
    /// The files for TLS, where connections are to use it. Either both are named or none is.
    pub fn tls_files(&self) -> (result: Result<Option<TlsFiles>, TlsMismatch>)
        ensures
            match (self.tls_cert, self.tls_pkey) {
                (Some(cert), Some(pkey)) => result matches Ok(Some(files)) && files.cert@ == cert@
                    && files.pkey@ == pkey@,
                (None, None) => result matches Ok(None),
                _ => result matches Err(_),
            },
    {
        match (&self.tls_cert, &self.tls_pkey) {
            (Some(cert), Some(pkey)) => Ok(
                Some(TlsFiles { cert: cert.clone(), pkey: pkey.clone() }),
            ),
            (None, None) => Ok(None),
            _ => Err(TlsMismatch),
        }
    }

    /// What a request's way depends on.
    pub fn settings(&self) -> (result: Settings)
        ensures
            result.host() == match self.http_host {
                Some(host) => Some(host@),
                None => None,
            },
            result.trim_level == self.trim_level,
            result.ignore_status == self.ignore_status,
    {
        Settings {
            http_host: match &self.http_host {
                Some(host) => Some(host.clone()),
                None => None,
            },
            trim_level: self.trim_level,
            ignore_status: self.ignore_status,
        }
    }
}

} // verus!
