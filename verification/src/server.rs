//! The request front door's policy: how a listen address is read, and what
//! the two entry points answer. The socket and HTTP plumbing are the
//! caller's; the decisions are verified here.

use vstd::prelude::*;
use crate::driver::Config;

verus! {

/// Where the front door listens: a TCP endpoint or a local-socket path.
#[derive(Clone, Debug)]
pub enum ListenAddress {
    Tcp { host: String, port: u16 },
    Uds { path: String },
}

/// Why a listen address was rejected at startup.
#[derive(Clone, Copy, PartialEq, Eq, Structural, Debug)]
pub enum AddressError {
    InvalidUrl,
    MissingHost,
    HostNotIp,
    MissingPort,
    UnknownScheme,
}

/// Whether a string is an IPv4 or IPv6 address literal: a function of its
/// characters alone.
pub uninterp spec fn is_ip_literal(s: Seq<char>) -> bool;

/// Relies on the standard library's `FromStr` for `core::net::IpAddr`:
/// whether a string parses as an IP address literal depends on the string
/// alone, and the parse never panics.
#[verifier::external_body]
fn parses_as_ip(s: &str) -> (r: bool)
    ensures
        r == is_ip_literal(s@),
{
    s.parse::<core::net::IpAddr>().is_ok()
}

/// The parts of a parsed URL that the listen-address syntax reads.
#[derive(Clone, Debug)]
pub struct UrlParts {
    pub scheme: String,
    pub host: Option<String>,
    pub port: Option<u16>,
    pub path: String,
}

/// What parsing a listen-address string yields: the scheme, host, port and
/// path of the URL, or nothing where the string is no URL. The result
/// depends on the string alone.
pub uninterp spec fn url_parts_of(s: Seq<char>) -> Option<(Seq<char>, Option<Seq<char>>, Option<
    u16,
>, Seq<char>)>;

/// Relies on url::Url::parse and the accessors scheme, host_str, port and
/// path: reads the four parts the listen-address syntax needs out of the
/// parsed URL, or reports the string unparseable.
#[verifier::external_body]
fn parse_url(s: &str) -> (r: Option<UrlParts>)
    ensures
        match r {
            Some(p) => url_parts_of(s@) matches Some(t) && p.scheme@ == t.0
                && (match (p.host, t.1) {
                    (Some(h), Some(hv)) => h@ == hv,
                    (None, None) => true,
                    _ => false,
                }) && p.port == t.2 && p.path@ == t.3,
            None => url_parts_of(s@) is None,
        },
{
    match url::Url::parse(s) {
        Ok(u) => Some(UrlParts {
            scheme: u.scheme().to_string(),
            host: u.host_str().map(|h| h.to_string()),
            port: u.port(),
            path: u.path().to_string(),
        }),
        Err(_) => None,
    }
}

/// The listen address the parts select: scheme `tcp` takes its host — which
/// must be an IP address literal — and port, scheme `unix` takes the path,
/// anything else is a configuration error rejected at startup.
pub open spec fn address_spec(
    parts: (Seq<char>, Option<Seq<char>>, Option<u16>, Seq<char>),
) -> Result<(Seq<char>, Option<u16>, bool), AddressError> {
    if parts.0 == "tcp"@ {
        match parts.1 {
            None => Err(AddressError::MissingHost),
            Some(h) => if !is_ip_literal(h) {
                Err(AddressError::HostNotIp)
            } else {
                match parts.2 {
                    None => Err(AddressError::MissingPort),
                    Some(p) => Ok((h, Some(p), true)),
                }
            },
        }
    } else if parts.0 == "unix"@ {
        Ok((parts.3, None, false))
    } else {
        Err(AddressError::UnknownScheme)
    }
}

/// `r` is the address that `address_spec` selects for these parts.
pub open spec fn address_matches(
    r: Result<ListenAddress, AddressError>,
    parts: (Seq<char>, Option<Seq<char>>, Option<u16>, Seq<char>),
) -> bool {
    match (r, address_spec(parts)) {
        (Ok(ListenAddress::Tcp { host, port }), Ok((h, p, tcp))) =>
            tcp && host@ == h && Some(port) == p,
        (Ok(ListenAddress::Uds { path }), Ok((h, p, tcp))) => !tcp && path@ == h && p is None,
        (Err(e1), Err(e2)) => e1 == e2,
        _ => false,
    }
}

/// Selects the listen address from the parts of a parsed URL.
pub fn address_from_parts(parts: UrlParts) -> (r: Result<ListenAddress, AddressError>)
    ensures
        ({
            let t = (parts.scheme@, match parts.host {
                Some(h) => Some(h@),
                None => None,
            }, parts.port, parts.path@);
            address_matches(r, t)
        }),
{
    if crate::sandbox::str_eq_literal(&parts.scheme, "tcp") {
        match parts.host {
            None => Err(AddressError::MissingHost),
            Some(h) => if !parses_as_ip(h.as_str()) {
                Err(AddressError::HostNotIp)
            } else {
                match parts.port {
                    None => Err(AddressError::MissingPort),
                    Some(p) => Ok(ListenAddress::Tcp { host: h, port: p }),
                }
            },
        }
    } else if crate::sandbox::str_eq_literal(&parts.scheme, "unix") {
        Ok(ListenAddress::Uds { path: parts.path })
    } else {
        Err(AddressError::UnknownScheme)
    }
}

/// Reads one listen-address string: an unparseable string is an invalid
/// URL; a parsed one selects its address by scheme.
pub fn parse_listen_address(s: &str) -> (r: Result<ListenAddress, AddressError>)
    ensures
        match url_parts_of(s@) {
            None => r == Err::<ListenAddress, AddressError>(AddressError::InvalidUrl),
            Some(t) => address_matches(r, t),
        },
{
    match parse_url(s) {
        None => Err(AddressError::InvalidUrl),
        Some(parts) => address_from_parts(parts),
    }
}

/// One answer of the front door: a status code, the correlation header of a
/// failure, and the body.
#[derive(Clone, Debug)]
pub struct HttpResponse {
    pub status: u16,
    pub error_uuid: Option<String>,
    pub body: Vec<u8>,
}

/// Relies on uuid::Uuid::new_v4 and its hyphenated rendering: a freshly
/// generated correlation identifier, 36 characters long. The value is
/// random; nothing more is promised of it.
#[verifier::external_body]
fn fresh_error_id() -> (r: String)
    ensures
        r@.len() == 36,
{
    uuid::Uuid::new_v4().hyphenated().to_string()
}

/// The answer to one invoke request: a handled request echoes its payload
/// with status 200 and no correlation header; a failed one is an opaque 500
/// with a fresh correlation header and an empty body — the error detail
/// never reaches the caller.
pub fn route_exec(handled: Result<Vec<u8>, String>) -> (r: HttpResponse)
    ensures
        match handled {
            Ok(payload) => r.status == 200 && r.error_uuid is None && r.body == payload,
            Err(_) => r.status == 500 && r.body@ == Seq::<u8>::empty()
                && (r.error_uuid matches Some(id) && id@.len() == 36),
        },
{
    match handled {
        Ok(payload) => HttpResponse { status: 200, error_uuid: None, body: payload },
        Err(_) => HttpResponse {
            status: 500,
            error_uuid: Some(fresh_error_id()),
            body: Vec::new(),
        },
    }
}

/// The liveness probe's answer: status 200, body `OK`.
pub fn route_ready() -> (r: (u16, String))
    ensures
        r.0 == 200,
        r.1@ == "OK"@,
{
    (200, "OK".to_owned())
}

/// The front door: holds what the request handler needs.
pub struct Handler {
    pub cfg: Config,
}

/// The server around one handler.
pub struct Server {
    pub handler: Handler,
}

impl Server {
    pub fn new(handler: Handler) -> (r: Server)
        ensures
            r.handler.cfg == handler.cfg,
    {
        Server { handler }
    }
}

} // verus!
