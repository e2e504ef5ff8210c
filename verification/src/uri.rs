use vstd::prelude::*;
use vstd::string::StringExecFns;
use crate::text::{decimal, push_decimal, str_equal};

verus! {

broadcast use vstd::string::group_string_axioms;

/// The parts of a URI that the clients read, as plain values.
pub struct UriParts {
    pub scheme: Option<String>,
    pub host: Option<String>,
    pub port: Option<u16>,
    pub authority: Option<String>,
}

/// The parts of a URI, as seen by specifications.
pub struct UriPartsView {
    pub scheme: Option<Seq<char>>,
    pub host: Option<Seq<char>>,
    pub port: Option<u16>,
    pub authority: Option<Seq<char>>,
}

/// The characters of an optional string.
pub open spec fn opt_chars(s: Option<String>) -> Option<Seq<char>> {
    match s {
        Some(t) => Some(t@),
        None => None,
    }
}

impl View for UriParts {
    type V = UriPartsView;

    open spec fn view(&self) -> UriPartsView {
        UriPartsView {
            scheme: opt_chars(self.scheme),
            host: opt_chars(self.host),
            port: self.port,
            authority: opt_chars(self.authority),
        }
    }
}

/// What `hyper::Uri`'s parser makes of `text`: `None` where it refuses the
/// text, else the scheme, host, port and authority it finds.
pub uninterp spec fn parsed_uri(text: Seq<char>) -> Option<UriPartsView>;

/// Parses `text` with `hyper::Uri`'s `FromStr` and reads `scheme_str`,
/// `host`, `port_u16` and `authority` of the result. Claimed: the result is
/// the parse named by `parsed_uri`; a host is present exactly when an
/// authority is (`Uri::host` is the host of `Uri::authority`), and a port only
/// with an authority (`Uri::port` reads the authority).
#[verifier::external_body]
fn parse_uri(text: &str) -> (parts: Option<UriParts>)
    ensures
        parts matches Some(p) ==> parsed_uri(text@) == Some(p@),
        parts is None ==> parsed_uri(text@) is None,
        parts matches Some(p) ==> (p.host is Some <==> p.authority is Some),
        parts matches Some(p) ==> (p.port is Some ==> p.authority is Some),
{
    let uri = text.parse::<hyper::Uri>().ok()?;
    Some(UriParts {
        scheme: uri.scheme_str().map(|s| s.to_string()),
        host: uri.host().map(|h| h.to_string()),
        port: uri.port_u16(),
        authority: uri.authority().map(|a| a.as_str().to_string()),
    })
}

/// Parses a URI: `None` when the text is not a URI.
pub fn parse_target(text: &str) -> (parts: Option<UriParts>)
    ensures
        parts matches Some(p) ==> parsed_uri(text@) == Some(p@),
        parts is None ==> parsed_uri(text@) is None,
        parts matches Some(p) ==> (p.host is Some <==> p.authority is Some),
        parts matches Some(p) ==> (p.port is Some ==> p.authority is Some),
{
    parse_uri(text)
}

/// The scheme is exactly `http`.
pub open spec fn scheme_is_http(parts: UriPartsView) -> bool {
    parts.scheme == Some("http"@)
}

/// Whether the URI's scheme is `http` (the plain client serves no other).
pub fn is_http(parts: &UriParts) -> (http: bool)
    ensures
        http == scheme_is_http(parts@),
        http <==> parts@.scheme == Some("http"@),
{
    match &parts.scheme {
        Some(s) => str_equal(s.as_str(), "http"),
        None => false,
    }
}

/// The port written in the URI, else the scheme's usual port.
pub open spec fn effective_port(port: Option<u16>, default_port: u16) -> u16 {
    match port {
        Some(p) => p,
        None => default_port,
    }
}

/// A port written in the URI is always the one used; the default is used
/// only when the URI has none.
pub proof fn lemma_port_choice(port: u16, default_port: u16)
    ensures
        effective_port(Some(port), default_port) == port,
        effective_port(None, default_port) == default_port,
{
}

/// Only the scheme `http` counts as plain HTTP.
pub proof fn lemma_http_scheme(parts: UriPartsView)
    ensures
        scheme_is_http(parts) <==> parts.scheme == Some("http"@),
{
}

/// The address is the host, a colon and the port in decimal.
pub proof fn lemma_address_form(host: Seq<char>, port: u16)
    ensures
        connect_address(host, port) == host + ":"@ + decimal(port as nat),
{
}

/// The port to connect to.
pub fn port_or_default(port: Option<u16>, default_port: u16) -> (p: u16)
    ensures
        p == effective_port(port, default_port),
        port matches Some(q) ==> p == q,
        port is None ==> p == default_port,
{
    match port {
        Some(p) => p,
        None => default_port,
    }
}

/// The `host:port` address to open a connection to.
pub open spec fn connect_address(host: Seq<char>, port: u16) -> Seq<char> {
    host + ":"@ + decimal(port as nat)
}

/// Builds the `host:port` address.
pub fn socket_address(host: &str, port: u16) -> (addr: String)
    ensures
        addr@ == connect_address(host@, port),
        addr@ == host@ + ":"@ + decimal(port as nat),
{
    let mut addr = host.to_owned();
    addr.append(":");
    push_decimal(&mut addr, port as u64);
    addr
}

/// The request methods the clients send.
#[derive(Clone, Copy, Debug, PartialEq, Eq, Structural)]
pub enum HttpVerb {
    Get,
    Post,
}

/// Everything a client needs to send one request: where to connect, the
/// request line's target, the `Host` header and the body.
pub struct RequestPlan {
    pub method: HttpVerb,
    pub uri: String,
    pub address: String,
    pub host_header: String,
    pub body: Vec<u8>,
}

/// `plan` connects to the URI's host at its port (else `default_port`),
/// sends `method` with `body` to `uri`, and names the URI's authority as host.
pub open spec fn plans(
    plan: RequestPlan,
    parts: UriPartsView,
    uri: Seq<char>,
    method: HttpVerb,
    default_port: u16,
    body: Seq<u8>,
) -> bool {
    &&& parts.host matches Some(h)
    &&& parts.authority matches Some(a)
    &&& plan.method == method
    &&& plan.uri@ == uri
    &&& plan.address@ == connect_address(h, effective_port(parts.port, default_port))
    &&& plan.host_header@ == a
    &&& plan.body@ == body
}

/// A plan connects to `host:port` with the URI's own port where it has one
/// and the default otherwise, names the URI's authority as host, and carries
/// the method, target and body unchanged.
pub proof fn lemma_plan_fields(
    plan: RequestPlan,
    parts: UriPartsView,
    uri: Seq<char>,
    method: HttpVerb,
    default_port: u16,
    body: Seq<u8>,
)
    requires
        plans(plan, parts, uri, method, default_port, body),
    ensures
        parts.port matches Some(q) ==> plan.address@ == parts.host->0 + ":"@ + decimal(q as nat),
        parts.port is None ==> plan.address@ == parts.host->0 + ":"@ + decimal(default_port as nat),
        plan.host_header@ == parts.authority->0,
        plan.method == method,
        plan.uri@ == uri,
        plan.body@ == body,
{
}

/// Plans a request to the URI `uri`, whose parts are `parts`.
pub fn plan_request(parts: &UriParts, uri: &str, method: HttpVerb, default_port: u16, body: Vec<u8>) -> (plan: RequestPlan)
    requires
        parts.host is Some,
        parts.authority is Some,
    ensures
        plans(plan, parts@, uri@, method, default_port, body@),
{
    let host = match &parts.host {
        Some(h) => h.as_str(),
        None => "",
    };
    let authority = match &parts.authority {
        Some(a) => a.clone(),
        None => String::new(),
    };
    let port = port_or_default(parts.port, default_port);
    let address = socket_address(host, port);
    RequestPlan { method, uri: uri.to_owned(), address, host_header: authority, body }
}

/// Why no request could be planned.
#[derive(Clone, Copy, Debug, PartialEq, Eq, Structural)]
pub enum PlanError {
    /// The text is not a URI.
    InvalidUri,
    /// The URI names no host.
    MissingHost,
}

/// Parses `text` and plans a request to it.
pub fn plan_from_text(text: &str, method: HttpVerb, default_port: u16, body: Vec<u8>) -> (res: Result<RequestPlan, PlanError>)
    ensures
        (match parsed_uri(text@) {
            None => res == Err::<RequestPlan, PlanError>(PlanError::InvalidUri),
            Some(p) => if p.host is None {
                res == Err::<RequestPlan, PlanError>(PlanError::MissingHost)
            } else {
                res matches Ok(plan) && plans(plan, p, text@, method, default_port, body@)
            },
        }),
{
    match parse_uri(text) {
        None => Err(PlanError::InvalidUri),
        Some(parts) => {
            if parts.host.is_none() {
                Err(PlanError::MissingHost)
            } else {
                Ok(plan_request(&parts, text, method, default_port, body))
            }
        },
    }
}

} // verus!
