//! Web addresses: the parts the engine reads from a URL, and the addresses it builds.
use vstd::prelude::*;
use crate::text::{chars_of, string_from_chars, push_str, str_eq};

verus! {

/// The parts of a parsed URL that the engine reads.
#[derive(Debug, Clone)]
pub struct UrlParts {
    /// The scheme, lower-cased, without the `:`.
    pub scheme: String,
    /// The host, when the URL has one.
    pub host: Option<String>,
    /// The port written in the URL, unless it is the scheme's default.
    pub port: Option<u16>,
}

/// What the `url` crate parses a string into: scheme, host and explicit port.
pub uninterp spec fn parsed_url(s: Seq<char>) -> Option<(Seq<char>, Option<Seq<char>>, Option<u16>)>;

/// What `Url::join` of the `url` crate gives for a base address and a reference,
/// serialized.
pub uninterp spec fn joined_url(base: Seq<char>, reference: Seq<char>) -> Option<Seq<char>>;

pub open spec fn opt_seq(o: Option<String>) -> Option<Seq<char>> {
    match o {
        Some(s) => Some(s@),
        None => None,
    }
}

impl UrlParts {
    pub open spec fn view_tuple(self) -> (Seq<char>, Option<Seq<char>>, Option<u16>) {
        (self.scheme@, opt_seq(self.host), self.port)
    }
}

/// Calls `url::Url::parse` and reads `scheme`, `host_str` and `port` of the result.
/// The contract names the result: the same string always parses the same way.
#[verifier::external_body]
pub(crate) fn parse_url(s: &str) -> (r: Option<UrlParts>)
    ensures
        match r {
            Some(p) => parsed_url(s@) == Some(p.view_tuple()),
            None => parsed_url(s@) is None,
        },
{
    match url::Url::parse(s) {
        Ok(u) => Some(
            UrlParts {
                scheme: u.scheme().to_string(),
                host: u.host_str().map(|h| h.to_string()),
                port: u.port(),
            },
        ),
        Err(_) => None,
    }
}

/// Calls `url::Url::parse` on `base`, then `Url::join` with `reference`, and serializes the
/// result; `None` where either fails. The contract names the result.
#[verifier::external_body]
pub(crate) fn join_url(base: &str, reference: &str) -> (r: Option<String>)
    ensures
        match r {
            Some(j) => joined_url(base@, reference@) == Some(j@),
            None => joined_url(base@, reference@) is None,
        },
{
    match url::Url::parse(base) {
        Ok(u) => match u.join(reference) {
            Ok(j) => Some(j.to_string()),
            Err(_) => None,
        },
        Err(_) => None,
    }
}

/// The default port of the schemes the `url` crate knows.
pub open spec fn default_port_of(scheme: Seq<char>) -> Option<u16> {
    if scheme == "http"@ || scheme == "ws"@ {
        Some(80)
    } else if scheme == "https"@ || scheme == "wss"@ {
        Some(443)
    } else if scheme == "ftp"@ {
        Some(21)
    } else {
        None
    }
}

/// The port of a URL, or its scheme's default.
pub open spec fn known_port_of(scheme: Seq<char>, port: Option<u16>) -> Option<u16> {
    match port {
        Some(p) => Some(p),
        None => default_port_of(scheme),
    }
}

impl UrlParts {
    /// The port, or the scheme's default port when the scheme is one of
    /// `http`, `https`, `ws`, `wss`, `ftp`.
    pub fn port_or_known_default(&self) -> (r: Option<u16>)
        ensures
            r == known_port_of(self.scheme@, self.port),
    {
        match self.port {
            Some(p) => Some(p),
            None => {
                let s = self.scheme.as_str();
                if str_eq(s, "http") || str_eq(s, "ws") {
                    Some(80)
                } else if str_eq(s, "https") || str_eq(s, "wss") {
                    Some(443)
                } else if str_eq(s, "ftp") {
                    Some(21)
                } else {
                    None
                }
            },
        }
    }

    /// The host, or the empty string.
    pub fn host_or_empty(&self) -> (r: String)
        ensures
            r@ == host_or_empty_of(opt_seq(self.host)),
    {
        match &self.host {
            Some(h) => h.clone(),
            None => string_from_chars(Vec::new()),
        }
    }
}

pub open spec fn host_or_empty_of(h: Option<Seq<char>>) -> Seq<char> {
    match h {
        Some(h) => h,
        None => Seq::empty(),
    }
}

/// The host of an address, or the empty string where it does not parse or has none.
pub open spec fn host_of(url: Seq<char>) -> Seq<char> {
    match parsed_url(url) {
        Some(p) => host_or_empty_of(p.1),
        None => Seq::empty(),
    }
}

pub fn url_host(url: &str) -> (r: String)
    ensures
        r@ == host_of(url@),
{
    match parse_url(url) {
        Some(p) => p.host_or_empty(),
        None => string_from_chars(Vec::new()),
    }
}

/// The portal's API address: `https` in place of `http` (and where the base does not
/// parse), the base's host, and `/portal.php`.
pub open spec fn api_url_of(base_url: Seq<char>) -> Seq<char> {
    let scheme = match parsed_url(base_url) {
        Some(p) => if p.0 == "http"@ {
            "https"@
        } else {
            p.0
        },
        None => "https"@,
    };
    scheme + "://"@ + host_of(base_url) + "/portal.php"@
}

pub fn api_url(base_url: &str) -> (r: String)
    ensures
        r@ == api_url_of(base_url@),
{
    let parsed = parse_url(base_url);
    let mut out: Vec<char> = Vec::new();
    let mut host: Vec<char> = Vec::new();
    match &parsed {
        Some(p) => {
            if str_eq(p.scheme.as_str(), "http") {
                push_str(&mut out, "https");
            } else {
                push_str(&mut out, p.scheme.as_str());
            }
            host = chars_of(p.host_or_empty().as_str());
        },
        None => {
            push_str(&mut out, "https");
        },
    }
    push_str(&mut out, "://");
    let h = string_from_chars(host);
    push_str(&mut out, h.as_str());
    push_str(&mut out, "/portal.php");
    assert(out@ =~= api_url_of(base_url@));
    string_from_chars(out)
}

/// The address requests of the box's API go to: the base's scheme and host and
/// `/portal.php`, or the base itself where it does not parse.
pub open spec fn portal_api_base_of(portal_base: Seq<char>) -> Seq<char> {
    match parsed_url(portal_base) {
        Some(p) => p.0 + "://"@ + host_or_empty_of(p.1) + "/portal.php"@,
        None => portal_base,
    }
}

pub fn portal_api_base(portal_base: &str) -> (r: String)
    ensures
        r@ == portal_api_base_of(portal_base@),
{
    match parse_url(portal_base) {
        Some(p) => {
            let mut out: Vec<char> = Vec::new();
            push_str(&mut out, p.scheme.as_str());
            push_str(&mut out, "://");
            let h = p.host_or_empty();
            push_str(&mut out, h.as_str());
            push_str(&mut out, "/portal.php");
            assert(out@ =~= portal_api_base_of(portal_base@));
            string_from_chars(out)
        },
        None => string_from_chars(chars_of(portal_base)),
    }
}

/// The scheme and host of an address (`scheme://host`), or the address itself where it
/// does not parse.
pub open spec fn origin_of(url: Seq<char>) -> Seq<char> {
    match parsed_url(url) {
        Some(p) => p.0 + "://"@ + host_or_empty_of(p.1),
        None => url,
    }
}

pub fn url_origin(url: &str) -> (r: String)
    ensures
        r@ == origin_of(url@),
{
    match parse_url(url) {
        Some(p) => {
            let mut out: Vec<char> = Vec::new();
            push_str(&mut out, p.scheme.as_str());
            push_str(&mut out, "://");
            let h = p.host_or_empty();
            push_str(&mut out, h.as_str());
            assert(out@ =~= origin_of(url@));
            string_from_chars(out)
        },
        None => string_from_chars(chars_of(url)),
    }
}

/// Where a redirect leads: an absolute `Location` as it is, else the location resolved
/// against the current address, or the location as it is where that fails.
pub open spec fn redirect_target_of(current_url: Seq<char>, location: Seq<char>) -> Seq<char> {
    if crate::text::starts_with(location, "http://"@) || crate::text::starts_with(location, "https://"@) {
        location
    } else {
        match joined_url(current_url, location) {
            Some(j) => j,
            None => location,
        }
    }
}

pub fn redirect_target(current_url: &str, location: &str) -> (r: String)
    ensures
        r@ == redirect_target_of(current_url@, location@),
{
    let l = chars_of(location);
    if crate::text::starts_with_vec(&l, &chars_of("http://")) || crate::text::starts_with_vec(
        &l,
        &chars_of("https://"),
    ) {
        string_from_chars(l)
    } else {
        match join_url(current_url, location) {
            Some(j) => j,
            None => string_from_chars(l),
        }
    }
}

/// The host of a URL, where it parses and has one.
pub open spec fn parsed_host_of(url: Seq<char>) -> Option<Seq<char>> {
    match parsed_url(url) {
        Some(p) => p.1,
        None => None,
    }
}

pub fn parsed_host(url: &str) -> (r: Option<String>)
    ensures
        opt_seq(r) == parsed_host_of(url@),
{
    match parse_url(url) {
        Some(p) => p.host,
        None => None,
    }
}

/// Where a connection for a URL goes: its host (empty where it has none) and its port,
/// or the scheme's default, or 443 where the scheme has none; `None` where the URL does
/// not parse.
pub open spec fn connect_target_of(url: Seq<char>) -> Option<(Seq<char>, u16)> {
    match parsed_url(url) {
        Some(p) => Some((host_or_empty_of(p.1), match known_port_of(p.0, p.2) {
            Some(port) => port,
            None => 443,
        })),
        None => None,
    }
}

pub fn connect_target(url: &str) -> (r: Option<(String, u16)>)
    ensures
        match r {
            Some(t) => connect_target_of(url@) == Some((t.0@, t.1)),
            None => connect_target_of(url@) is None,
        },
{
    match parse_url(url) {
        Some(p) => {
            let port = match p.port_or_known_default() {
                Some(port) => port,
                None => 443,
            };
            Some((p.host_or_empty(), port))
        },
        None => None,
    }
}

} // verus!
