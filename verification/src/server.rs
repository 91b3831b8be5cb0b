//! The gateway's own public address, as clients should see it in the URLs
//! that it hands out.

use vstd::prelude::*;
use crate::text::{chars_of, starts_with, starts_with_in, string_of, trim_end_char, trim_end_char_in};

verus! {

/// The decimal digits of `n`, without leading zeros.
pub open spec fn decimal_digits(n: nat) -> Seq<char>
    decreases n,
{
    if n < 10 {
        seq![(48 + n) as char]
    } else {
        decimal_digits(n / 10) + seq![(48 + n % 10) as char]
    }
}

/// `n` in decimal (`n.to_string()`).
pub fn decimal_text(n: u64) -> (s: String)
    ensures
        s@ == decimal_digits(n as nat),
{
    let mut m = n;
    let mut tail: Vec<char> = Vec::new();
    while m >= 10
        invariant
            decimal_digits(n as nat) == decimal_digits(m as nat) + tail@,
        decreases m,
    {
        let d = (m % 10) as u8;
        let c = (48 + d) as char;
        tail.insert(0, c);
        assert(decimal_digits(m as nat) == decimal_digits((m / 10) as nat) + seq![c]);
        assert(decimal_digits(n as nat) =~= decimal_digits((m / 10) as nat) + tail@);
        m = m / 10;
    }
    let mut out: Vec<char> = Vec::new();
    out.push((48 + m as u8) as char);
    let mut i: usize = 0;
    while i < tail.len()
        invariant
            i <= tail.len(),
            out@ == decimal_digits(m as nat) + tail@.take(i as int),
        decreases tail.len() - i,
    {
        out.push(tail[i]);
        i = i + 1;
        assert(out@ =~= decimal_digits(m as nat) + tail@.take(i as int));
    }
    assert(tail@.take(tail.len() as int) =~= tail@);
    string_of(&out)
}

/// A header byte that `HeaderValue::to_str` accepts: visible ASCII or tab.
pub open spec fn is_visible_ascii(b: u8) -> bool {
    (32 <= b && b < 127) || b == 9
}

/// The text of a header value, when all its bytes are visible ASCII
/// (`HeaderValue::to_str`).
pub open spec fn header_text(b: Seq<u8>) -> Option<Seq<char>> {
    if forall|i: int| 0 <= i < b.len() ==> is_visible_ascii(#[trigger] b[i]) {
        Some(b.map_values(|x: u8| x as char))
    } else {
        None
    }
}

/// The request headers that decide the gateway's public address, as raw
/// bytes: `x-forwarded-host`, `host` and `x-forwarded-proto` (the first
/// value of each, when present).
pub struct ClientHeaders {
    pub forwarded_host: Option<Vec<u8>>,
    pub host: Option<Vec<u8>>,
    pub forwarded_proto: Option<Vec<u8>>,
}

/// The gateway's settings that decide its public address.
pub struct AppState {
    pub server_port: u16,
    pub public_url: Option<String>,
}

/// The address of a gateway listening on `port` of the local machine.
pub open spec fn local_base_url(port: u16) -> Seq<char> {
    "http://localhost:"@ + decimal_digits(port as nat)
}

/// The scheme to assume for `host` when the request does not name one.
pub open spec fn default_scheme(host: Seq<char>) -> Seq<char> {
    if starts_with(host, "localhost"@) || starts_with(host, "127.0.0.1"@) {
        "http"@
    } else {
        "https"@
    }
}

/// The address that the request headers give: the scheme from
/// `x-forwarded-proto` (or guessed from the host) and the host from
/// `x-forwarded-host`, or else `host`.
pub open spec fn header_base_url(h: ClientHeaders, port: u16) -> Seq<char> {
    let host_value = if h.forwarded_host is Some {
        h.forwarded_host
    } else {
        h.host
    };
    match host_value {
        Some(v) => match header_text(v@) {
            Some(host) => {
                let scheme = match h.forwarded_proto {
                    Some(p) => match header_text(p@) {
                        Some(t) => t,
                        None => default_scheme(host),
                    },
                    None => default_scheme(host),
                };
                scheme + "://"@ + host
            },
            None => local_base_url(port),
        },
        None => local_base_url(port),
    }
}

/// The gateway's public address: the configured public URL without
/// trailing slashes when one is set and not empty; else the address that
/// the request headers give; else the local address.
pub open spec fn base_url_for(state: AppState, headers: Option<ClientHeaders>) -> Seq<char> {
    if state.public_url is Some && state.public_url->0@.len() > 0 {
        trim_end_char(state.public_url->0@, '/')
    } else {
        match headers {
            Some(h) => header_base_url(h, state.server_port),
            None => local_base_url(state.server_port),
        }
    }
}

/// The text of a header value, when all its bytes are visible ASCII.
pub fn header_value_text(b: &[u8]) -> (r: Option<String>)
    ensures
        match r {
            Some(s) => header_text(b@) == Some(s@),
            None => header_text(b@) is None,
        },
{
    let mut out: Vec<char> = Vec::new();
    let mut i: usize = 0;
    while i < b.len()
        invariant
            i <= b.len(),
            forall|j: int| 0 <= j < i ==> is_visible_ascii(#[trigger] b@[j]),
            out@ == b@.take(i as int).map_values(|x: u8| x as char),
        decreases b.len() - i,
    {
        let c = b[i];
        if !((32 <= c && c < 127) || c == 9) {
            return None;
        }
        out.push(c as char);
        i = i + 1;
        assert(out@ =~= b@.take(i as int).map_values(|x: u8| x as char));
    }
    assert(b@.take(b.len() as int) =~= b@);
    Some(string_of(&out))
}

fn scheme_for_host(host: &str) -> (s: String)
    ensures
        s@ == default_scheme(host@),
{
    let h = chars_of(host);
    let localhost = chars_of("localhost");
    let loopback = chars_of("127.0.0.1");
    if starts_with_in(&h, &localhost) || starts_with_in(&h, &loopback) {
        String::from_str("http")
    } else {
        String::from_str("https")
    }
}

fn local_url(port: u16) -> (s: String)
    ensures
        s@ == local_base_url(port),
{
    let mut s = String::from_str("http://localhost:");
    let digits = decimal_text(port as u64);
    s.append(digits.as_str());
    s
}

fn opt_bytes(o: &Option<Vec<u8>>) -> (r: Option<&[u8]>)
    ensures
        r is Some == o is Some,
        r is Some ==> r->0@ == o->0@,
{
    match o {
        Some(v) => Some(v.as_slice()),
        None => None,
    }
}

impl AppState {
    /// The gateway's public address for a request with `headers` (or for
    /// no request).
    pub fn base_url(&self, headers: Option<&ClientHeaders>) -> (r: String)
        ensures
            r@ == base_url_for(*self, match headers {
                Some(h) => Some(*h),
                None => None,
            }),
    {
        match &self.public_url {
            Some(u) => {
                let cs = chars_of(u.as_str());
                if cs.len() > 0 {
                    let trimmed = trim_end_char_in(&cs, '/');
                    return string_of(&trimmed);
                }
            },
            None => {},
        }
        match headers {
            Some(h) => {
                let host_value = if h.forwarded_host.is_some() {
                    opt_bytes(&h.forwarded_host)
                } else {
                    opt_bytes(&h.host)
                };
                match host_value {
                    Some(v) => match header_value_text(v) {
                        Some(host) => {
                            let mut scheme = match opt_bytes(&h.forwarded_proto) {
                                Some(p) => match header_value_text(p) {
                                    Some(t) => t,
                                    None => scheme_for_host(host.as_str()),
                                },
                                None => scheme_for_host(host.as_str()),
                            };
                            scheme.append("://");
                            scheme.append(host.as_str());
                            scheme
                        },
                        None => local_url(self.server_port),
                    },
                    None => local_url(self.server_port),
                }
            },
            None => local_url(self.server_port),
        }
    }
}

/// A configured public URL is the base of every URL that the gateway hands
/// out, whatever the request says, and it never ends in `/`.
pub proof fn law_public_url_wins(state: AppState, a: Option<ClientHeaders>, b: Option<ClientHeaders>)
    requires
        state.public_url is Some,
        state.public_url->0@.len() > 0,
    ensures
        base_url_for(state, a) == base_url_for(state, b),
        base_url_for(state, a).len() == 0 || base_url_for(state, a).last() != '/',
{
    lemma_trim_end_char(state.public_url->0@, '/');
}

/// With no public URL set, a visible-ASCII host (from `x-forwarded-host`,
/// else `host`) and a visible-ASCII `x-forwarded-proto` `p`, the address
/// is `p://host`, whichever header gave the host.
pub proof fn law_forwarded_proto_names_the_scheme(state: AppState, h: ClientHeaders, v: Seq<u8>, p: Seq<u8>)
    requires
        state.public_url is None || state.public_url->0@.len() == 0,
        (if h.forwarded_host is Some {
            h.forwarded_host->0@
        } else if h.host is Some {
            h.host->0@
        } else {
            v
        }) == v,
        h.forwarded_host is Some || h.host is Some,
        h.forwarded_proto is Some && h.forwarded_proto->0@ == p,
        forall|i: int| 0 <= i < v.len() ==> (32 <= #[trigger] v[i] < 127 || v[i] == 9),
        forall|i: int| 0 <= i < p.len() ==> (32 <= #[trigger] p[i] < 127 || p[i] == 9),
    ensures
        base_url_for(state, Some(h)) == p.map_values(|x: u8| x as char) + "://"@ + v.map_values(
            |x: u8| x as char,
        ),
{
}

/// The address does not depend on which of `x-forwarded-host` and `host`
/// carried the host: a host given only as `host` yields the same address
/// as the same host given as `x-forwarded-host`.
pub proof fn law_host_header_source_irrelevant(state: AppState, a: ClientHeaders, b: ClientHeaders)
    requires
        a.forwarded_host is Some,
        b.forwarded_host is None,
        b.host is Some,
        b.host->0@ == a.forwarded_host->0@,
        b.forwarded_proto is Some == a.forwarded_proto is Some,
        a.forwarded_proto is Some ==> b.forwarded_proto->0@ == a.forwarded_proto->0@,
    ensures
        base_url_for(state, Some(a)) == base_url_for(state, Some(b)),
{
}

pub proof fn lemma_trim_end_char(s: Seq<char>, c: char)
    ensures
        trim_end_char(s, c).len() == 0 || trim_end_char(s, c).last() != c,
    decreases s.len(),
{
    if s.len() > 0 && s.last() == c {
        lemma_trim_end_char(s.drop_last(), c);
    }
}

} // verus!
