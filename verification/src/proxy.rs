//! What the stream proxy does with a ticket: fetch the DASH manifest for
//! rewriting, or pass a media request through to the upstream file.

use vstd::prelude::*;
use vstd::utf8::encode_utf8;
use crate::providers::ascii_lowercase;
use crate::server::{decimal_digits, decimal_text};
use crate::streams::{is_dash, is_dash_url};
use crate::text::{
    ascii_lower, chars_equal, lemma_rfind_char, chars_of, ends_with, ends_with_in, rfind_char, rfind_char_in,
    slice_chars, string_of, trim_start_char, trim_start_char_in, extend_chars,
};
use crate::tickets::{pairs_view, resolve_spec, TicketError, TicketStore, TicketView};

verus! {

/// A byte that an HTTP header name may hold (an RFC 9110 `tchar`).
pub open spec fn is_token_byte(b: u8) -> bool {
    ||| b == 33
    ||| 35 <= b <= 39
    ||| b == 42
    ||| b == 43
    ||| b == 45
    ||| b == 46
    ||| 48 <= b <= 57
    ||| 65 <= b <= 90
    ||| 94 <= b <= 96
    ||| 97 <= b <= 122
    ||| b == 124
    ||| b == 126
}

/// The bytes form an acceptable HTTP header name.
pub open spec fn valid_header_name_bytes(b: Seq<u8>) -> bool {
    1 <= b.len() <= 65535 && forall|i: int| 0 <= i < b.len() ==> is_token_byte(#[trigger] b[i])
}

/// The bytes form an acceptable HTTP header value.
pub open spec fn valid_header_value_bytes(b: Seq<u8>) -> bool {
    forall|i: int| 0 <= i < b.len() ==> ((#[trigger] b[i] >= 32 && b[i] != 127) || b[i] == 9)
}

/// The header can be sent upstream.
pub open spec fn header_pair_accepted(p: (Seq<char>, Seq<char>)) -> bool {
    valid_header_name_bytes(encode_utf8(p.0)) && valid_header_value_bytes(encode_utf8(p.1))
}

/// The headers of `h` that can be sent upstream, in order.
pub open spec fn forwardable(h: Seq<(Seq<char>, Seq<char>)>) -> Seq<(Seq<char>, Seq<char>)>
    decreases h.len(),
{
    if h.len() == 0 {
        Seq::empty()
    } else {
        forwardable(h.drop_last()) + if header_pair_accepted(h.last()) {
            seq![h.last()]
        } else {
            Seq::empty()
        }
    }
}

/// `HeaderName::from_bytes(name.as_bytes())` succeeds: the name is between
/// 1 and 65535 bytes long and every byte is a token character.
#[verifier::external_body]
fn header_name_accepted(name: &str) -> (b: bool)
    ensures
        b == valid_header_name_bytes(encode_utf8(name@)),
{
    axum::http::HeaderName::from_bytes(name.as_bytes()).is_ok()
}

/// `HeaderValue::from_str(value)` succeeds: every byte is a tab, or at
/// least 32 and not 127.
#[verifier::external_body]
pub(crate) fn header_value_accepted(value: &str) -> (b: bool)
    ensures
        b == valid_header_value_bytes(encode_utf8(value@)),
{
    axum::http::HeaderValue::from_str(value).is_ok()
}

/// The headers of `h` that can be sent upstream, in order.
pub fn forwardable_headers(h: &Vec<(String, String)>) -> (r: Vec<(String, String)>)
    ensures
        pairs_view(r@) == forwardable(pairs_view(h@)),
{
    let mut r: Vec<(String, String)> = Vec::new();
    let mut i: usize = 0;
    while i < h.len()
        invariant
            i <= h.len(),
            pairs_view(r@) == forwardable(pairs_view(h@.take(i as int))),
        decreases h.len() - i,
    {
        let (name, value) = &h[i];
        let ghost before = r@;
        assert(pairs_view(h@.take(i + 1)).drop_last() =~= pairs_view(h@.take(i as int)));
        assert(pairs_view(h@.take(i + 1)).last() == (name@, value@));
        if header_name_accepted(name.as_str()) && header_value_accepted(value.as_str()) {
            r.push((name.clone(), value.clone()));
            assert(pairs_view(r@) =~= pairs_view(before) + seq![(name@, value@)]);
        } else {
            assert(pairs_view(r@) =~= pairs_view(before) + Seq::<(Seq<char>, Seq<char>)>::empty());
        }
        i = i + 1;
    }
    assert(h@.take(h.len() as int) =~= h@);
    r
}

/// A request for `file` (or for the ticket's own URL when there is none)
/// is a request for a DASH manifest.
pub open spec fn manifest_requested(url: Seq<char>, file: Option<Seq<char>>) -> bool {
    match file {
        None => is_dash_url(url),
        Some(f) => {
            let name = trim_start_char(f, '/');
            name == "manifest.mpd"@ || name == "index.mpd"@ || ends_with(name, ".mpd"@)
        },
    }
}

/// The upstream URL that a media request for `file` under ticket URL `url`
/// goes to: `file`, without leading slashes, next to the ticket URL's last
/// path segment; the ticket URL itself without a file or a slash.
pub open spec fn upstream_target(url: Seq<char>, file: Option<Seq<char>>) -> Seq<char> {
    match file {
        Some(f) => match rfind_char(url, '/') {
            Some(k) => url.take(k) + "/"@ + trim_start_char(f, '/'),
            None => url,
        },
        None => url,
    }
}

/// The request is for a DASH manifest.
pub fn is_manifest_request(url: &str, file: Option<&str>) -> (b: bool)
    ensures
        b == manifest_requested(url@, match file {
            Some(f) => Some(f@),
            None => None,
        }),
{
    match file {
        None => is_dash(url),
        Some(f) => {
            let fc = chars_of(f);
            let name = trim_start_char_in(&fc, '/');
            let manifest = chars_of("manifest.mpd");
            let index = chars_of("index.mpd");
            let mpd = chars_of(".mpd");
            chars_equal(&name, &manifest) || chars_equal(&name, &index) || ends_with_in(&name, &mpd)
        },
    }
}

/// The upstream URL of a media request.
pub fn target_url(url: &str, file: Option<&str>) -> (t: String)
    ensures
        t@ == upstream_target(url@, match file {
            Some(f) => Some(f@),
            None => None,
        }),
{
    match file {
        Some(f) => {
            let u = chars_of(url);
            match rfind_char_in(&u, '/') {
                Some(k) => {
                    proof {
                        lemma_rfind_char(u@, '/');
                    }
                    let fc = chars_of(f);
                    let name = trim_start_char_in(&fc, '/');
                    let mut out = slice_chars(&u, 0, k);
                    out.push('/');
                    extend_chars(&mut out, &name);
                    proof {
                        reveal_strlit("/");
                    }
                    assert(out@ =~= upstream_target(url@, Some(f@)));
                    string_of(&out)
                },
                None => url.to_owned(),
            }
        },
        None => url.to_owned(),
    }
}

/// What the proxy fetches for one request: the DASH manifest (to be
/// rewritten) or a media file (to be passed through), and the ticket's
/// headers that can be sent with it.
pub struct ProxyPlan {
    pub manifest: bool,
    pub url: String,
    pub headers: Vec<(String, String)>,
}

/// The abstract content of a proxy plan.
pub struct ProxyPlanView {
    pub manifest: bool,
    pub url: Seq<char>,
    pub headers: Seq<(Seq<char>, Seq<char>)>,
}

impl View for ProxyPlan {
    type V = ProxyPlanView;

    open spec fn view(&self) -> ProxyPlanView {
        ProxyPlanView { manifest: self.manifest, url: self.url@, headers: pairs_view(self.headers@) }
    }
}

/// The plan for a request for `file` under ticket `t`.
pub open spec fn plan_for(t: TicketView, file: Option<Seq<char>>) -> ProxyPlanView {
    if manifest_requested(t.url, file) {
        ProxyPlanView { manifest: true, url: t.url, headers: forwardable(t.headers) }
    } else {
        ProxyPlanView { manifest: false, url: upstream_target(t.url, file), headers: forwardable(t.headers) }
    }
}

impl TicketStore {
    /// The plan for a request for `file` under ticket identifier
    /// `ticket_id` at `now`, or why the ticket is refused.
    pub fn plan_proxy(&self, ticket_id: &str, file: Option<&str>, now: u64) -> (r: Result<ProxyPlan, TicketError>)
        ensures
            match resolve_spec(self@, ticket_id@, now) {
                Ok(t) => r matches Ok(p) && p@ == plan_for(t, match file {
                    Some(f) => Some(f@),
                    None => None,
                }),
                Err(e) => r == Err::<ProxyPlan, TicketError>(e),
            },
    {
        match self.resolve(ticket_id, now) {
            Err(e) => Err(e),
            Ok(t) => {
                let headers = forwardable_headers(&t.headers);
                if is_manifest_request(t.url.as_str(), file) {
                    Ok(ProxyPlan { manifest: true, url: t.url, headers })
                } else {
                    let url = target_url(t.url.as_str(), file);
                    Ok(ProxyPlan { manifest: false, url, headers })
                }
            },
        }
    }
}

/// The proxy URL handed out for a stream is served as intended: for a DASH
/// stream it names `manifest.mpd`, which the proxy fetches from the
/// ticket's URL as a manifest; for any other stream it names no file, and
/// the proxy passes the ticket's URL through.
pub proof fn law_handed_out_url_is_served(t: TicketView)
    ensures
        is_dash_url(t.url) ==> plan_for(t, Some("manifest.mpd"@)).manifest && plan_for(
            t,
            Some("manifest.mpd"@),
        ).url == t.url,
        !is_dash_url(t.url) ==> !plan_for(t, None).manifest && plan_for(t, None).url == t.url,
{
    reveal_strlit("manifest.mpd");
    assert(trim_start_char("manifest.mpd"@, '/') == "manifest.mpd"@);
}

proof fn lemma_trim_leading_slashes(f: Seq<char>, n: int)
    requires
        0 <= n <= f.len(),
        forall|i: int| 0 <= i < n ==> f[i] == '/',
        n == f.len() || f[n] != '/',
    ensures
        trim_start_char(f, '/') == f.skip(n),
    decreases n,
{
    if n == 0 {
        assert(f.skip(0) =~= f);
    } else {
        lemma_trim_leading_slashes(f.drop_first(), n - 1);
        assert(f.drop_first().skip(n - 1) =~= f.skip(n));
    }
}

proof fn lemma_last_slash(url: Seq<char>, k: int)
    requires
        0 <= k < url.len(),
        url[k] == '/',
        forall|j: int| k < j < url.len() ==> url[j] != '/',
    ensures
        rfind_char(url, '/') == Some(k),
{
    lemma_rfind_char(url, '/');
}

/// A media request for file `f` goes next to the ticket URL's last path
/// segment: the ticket URL up to its last `/`, then `/`, then `f` with
/// only its leading slashes removed (inner path separators kept). A
/// ticket URL without `/` is fetched as it is, and so is one requested
/// with no file.
pub proof fn law_media_target(t: TicketView, f: Seq<char>, n: int, k: int)
    requires
        0 <= n <= f.len(),
        forall|i: int| 0 <= i < n ==> f[i] == '/',
        n == f.len() || f[n] != '/',
    ensures
        !manifest_requested(t.url, Some(f)) && 0 <= k < t.url.len() && t.url[k] == '/' && (forall|
            j: int,
        | k < j < t.url.len() ==> t.url[j] != '/') ==> plan_for(t, Some(f)).url == t.url.take(k)
            + seq!['/'] + f.skip(n),
        !manifest_requested(t.url, Some(f)) && (forall|j: int| 0 <= j < t.url.len() ==> t.url[j]
            != '/') ==> plan_for(t, Some(f)).url == t.url,
        !manifest_requested(t.url, None) ==> plan_for(t, None).url == t.url,
{
    reveal_strlit("/");
    lemma_trim_leading_slashes(f, n);
    lemma_rfind_char(t.url, '/');
    if 0 <= k < t.url.len() && t.url[k] == '/' && (forall|j: int| k < j < t.url.len() ==> t.url[j] != '/') {
        lemma_last_slash(t.url, k);
    }
}

/// The names are equal when ASCII case is ignored (`str::eq_ignore_ascii_case`).
pub open spec fn eq_ignore_ascii_case(a: Seq<char>, b: Seq<char>) -> bool {
    ascii_lower(a) == ascii_lower(b)
}

/// The upstream response header is passed on to the client.
pub open spec fn forwarded_response_header(name: Seq<char>) -> bool {
    ||| eq_ignore_ascii_case(name, "content-type"@)
    ||| eq_ignore_ascii_case(name, "content-length"@)
    ||| eq_ignore_ascii_case(name, "content-range"@)
    ||| eq_ignore_ascii_case(name, "accept-ranges"@)
    ||| eq_ignore_ascii_case(name, "etag"@)
    ||| eq_ignore_ascii_case(name, "last-modified"@)
}

fn same_ignoring_case(lower: &[char], b: &str) -> (r: bool)
    requires
        lower@ == ascii_lower(lower@),
    ensures
        r == (lower@ == ascii_lower(b@)),
{
    let bl = ascii_lowercase(b);
    let bc = chars_of(bl.as_str());
    chars_equal(lower, &bc)
}

/// The upstream response header `name` is passed on to the client.
pub fn is_forwarded_response_header(name: &str) -> (b: bool)
    ensures
        b == forwarded_response_header(name@),
{
    let lower = ascii_lowercase(name);
    let l = chars_of(lower.as_str());
    proof {
        assert(ascii_lower(ascii_lower(name@)) =~= ascii_lower(name@));
    }
    same_ignoring_case(&l, "content-type") || same_ignoring_case(&l, "content-length")
        || same_ignoring_case(&l, "content-range") || same_ignoring_case(&l, "accept-ranges")
        || same_ignoring_case(&l, "etag") || same_ignoring_case(&l, "last-modified")
}

/// The cross-origin headers that every proxied stream response carries.
pub open spec fn stream_cors_headers() -> Seq<(Seq<char>, Seq<char>)> {
    seq![
        ("access-control-allow-origin"@, "*"@),
        ("access-control-allow-methods"@, "GET, HEAD, OPTIONS"@),
        ("access-control-allow-headers"@, "*"@),
        ("access-control-expose-headers"@, "Content-Range, Content-Length, Accept-Ranges, Content-Type"@),
    ]
}

fn push_header(h: &mut Vec<(String, String)>, name: &str, value: &str)
    ensures
        pairs_view(final(h)@) == pairs_view(old(h)@).push((name@, value@)),
{
    h.push((String::from_str(name), String::from_str(value)));
    assert(pairs_view(h@) =~= pairs_view(old(h)@).push((name@, value@)));
}

fn push_stream_cors_headers(h: &mut Vec<(String, String)>)
    ensures
        pairs_view(final(h)@) == pairs_view(old(h)@) + stream_cors_headers(),
{
    push_header(h, "access-control-allow-origin", "*");
    push_header(h, "access-control-allow-methods", "GET, HEAD, OPTIONS");
    push_header(h, "access-control-allow-headers", "*");
    push_header(h, "access-control-expose-headers", "Content-Range, Content-Length, Accept-Ranges, Content-Type");
    assert(pairs_view(h@) =~= pairs_view(old(h)@) + stream_cors_headers());
}

/// The headers of a rewritten manifest response whose body is
/// `content_length` bytes long.
pub fn manifest_response_headers(content_length: u64) -> (h: Vec<(String, String)>)
    ensures
        pairs_view(h@) == seq![
            ("content-type"@, "application/dash+xml; charset=utf-8"@),
            ("content-length"@, decimal_digits(content_length as nat)),
        ] + stream_cors_headers(),
{
    let mut h: Vec<(String, String)> = Vec::new();
    push_header(&mut h, "content-type", "application/dash+xml; charset=utf-8");
    let len = decimal_text(content_length);
    push_header(&mut h, "content-length", len.as_str());
    assert(pairs_view(h@) =~= seq![
        ("content-type"@, "application/dash+xml; charset=utf-8"@),
        ("content-length"@, decimal_digits(content_length as nat)),
    ]);
    push_stream_cors_headers(&mut h);
    assert(pairs_view(h@) =~= seq![
        ("content-type"@, "application/dash+xml; charset=utf-8"@),
        ("content-length"@, decimal_digits(content_length as nat)),
    ] + stream_cors_headers());
    h
}

/// The headers that a passed-through media response carries besides the
/// upstream headers that are forwarded.
pub fn media_response_headers() -> (h: Vec<(String, String)>)
    ensures
        pairs_view(h@) == seq![("accept-ranges"@, "bytes"@)] + stream_cors_headers(),
{
    let mut h: Vec<(String, String)> = Vec::new();
    push_header(&mut h, "accept-ranges", "bytes");
    push_stream_cors_headers(&mut h);
    assert(pairs_view(h@) =~= seq![("accept-ranges"@, "bytes"@)] + stream_cors_headers());
    h
}

/// The headers of a subtitle response.
pub fn subtitle_response_headers() -> (h: Vec<(String, String)>)
    ensures
        pairs_view(h@) == seq![
            ("content-type"@, "text/vtt; charset=utf-8"@),
            ("access-control-allow-origin"@, "*"@),
        ],
{
    let mut h: Vec<(String, String)> = Vec::new();
    push_header(&mut h, "content-type", "text/vtt; charset=utf-8");
    push_header(&mut h, "access-control-allow-origin", "*");
    assert(pairs_view(h@) =~= seq![
        ("content-type"@, "text/vtt; charset=utf-8"@),
        ("access-control-allow-origin"@, "*"@),
    ]);
    h
}

} // verus!
