//! Rewriting of DASH manifests served through the stream proxy: every
//! segment request is pointed back at the proxy by a `<BaseURL>` element,
//! and bare HEVC codec strings are normalised.

use vstd::prelude::*;
use vstd::utf8::encode_utf8;
use crate::proxy::{manifest_response_headers, stream_cors_headers};
use crate::server::decimal_digits;
use crate::tickets::pairs_view;
use crate::text::{
    chars_of, contains, extend_chars, occurs_at, starts_with, find, find_from, find_in, lemma_find_from, replace_all, replace_in,
    slice_chars, string_of,
};

verus! {

/// The `<BaseURL>` element that points a DASH player at the proxy path of
/// `ticket_id` under `base_url`.
pub open spec fn base_url_tag(base_url: Seq<char>, ticket_id: Seq<char>) -> Seq<char> {
    "<BaseURL>"@ + base_url + "/api/v1/stream/proxy/"@ + ticket_id + "/</BaseURL>"@
}

/// The element that replaces the closing `</MPD>` when the manifest has no
/// `<BaseURL>` and no complete `<Period ...>` opening tag.
pub open spec fn mpd_close_with_tag(tag: Seq<char>) -> Seq<char> {
    tag + "</MPD>"@
}

/// The manifest with `tag` placed into it: it replaces the first
/// `<BaseURL>...</BaseURL>` element; without a `<BaseURL>` it goes right
/// after the first `<Period ...>` opening tag; failing that, before every
/// `</MPD>`. A `<BaseURL>` without a later `</BaseURL>` leaves the manifest
/// as it is.
pub open spec fn inject_base_url(m: Seq<char>, tag: Seq<char>) -> Seq<char> {
    match find(m, "<BaseURL>"@) {
        Some(open_at) => match find_from(m, "</BaseURL>"@, open_at) {
            Some(close_at) => m.take(open_at) + tag + m.skip(close_at + "</BaseURL>"@.len()),
            None => m,
        },
        None => match find(m, "<Period"@) {
            Some(period_at) => match find_from(m, ">"@, period_at) {
                Some(gt_at) => m.take(gt_at + 1) + tag + m.skip(gt_at + 1),
                None => replace_all(m, "</MPD>"@, mpd_close_with_tag(tag)),
            },
            None => replace_all(m, "</MPD>"@, mpd_close_with_tag(tag)),
        },
    }
}

/// Bare `codecs="hev1"` becomes the full RFC 6381 string, and then every
/// `codecs="hev1` prefix becomes `codecs="hvc1`.
pub open spec fn normalize_hevc(m: Seq<char>) -> Seq<char> {
    replace_all(
        replace_all(m, "codecs=\"hev1\""@, "codecs=\"hev1.1.6.L93.90\""@),
        "codecs=\"hev1"@,
        "codecs=\"hvc1"@,
    )
}

/// The manifest as the proxy serves it.
pub open spec fn rewritten_manifest(m: Seq<char>, base_url: Seq<char>, ticket_id: Seq<char>) -> Seq<char> {
    normalize_hevc(inject_base_url(m, base_url_tag(base_url, ticket_id)))
}

/// The replacement `r` cannot line up with a suffix of the pattern `p`:
/// wherever `p[k]` (`k >= 1`) equals `r[0]`, the next characters differ.
pub open spec fn no_suffix_start(p: Seq<char>, r: Seq<char>) -> bool {
    forall|k: int|
        1 <= k < p.len() ==> #[trigger] p[k] != r[0] || (k + 1 < p.len() && p[k + 1] != r[1])
}

/// A proper tail of `r` never ends like a prefix of `p`: `r`'s last
/// character is not `p[j]` for any `j` before `p`'s last.
pub open spec fn no_tail_overlap(p: Seq<char>, r: Seq<char>) -> bool {
    forall|j: int| 0 <= j < p.len() - 1 ==> #[trigger] p[j] != r[r.len() - 1]
}

proof fn lemma_replace_prefix_origin(s: Seq<char>, p: Seq<char>, r: Seq<char>, k: int)
    requires
        p.len() == r.len(),
        p.len() >= 2,
        no_suffix_start(p, r),
        1 <= k < p.len(),
        starts_with(replace_all(s, p, r), p.skip(k)),
    ensures
        starts_with(s, p.skip(k)),
    decreases s.len(),
{
    let n = p.len() as int;
    let out = replace_all(s, p, r);
    if s.len() < n {
    } else if s.take(n) == p {
        let rest = replace_all(s.skip(n), p, r);
        assert(out == r + rest);
        assert(out.take(n - k)[0] == p.skip(k)[0]);
        assert(out[0] == p.skip(k)[0]);
        assert(p.skip(k)[0] == p[k]);
        if k + 1 < n {
            assert(out.take(n - k)[1] == p.skip(k)[1]);
            assert(out[1] == p.skip(k)[1]);
        }
    } else {
        let t = s.drop_first();
        let rest = replace_all(t, p, r);
        assert(out == seq![s[0]] + rest);
        assert(out.take(n - k)[0] == p.skip(k)[0]);
        assert(out[0] == p[k]);
        if k + 1 < n {
            assert(rest.take(n - k - 1) =~= p.skip(k + 1)) by {
                assert forall|i: int| 0 <= i < n - k - 1 implies #[trigger] rest.take(n - k - 1)[i] == p.skip(k + 1)[i] by {
                    assert(out.take(n - k)[i + 1] == p.skip(k)[i + 1]);
                }
            }
            lemma_replace_prefix_origin(t, p, r, k + 1);
            assert(s.take(n - k) =~= p.skip(k)) by {
                assert forall|i: int| 0 <= i < n - k implies #[trigger] s.take(n - k)[i] == p.skip(k)[i] by {
                    if i > 0 {
                        assert(t.take(n - k - 1)[i - 1] == p.skip(k + 1)[i - 1]);
                    }
                }
            }
        } else {
            assert(s.take(n - k) =~= p.skip(k));
        }
    }
}

proof fn lemma_replace_removes_pattern(s: Seq<char>, p: Seq<char>, r: Seq<char>)
    requires
        p.len() == r.len(),
        p.len() >= 2,
        r != p,
        no_suffix_start(p, r),
        no_tail_overlap(p, r),
    ensures
        !contains(replace_all(s, p, r), p),
    decreases s.len(),
{
    let n = p.len() as int;
    let out = replace_all(s, p, r);
    if s.len() < n {
    } else if s.take(n) == p {
        let rest = replace_all(s.skip(n), p, r);
        lemma_replace_removes_pattern(s.skip(n), p, r);
        assert(out == r + rest);
        assert forall|i: int| !occurs_at(out, p, i) by {
            if occurs_at(out, p, i) {
                if i >= n {
                    assert(rest.subrange(i - n, i - n + n) =~= out.subrange(i, i + n));
                    assert(occurs_at(rest, p, i - n));
                } else if i == 0 {
                    assert(out.subrange(0, n) =~= r);
                } else {
                    assert(out.subrange(i, i + n)[n - 1 - i] == r[n - 1]);
                    assert(p[n - 1 - i] != r[n - 1]);
                }
            }
        }
    } else {
        let t = s.drop_first();
        let rest = replace_all(t, p, r);
        lemma_replace_removes_pattern(t, p, r);
        assert(out == seq![s[0]] + rest);
        assert forall|i: int| !occurs_at(out, p, i) by {
            if occurs_at(out, p, i) {
                if i >= 1 {
                    assert(rest.subrange(i - 1, i - 1 + n) =~= out.subrange(i, i + n));
                    assert(occurs_at(rest, p, i - 1));
                } else {
                    assert(rest.take(n - 1) =~= p.skip(1)) by {
                        assert forall|j: int| 0 <= j < n - 1 implies #[trigger] rest.take(n - 1)[j] == p.skip(1)[j] by {
                            assert(out.subrange(0, n)[j + 1] == p[j + 1]);
                        }
                    }
                    lemma_replace_prefix_origin(t, p, r, 1);
                    assert(s.take(n) =~= p) by {
                        assert forall|j: int| 0 <= j < n implies #[trigger] s.take(n)[j] == p[j] by {
                            if j > 0 {
                                assert(t.take(n - 1)[j - 1] == p.skip(1)[j - 1]);
                            } else {
                                assert(out.subrange(0, n)[0] == p[0]);
                            }
                        }
                    }
                }
            }
        }
    }
}

/// A served manifest never holds the `hev1` codec prefix: every
/// `codecs="hev1` has become `codecs="hvc1`.
pub proof fn law_served_manifest_has_no_hev1(m: Seq<char>, base_url: Seq<char>, ticket_id: Seq<char>)
    ensures
        !contains(rewritten_manifest(m, base_url, ticket_id), "codecs=\"hev1"@),
{
    reveal_strlit("codecs=\"hev1");
    reveal_strlit("codecs=\"hvc1");
    let p = "codecs=\"hev1"@;
    let r = "codecs=\"hvc1"@;
    assert(p[9] != r[9]);
    assert(no_suffix_start(p, r));
    assert(no_tail_overlap(p, r));
    lemma_replace_removes_pattern(
        replace_all(inject_base_url(m, base_url_tag(base_url, ticket_id)), "codecs=\"hev1\""@, "codecs=\"hev1.1.6.L93.90\""@),
        p,
        r,
    );
}

/// The `<BaseURL>` element for `ticket_id` under `base_url`.
pub fn make_base_url_tag(base_url: &str, ticket_id: &str) -> (t: String)
    ensures
        t@ == base_url_tag(base_url@, ticket_id@),
{
    let mut t = String::from_str("<BaseURL>");
    t.append(base_url);
    t.append("/api/v1/stream/proxy/");
    t.append(ticket_id);
    t.append("/</BaseURL>");
    t
}

fn inject_base_url_exec(m: &[char], tag: &[char]) -> (v: Vec<char>)
    ensures
        v@ == inject_base_url(m@, tag@),
{
    let n = m.len();
    let open = chars_of("<BaseURL>");
    let close = chars_of("</BaseURL>");
    let period = chars_of("<Period");
    let gt = chars_of(">");
    let mpd_close = chars_of("</MPD>");
    proof {
        reveal_strlit("</MPD>");
        reveal_strlit(">");
    }
    match find_in(m, &open, 0) {
        Some(open_at) => {
            match find_in(m, &close, open_at) {
                Some(close_at) => {
                    proof {
                        lemma_find_from(m@, close@, open_at as int);
                        assert(occurs_at(m@, close@, close_at as int));
                    }
                    let mut v = slice_chars(m, 0, open_at);
                    extend_chars(&mut v, tag);
                    let rest = slice_chars(m, close_at + close.len(), m.len());
                    extend_chars(&mut v, &rest);
                    assert(v@ =~= inject_base_url(m@, tag@));
                    v
                },
                None => {
                    let v = slice_chars(m, 0, n);
                    assert(v@ =~= m@);
                    v
                },
            }
        },
        None => {
            let mut closing = slice_chars(tag, 0, tag.len());
            extend_chars(&mut closing, &mpd_close);
            assert(closing@ =~= mpd_close_with_tag(tag@));
            match find_in(m, &period, 0) {
                Some(period_at) => {
                    match find_in(m, &gt, period_at) {
                        Some(gt_at) => {
                            proof {
                                lemma_find_from(m@, gt@, period_at as int);
                            }
                            let mut v = slice_chars(m, 0, gt_at + 1);
                            extend_chars(&mut v, tag);
                            let rest = slice_chars(m, gt_at + 1, m.len());
                            extend_chars(&mut v, &rest);
                            assert(v@ =~= inject_base_url(m@, tag@));
                            v
                        },
                        None => replace_in(m, &mpd_close, &closing),
                    }
                },
                None => replace_in(m, &mpd_close, &closing),
            }
        },
    }
}

/// The DASH manifest `manifest` as the proxy serves it for `ticket_id`:
/// with the proxy's `<BaseURL>` placed into it and HEVC codec strings
/// normalised.
pub fn rewrite_manifest(manifest: &str, base_url: &str, ticket_id: &str) -> (r: String)
    ensures
        r@ == rewritten_manifest(manifest@, base_url@, ticket_id@),
{
    let m = chars_of(manifest);
    let tag_string = make_base_url_tag(base_url, ticket_id);
    let tag = chars_of(tag_string.as_str());
    let injected = inject_base_url_exec(&m, &tag);
    let bare = chars_of("codecs=\"hev1\"");
    let full = chars_of("codecs=\"hev1.1.6.L93.90\"");
    let prefix = chars_of("codecs=\"hev1");
    let hvc = chars_of("codecs=\"hvc1");
    proof {
        reveal_strlit("codecs=\"hev1\"");
        reveal_strlit("codecs=\"hev1");
    }
    let step = replace_in(&injected, &bare, &full);
    let out = replace_in(&step, &prefix, &hvc);
    string_of(&out)
}

/// A rewritten manifest as the proxy answers with it.
pub struct ManifestResponse {
    pub status: u16,
    pub headers: Vec<(String, String)>,
    pub body: String,
}

/// The proxy's answer for DASH manifest `manifest` fetched under
/// `ticket_id`: status 200, the rewritten manifest as body, and headers
/// whose `content-length` is the body's length in UTF-8 bytes (as a
/// `usize`, which `str::len` returns).
pub fn manifest_response(manifest: &str, base_url: &str, ticket_id: &str) -> (r: ManifestResponse)
    ensures
        r.status == 200,
        r.body@ == rewritten_manifest(manifest@, base_url@, ticket_id@),
        pairs_view(r.headers@) == seq![
            ("content-type"@, "application/dash+xml; charset=utf-8"@),
            ("content-length"@, decimal_digits((encode_utf8(r.body@).len() as usize) as nat)),
        ] + stream_cors_headers(),
{
    let body = rewrite_manifest(manifest, base_url, ticket_id);
    let len = body.as_str().len();
    let headers = manifest_response_headers(len as u64);
    ManifestResponse { status: 200, headers, body }
}

} // verus!
