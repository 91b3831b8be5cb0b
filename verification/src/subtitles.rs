//! Subtitles: listing them with proxy URLs, and serving them as WebVTT
//! (SubRip files are converted).

use vstd::prelude::*;
use vstd::utf8::{decode_utf8, encode_utf8};
use crate::text::{
    chars_of, contains, contains_in, extend_chars, find_from, find_in, is_whitespace, trim_start_whitespace,
    lemma_find_from, replace_all, replace_in, slice_chars, starts_with, starts_with_in,
    string_of, trim_start,
};

verus! {

/// `l` without one trailing carriage return.
pub open spec fn strip_cr(l: Seq<char>) -> Seq<char> {
    if l.len() > 0 && l.last() == '\r' {
        l.drop_last()
    } else {
        l
    }
}

/// The lines of `s` from index `pos` on (`str::lines`): split at `\n`, a
/// `\r` before the `\n` dropped, and no empty line after a final `\n`.
pub open spec fn lines_from(s: Seq<char>, pos: int) -> Seq<Seq<char>>
    decreases s.len() - pos,
{
    if pos < 0 || pos >= s.len() {
        Seq::empty()
    } else {
        match find_from(s, seq!['\n'], pos) {
            Some(k) => {
                proof {
                    lemma_find_from(s, seq!['\n'], pos);
                }
                seq![strip_cr(s.subrange(pos, k))] + lines_from(s, k + 1)
            },
            None => seq![s.skip(pos)],
        }
    }
}

/// The lines of `s` (`str::lines`).
pub open spec fn text_lines(s: Seq<char>) -> Seq<Seq<char>> {
    lines_from(s, 0)
}

/// A SubRip line in WebVTT: cue timing lines (those holding `-->`) get `.`
/// in place of every `,`.
pub open spec fn vtt_line(l: Seq<char>) -> Seq<char> {
    if contains(l, "-->"@) {
        replace_all(l, seq![','], seq!['.'])
    } else {
        l
    }
}

/// The converted lines, each followed by `\n`.
pub open spec fn vtt_body(ls: Seq<Seq<char>>) -> Seq<char>
    decreases ls.len(),
{
    if ls.len() == 0 {
        Seq::empty()
    } else {
        vtt_line(ls[0]) + seq!['\n'] + vtt_body(ls.drop_first())
    }
}

/// The subtitle text as WebVTT: unchanged when it already starts (after
/// white space) with `WEBVTT`; otherwise a `WEBVTT` header and the
/// converted SubRip lines.
pub open spec fn as_webvtt(s: Seq<char>) -> Seq<char> {
    if starts_with(trim_start(s), "WEBVTT"@) {
        s
    } else {
        "WEBVTT\n\n"@ + vtt_body(text_lines(s))
    }
}

fn vtt_line_exec(l: &[char]) -> (v: Vec<char>)
    ensures
        v@ == vtt_line(l@),
{
    let arrow = chars_of("-->");
    if contains_in(l, &arrow) {
        let comma = vec![','];
        let dot = vec!['.'];
        assert(comma@ =~= seq![',']);
        assert(dot@ =~= seq!['.']);
        replace_in(l, &comma, &dot)
    } else {
        slice_chars(l, 0, l.len())
    }
}

proof fn lemma_vtt_body_cons(l: Seq<char>, rest: Seq<Seq<char>>)
    ensures
        vtt_body(seq![l] + rest) == vtt_line(l) + seq!['\n'] + vtt_body(rest),
{
    assert((seq![l] + rest).drop_first() =~= rest);
}

/// The subtitle text as WebVTT.
pub fn srt_to_vtt(text: &str) -> (r: String)
    ensures
        r@ == as_webvtt(text@),
{
    let s = chars_of(text);
    let trimmed = trim_start_whitespace(&s);
    let header = chars_of("WEBVTT");
    if starts_with_in(&trimmed, &header) {
        return string_of(&s);
    }
    let mut out = chars_of("WEBVTT\n\n");
    let nl = vec!['\n'];
    assert(nl@ =~= seq!['\n']);
    let ghost start = out@;
    let mut pos: usize = 0;
    while pos < s.len()
        invariant
            pos <= s.len(),
            nl@ == seq!['\n'],
            start + vtt_body(lines_from(s@, 0)) == out@ + vtt_body(lines_from(s@, pos as int)),
        decreases s.len() - pos,
    {
        match find_in(&s, &nl, pos) {
            Some(k) => {
                proof {
                    lemma_find_from(s@, nl@, pos as int);
                }
                let mut line = slice_chars(&s, pos, k);
                if line.len() > 0 && line[line.len() - 1] == '\r' {
                    line.pop();
                }
                assert(line@ =~= strip_cr(s@.subrange(pos as int, k as int)));
                let converted = vtt_line_exec(&line);
                proof {
                    lemma_vtt_body_cons(line@, lines_from(s@, k + 1));
                }
                extend_chars(&mut out, &converted);
                out.push('\n');
                pos = k + 1;
            },
            None => {
                let line = slice_chars(&s, pos, s.len());
                assert(line@ =~= s@.skip(pos as int));
                let converted = vtt_line_exec(&line);
                proof {
                    lemma_vtt_body_cons(line@, Seq::empty());
                    assert(seq![line@] + Seq::<Seq<char>>::empty() =~= seq![line@]);
                    assert(lines_from(s@, s.len() as int) =~= Seq::<Seq<char>>::empty());
                }
                extend_chars(&mut out, &converted);
                out.push('\n');
                pos = s.len();
            },
        }
    }
    assert(out@ =~= start + vtt_body(lines_from(s@, 0)));
    string_of(&out)
}

/// Text served as WebVTT starts (after white space) with the `WEBVTT`
/// header, and serving it again leaves it unchanged.
pub proof fn law_webvtt_header_and_idempotence(s: Seq<char>)
    ensures
        starts_with(trim_start(as_webvtt(s)), "WEBVTT"@),
        as_webvtt(as_webvtt(s)) == as_webvtt(s),
{
    reveal_strlit("WEBVTT\n\n");
    reveal_strlit("WEBVTT");
    if !starts_with(trim_start(s), "WEBVTT"@) {
        let v = as_webvtt(s);
        assert(v[0] == 'W');
        assert(!is_whitespace(v[0]));
        assert(trim_start(v) == v);
        assert(v.take(6) =~= "WEBVTT"@);
    }
}

/// `l` holds `-->` starting at index `i`.
pub open spec fn arrow_at(l: Seq<char>, i: int) -> bool {
    0 <= i && i + 2 < l.len() && l[i] == '-' && l[i + 1] == '-' && l[i + 2] == '>'
}

proof fn lemma_contains_arrow(l: Seq<char>)
    ensures
        contains(l, "-->"@) <==> exists|i: int| arrow_at(l, i),
{
    reveal_strlit("-->");
    if contains(l, "-->"@) {
        let i = choose|i: int| crate::text::occurs_at(l, "-->"@, i);
        assert(l.subrange(i, i + 3)[0] == l[i]);
        assert(l.subrange(i, i + 3)[1] == l[i + 1]);
        assert(l.subrange(i, i + 3)[2] == l[i + 2]);
        assert(arrow_at(l, i));
    }
    if exists|i: int| arrow_at(l, i) {
        let i = choose|i: int| arrow_at(l, i);
        assert(l.subrange(i, i + 3) =~= "-->"@);
        assert(crate::text::occurs_at(l, "-->"@, i));
    }
}

proof fn lemma_replace_comma(l: Seq<char>)
    ensures
        replace_all(l, seq![','], seq!['.']).len() == l.len(),
        forall|i: int|
            0 <= i < l.len() ==> #[trigger] replace_all(l, seq![','], seq!['.'])[i] == if l[i] == ',' {
                '.'
            } else {
                l[i]
            },
    decreases l.len(),
{
    if l.len() > 0 {
        let r = replace_all(l, seq![','], seq!['.']);
        let t = replace_all(l.drop_first(), seq![','], seq!['.']);
        lemma_replace_comma(l.drop_first());
        assert(l.skip(1) =~= l.drop_first());
        if l[0] == ',' {
            assert(l.take(1) =~= seq![',']);
            assert(r == seq!['.'] + t);
        } else {
            assert(l.take(1) != seq![',']) by {
                assert(l.take(1)[0] == l[0]);
            }
            assert(r == seq![l[0]] + t);
        }
        assert forall|i: int| 0 <= i < l.len() implies #[trigger] r[i] == if l[i] == ',' {
            '.'
        } else {
            l[i]
        } by {
            if i > 0 {
                assert(r[i] == t[i - 1]);
                assert(l.drop_first()[i - 1] == l[i]);
            }
        }
    }
}

/// Only cue timing lines change: a line without `-->` is kept as it is
/// (commas in cue text survive); a line with `-->` keeps its length and
/// every character but `,`, which becomes `.`.
pub proof fn law_only_timing_lines_change(l: Seq<char>)
    ensures
        (forall|i: int| !arrow_at(l, i)) ==> vtt_line(l) == l,
        (exists|i: int| arrow_at(l, i)) ==> vtt_line(l).len() == l.len() && forall|i: int|
            0 <= i < l.len() ==> #[trigger] vtt_line(l)[i] == if l[i] == ',' {
                '.'
            } else {
                l[i]
            },
{
    lemma_contains_arrow(l);
    lemma_replace_comma(l);
}

/// The converted body is each converted line followed by a newline, in
/// order: one line gives its conversion and `\n`, and the body of two
/// runs of lines is the first body followed by the second.
pub proof fn law_vtt_body_is_lines_in_order(a: Seq<Seq<char>>, b: Seq<Seq<char>>, l: Seq<char>)
    ensures
        vtt_body(seq![l]) == vtt_line(l) + seq!['\n'],
        vtt_body(a + b) == vtt_body(a) + vtt_body(b),
    decreases a.len(),
{
    assert(seq![l].drop_first() =~= Seq::<Seq<char>>::empty());
    assert(vtt_body(Seq::<Seq<char>>::empty()) == Seq::<char>::empty());
    assert(seq![l][0] == l);
    assert(vtt_body(seq![l]) == vtt_line(l) + seq!['\n'] + vtt_body(Seq::<Seq<char>>::empty()));
    assert(vtt_line(l) + seq!['\n'] + Seq::<char>::empty() =~= vtt_line(l) + seq!['\n']);
    if a.len() == 0 {
        assert(a + b =~= b);
        assert(Seq::<char>::empty() + vtt_body(b) =~= vtt_body(b));
    } else {
        law_vtt_body_is_lines_in_order(a.drop_first(), b, l);
        assert((a + b).drop_first() =~= a.drop_first() + b);
        assert((a + b)[0] == a[0]);
        assert(vtt_body(a + b) =~= vtt_body(a) + vtt_body(b));
    }
}

/// An ASCII letter or digit: the bytes that percent-encoding leaves alone.
pub open spec fn is_ascii_alphanumeric_byte(b: u8) -> bool {
    (48 <= b <= 57) || (65 <= b <= 90) || (97 <= b <= 122)
}

/// The upper-case hexadecimal digit for `d` (`d < 16`).
pub open spec fn hex_upper_digit(d: int) -> char {
    if d < 10 {
        (48 + d) as char
    } else {
        (55 + d) as char
    }
}

/// One byte percent-encoded: a letter or digit stays, any other byte
/// becomes `%` and two upper-case hexadecimal digits.
pub open spec fn percent_encoded_byte(x: u8) -> Seq<char> {
    if is_ascii_alphanumeric_byte(x) {
        seq![x as char]
    } else {
        seq!['%', hex_upper_digit(x as int / 16), hex_upper_digit(x as int % 16)]
    }
}

/// The bytes percent-encoded, one after the other.
pub open spec fn percent_encoded(b: Seq<u8>) -> Seq<char>
    decreases b.len(),
{
    if b.len() == 0 {
        Seq::empty()
    } else {
        percent_encoded_byte(b[0]) + percent_encoded(b.drop_first())
    }
}

/// The value of a hexadecimal digit of either case.
pub open spec fn hex_digit_any_case(c: char) -> Option<int> {
    if '0' <= c <= '9' {
        Some(c as int - 48)
    } else if 'A' <= c <= 'F' {
        Some(c as int - 55)
    } else if 'a' <= c <= 'f' {
        Some(c as int - 87)
    } else {
        None
    }
}

/// Percent-decoding (`percent_decode_str`): `%` followed by two
/// hexadecimal digits is the byte they denote; every other character
/// stands for its own code as a byte.
pub open spec fn percent_decoded(s: Seq<char>) -> Seq<u8>
    decreases s.len(),
{
    if s.len() == 0 {
        Seq::empty()
    } else if s.len() >= 3 && s[0] == '%' && hex_digit_any_case(s[1]) is Some && hex_digit_any_case(
        s[2],
    ) is Some {
        seq![(hex_digit_any_case(s[1])->0 * 16 + hex_digit_any_case(s[2])->0) as u8]
            + percent_decoded(s.skip(3))
    } else {
        seq![s[0] as u8] + percent_decoded(s.drop_first())
    }
}

/// The text is a sequence of ASCII letters, digits and `%XX` escapes with
/// two upper-case hexadecimal digits.
pub open spec fn escapes_well_formed(s: Seq<char>) -> bool
    decreases s.len(),
{
    if s.len() == 0 {
        true
    } else if s[0] == '%' {
        s.len() >= 3 && (('0' <= s[1] <= '9') || ('A' <= s[1] <= 'F')) && (('0' <= s[2] <= '9') || (
        'A' <= s[2] <= 'F')) && escapes_well_formed(s.skip(3))
    } else {
        (('0' <= s[0] <= '9') || ('A' <= s[0] <= 'Z') || ('a' <= s[0] <= 'z')) && escapes_well_formed(
            s.drop_first(),
        )
    }
}

proof fn lemma_hex_upper_digit(d: int)
    requires
        0 <= d < 16,
    ensures
        hex_digit_any_case(hex_upper_digit(d)) == Some(d),
        ('0' <= hex_upper_digit(d) <= '9') || ('A' <= hex_upper_digit(d) <= 'F'),
{
}

/// Percent-encoding leaves well-formed escapes, and decoding them gives
/// back the encoded bytes.
pub proof fn law_percent_decoding_undoes_encoding(b: Seq<u8>)
    ensures
        escapes_well_formed(percent_encoded(b)),
        percent_decoded(percent_encoded(b)) == b,
    decreases b.len(),
{
    if b.len() > 0 {
        law_percent_decoding_undoes_encoding(b.drop_first());
        let x = b[0];
        let rest = percent_encoded(b.drop_first());
        let e = percent_encoded(b);
        assert(e == percent_encoded_byte(x) + rest);
        if is_ascii_alphanumeric_byte(x) {
            assert(e[0] == x as char);
            assert(e.drop_first() =~= rest);
            assert((x as char) as u8 == x);
            assert(percent_decoded(e) == seq![x] + percent_decoded(rest));
        } else {
            lemma_hex_upper_digit(x as int / 16);
            lemma_hex_upper_digit(x as int % 16);
            assert(e[0] == '%');
            assert(e[1] == hex_upper_digit(x as int / 16));
            assert(e[2] == hex_upper_digit(x as int % 16));
            assert(e.skip(3) =~= rest);
            assert((x as int / 16) * 16 + x as int % 16 == x as int);
            assert(percent_decoded(e) == seq![x] + percent_decoded(rest));
        }
        assert(seq![x] + b.drop_first() =~= b);
    }
}

/// `percent_encoding::utf8_percent_encode(s, NON_ALPHANUMERIC)`, as a
/// string: the UTF-8 bytes of `s` with every byte but an ASCII letter or
/// digit written as `%XX` in upper-case hexadecimal.
#[verifier::external_body]
fn percent_encode_component(s: &str) -> (r: String)
    ensures
        r@ == percent_encoded(encode_utf8(s@)),
{
    percent_encoding::utf8_percent_encode(s, percent_encoding::NON_ALPHANUMERIC).to_string()
}

/// A percent-encoded string holds only ASCII letters, digits and `%`, so it
/// can stand as a query parameter value as it is.
pub proof fn law_percent_encoded_is_query_safe(b: Seq<u8>)
    ensures
        forall|i: int|
            0 <= i < percent_encoded(b).len() ==> {
                let c = #[trigger] percent_encoded(b)[i];
                ('0' <= c <= '9') || ('A' <= c <= 'Z') || ('a' <= c <= 'z') || c == '%'
            },
    decreases b.len(),
{
    if b.len() > 0 {
        law_percent_encoded_is_query_safe(b.drop_first());
        let head = percent_encoded_byte(b[0]);
        let rest = percent_encoded(b.drop_first());
        assert(percent_encoded(b) == head + rest);
        assert forall|i: int| 0 <= i < percent_encoded(b).len() implies {
            let c = #[trigger] percent_encoded(b)[i];
            ('0' <= c <= '9') || ('A' <= c <= 'Z') || ('a' <= c <= 'z') || c == '%'
        } by {
            if i < head.len() {
                assert(percent_encoded(b)[i] == head[i]);
            } else {
                assert(percent_encoded(b)[i] == rest[i - head.len()]);
            }
        }
    }
}

/// A subtitle track as an upstream provider reports it.
pub struct SubtitleTrack {
    pub name: String,
    pub url: String,
}

/// A subtitle track as the gateway hands it to clients.
pub struct WebSubtitleOption {
    pub name: String,
    pub url: String,
    pub proxy_url: String,
}

/// The URL under `base_url` that serves the subtitle at `url` as WebVTT.
pub open spec fn subtitle_proxy_url(base_url: Seq<char>, url: Seq<char>) -> Seq<char> {
    base_url + "/api/v1/subtitles/proxy?url="@ + percent_encoded(encode_utf8(url))
}

/// The URL under `base_url` that serves the subtitle at `url` as WebVTT.
pub fn make_subtitle_proxy_url(base_url: &str, url: &str) -> (u: String)
    ensures
        u@ == subtitle_proxy_url(base_url@, url@),
{
    let encoded = percent_encode_component(url);
    let mut u = String::from_str(base_url);
    u.append("/api/v1/subtitles/proxy?url=");
    u.append(encoded.as_str());
    u
}

/// The `url` query of a subtitle's proxy URL is made of letters, digits and
/// `%XX` escapes, and percent-decoding it and reading the bytes as UTF-8
/// gives back the subtitle's URL: the subtitle proxy fetches exactly the
/// URL that was listed.
pub proof fn law_subtitle_query_gives_back_url(base_url: Seq<char>, url: Seq<char>)
    ensures
        ({
            let q = subtitle_proxy_url(base_url, url).skip(
                (base_url.len() + "/api/v1/subtitles/proxy?url="@.len()) as int,
            );
            &&& escapes_well_formed(q)
            &&& decode_utf8(percent_decoded(q)) == url
        }),
{
    let q = subtitle_proxy_url(base_url, url).skip(
        (base_url.len() + "/api/v1/subtitles/proxy?url="@.len()) as int,
    );
    assert(q =~= percent_encoded(encode_utf8(url)));
    law_percent_decoding_undoes_encoding(encode_utf8(url));
    vstd::utf8::encode_utf8_decode_utf8(url);
}

/// The tracks as the gateway hands them to clients.
pub fn subtitle_options(tracks: &Vec<SubtitleTrack>, base_url: &str) -> (v: Vec<WebSubtitleOption>)
    ensures
        v@.len() == tracks@.len(),
        forall|i: int|
            0 <= i < v@.len() ==> {
                &&& (#[trigger] v@[i]).name == tracks@[i].name
                &&& v@[i].url == tracks@[i].url
                &&& v@[i].proxy_url@ == subtitle_proxy_url(base_url@, tracks@[i].url@)
            },
{
    let mut v: Vec<WebSubtitleOption> = Vec::new();
    let mut i: usize = 0;
    while i < tracks.len()
        invariant
            i <= tracks@.len(),
            v@.len() == i,
            forall|k: int|
                0 <= k < i ==> {
                    &&& (#[trigger] v@[k]).name == tracks@[k].name
                    &&& v@[k].url == tracks@[k].url
                    &&& v@[k].proxy_url@ == subtitle_proxy_url(base_url@, tracks@[k].url@)
                },
        decreases tracks@.len() - i,
    {
        let t = &tracks[i];
        let proxy_url = make_subtitle_proxy_url(base_url, t.url.as_str());
        v.push(WebSubtitleOption { name: t.name.clone(), url: t.url.clone(), proxy_url });
        i = i + 1;
    }
    v
}

} // verus!
