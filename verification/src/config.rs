//! Start-up settings read from the environment: listening port, public
//! URL, log level and the CORS origins.

use vstd::prelude::*;
use vstd::utf8::encode_utf8;
use crate::proxy::{header_value_accepted, valid_header_value_bytes};
use crate::text::{
    chars_equal, chars_of, find_from, find_in, lemma_find_from, slice_chars, string_of, trim,
    trim_end_char, trim_end_char_in, trim_whitespace,
};

verus! {

/// The port used when `PORT` is unset or not a port number.
pub const DEFAULT_PORT: u16 = 8080;

/// Every character of `s` is an ASCII digit.
pub open spec fn all_decimal(s: Seq<char>) -> bool {
    forall|i: int| 0 <= i < s.len() ==> '0' <= #[trigger] s[i] <= '9'
}

/// The number that a string of ASCII digits denotes.
pub open spec fn decimal_value(s: Seq<char>) -> nat
    decreases s.len(),
{
    if s.len() == 0 {
        0
    } else {
        decimal_value(s.drop_last()) * 10 + (s.last() as nat - 48) as nat
    }
}

/// `s` as a `u16` (`str::parse::<u16>`): an optional `+`, then one or more
/// ASCII digits denoting at most 65535.
pub open spec fn parsed_u16(s: Seq<char>) -> Option<u16> {
    let d = if s.len() > 0 && s[0] == '+' {
        s.drop_first()
    } else {
        s
    };
    if d.len() > 0 && all_decimal(d) && decimal_value(d) <= 65535 {
        Some(decimal_value(d) as u16)
    } else {
        None
    }
}

/// The port to listen on, from the `PORT` setting.
pub open spec fn port_for(setting: Option<Seq<char>>) -> u16 {
    match setting {
        Some(s) => match parsed_u16(s) {
            Some(p) => p,
            None => DEFAULT_PORT,
        },
        None => DEFAULT_PORT,
    }
}

proof fn lemma_decimal_prefix(d: Seq<char>, i: int)
    requires
        0 <= i <= d.len(),
        all_decimal(d),
    ensures
        decimal_value(d.take(i)) <= decimal_value(d),
    decreases d.len() - i,
{
    if i < d.len() {
        assert(d.take(i + 1).drop_last() =~= d.take(i));
        assert('0' <= d.take(i + 1).last() <= '9');
        lemma_decimal_prefix(d, i + 1);
    } else {
        assert(d.take(i) =~= d);
    }
}

/// `s` as a `u16`, if it is one.
pub fn parse_u16(s: &str) -> (r: Option<u16>)
    ensures
        r == parsed_u16(s@),
{
    let cs = chars_of(s);
    let start: usize = if cs.len() > 0 && cs[0] == '+' {
        1
    } else {
        0
    };
    let d = slice_chars(&cs, start, cs.len());
    proof {
        if start == 1 {
            assert(d@ =~= s@.drop_first());
        } else {
            assert(d@ =~= s@);
        }
    }
    let ghost digits = if s@.len() > 0 && s@[0] == '+' {
        s@.drop_first()
    } else {
        s@
    };
    assert(d@ == digits);
    if d.len() == 0 {
        return None;
    }
    let mut acc: u32 = 0;
    let mut i: usize = 0;
    while i < d.len()
        invariant
            i <= d.len(),
            d@ == digits,
            digits == if s@.len() > 0 && s@[0] == '+' {
                s@.drop_first()
            } else {
                s@
            },
            acc == decimal_value(d@.take(i as int)),
            acc <= 65535,
            all_decimal(d@.take(i as int)),
        decreases d.len() - i,
    {
        let c = d[i];
        if !('0' <= c && c <= '9') {
            assert(!all_decimal(d@)) by {
                assert(!('0' <= d@[i as int] <= '9'));
            }
            return None;
        }
        assert(d@.take(i + 1).drop_last() =~= d@.take(i as int));
        acc = acc * 10 + ((c as u32) - 48);
        i = i + 1;
        assert(all_decimal(d@.take(i as int))) by {
            assert forall|j: int| 0 <= j < i implies '0' <= #[trigger] d@.take(i as int)[j] <= '9' by {
                if j < i - 1 {
                    assert(d@.take(i as int)[j] == d@.take(i - 1)[j]);
                }
            }
        }
        if acc > 65535 {
            proof {
                if all_decimal(d@) {
                    lemma_decimal_prefix(d@, i as int);
                }
            }
            return None;
        }
    }
    assert(d@.take(d.len() as int) =~= d@);
    Some(acc as u16)
}

/// The port to listen on, from the `PORT` setting.
pub fn port_from_setting(setting: Option<&str>) -> (p: u16)
    ensures
        p == port_for(match setting {
            Some(s) => Some(s@),
            None => None,
        }),
{
    match setting {
        Some(s) => match parse_u16(s) {
            Some(p) => p,
            None => DEFAULT_PORT,
        },
        None => DEFAULT_PORT,
    }
}

/// The public URL from the `PUBLIC_SERVER_URL` setting, without trailing
/// slashes.
pub fn public_url_from_setting(setting: Option<&str>) -> (r: Option<String>)
    ensures
        match setting {
            Some(s) => r matches Some(u) && u@ == trim_end_char(s@, '/'),
            None => r is None,
        },
{
    match setting {
        Some(s) => {
            let cs = chars_of(s);
            let t = trim_end_char_in(&cs, '/');
            Some(string_of(&t))
        },
        None => None,
    }
}

/// The log specification: `RUST_LOG`, else `MOVIEBOX_LOG`, else `info`.
pub fn log_level(rust_log: Option<&str>, moviebox_log: Option<&str>) -> (r: String)
    ensures
        r@ == (match rust_log {
            Some(l) => l@,
            None => match moviebox_log {
                Some(l) => l@,
                None => "info"@,
            },
        }),
{
    match rust_log {
        Some(l) => String::from_str(l),
        None => match moviebox_log {
            Some(l) => String::from_str(l),
            None => String::from_str("info"),
        },
    }
}

/// The pieces of `s` from index `pos` on, split at every `c` (`str::split`).
pub open spec fn split_from(s: Seq<char>, c: char, pos: int) -> Seq<Seq<char>>
    decreases s.len() - pos,
{
    if pos < 0 || pos > s.len() {
        Seq::empty()
    } else {
        match find_from(s, seq![c], pos) {
            Some(k) => {
                proof {
                    lemma_find_from(s, seq![c], pos);
                }
                seq![s.subrange(pos, k)] + split_from(s, c, k + 1)
            },
            None => seq![s.skip(pos)],
        }
    }
}

/// The allowed origins among comma-separated `parts`: each trimmed, and
/// kept when not empty and a valid header value.
pub open spec fn origins_among(parts: Seq<Seq<char>>) -> Seq<Seq<char>>
    decreases parts.len(),
{
    if parts.len() == 0 {
        Seq::empty()
    } else {
        let t = trim(parts[0]);
        (if t.len() > 0 && valid_header_value_bytes(encode_utf8(t)) {
            seq![t]
        } else {
            Seq::empty()
        }) + origins_among(parts.drop_first())
    }
}

/// Which origins may call the gateway: `None` for any origin. A
/// `CORS_ORIGIN` setting that is not blank and not `*` lists the allowed
/// origins, comma-separated; if none of them is usable, any origin may.
pub open spec fn cors_origins_for(setting: Option<Seq<char>>) -> Option<Seq<Seq<char>>> {
    match setting {
        Some(s) => {
            let t = trim(s);
            if t.len() > 0 && t != "*"@ {
                let o = origins_among(split_from(s, ',', 0));
                if o.len() > 0 {
                    Some(o)
                } else {
                    None
                }
            } else {
                None
            }
        },
        None => None,
    }
}

/// Which origins may call the gateway.
pub enum CorsPolicy {
    /// Any origin, any method, any header.
    AllowAny,
    /// Only these origins, with credentials and a fixed set of methods and
    /// headers.
    AllowOrigins(Vec<String>),
}

proof fn lemma_origins_cons(t: Seq<char>, parts: Seq<Seq<char>>)
    ensures
        origins_among(seq![t] + parts) == (if trim(t).len() > 0 && valid_header_value_bytes(
            encode_utf8(trim(t)),
        ) {
            seq![trim(t)]
        } else {
            Seq::empty()
        }) + origins_among(parts),
{
    assert((seq![t] + parts).drop_first() =~= parts);
}

/// The CORS policy that the `CORS_ORIGIN` setting asks for.
pub fn cors_policy(setting: Option<&str>) -> (p: CorsPolicy)
    ensures
        match cors_origins_for(match setting {
            Some(s) => Some(s@),
            None => None,
        }) {
            Some(o) => p matches CorsPolicy::AllowOrigins(v) && v@.map_values(|x: String| x@) == o,
            None => p is AllowAny,
        },
{
    let s = match setting {
        Some(s) => s,
        None => {
            return CorsPolicy::AllowAny;
        },
    };
    let cs = chars_of(s);
    let t = trim_whitespace(&cs);
    let star = chars_of("*");
    if t.len() == 0 || chars_equal(&t, &star) {
        return CorsPolicy::AllowAny;
    }
    let comma = vec![','];
    assert(comma@ =~= seq![',']);
    let mut origins: Vec<String> = Vec::new();
    let mut pos: usize = 0;
    let mut done = false;
    while !done
        invariant
            pos <= cs.len(),
            comma@ == seq![','],
            done ==> origins@.map_values(|x: String| x@) == origins_among(split_from(cs@, ',', 0)),
            !done ==> origins_among(split_from(cs@, ',', 0)) == origins@.map_values(|x: String| x@)
                + origins_among(split_from(cs@, ',', pos as int)),
        decreases (cs.len() - pos) as int + if done {
            0int
        } else {
            1int
        },
    {
        let ghost before = origins@.map_values(|x: String| x@);
        let (piece, next) = match find_in(&cs, &comma, pos) {
            Some(k) => {
                proof {
                    lemma_find_from(cs@, comma@, pos as int);
                }
                (slice_chars(&cs, pos, k), Some(k + 1))
            },
            None => (slice_chars(&cs, pos, cs.len()), None),
        };
        let part = trim_whitespace(&piece);
        proof {
            lemma_origins_cons(piece@, match next {
                Some(n) => split_from(cs@, ',', n as int),
                None => Seq::empty(),
            });
        }
        if part.len() > 0 {
            let text = string_of(&part);
            if header_value_accepted(text.as_str()) {
                origins.push(text);
            }
        }
        assert(origins@.map_values(|x: String| x@) =~= before + (if part@.len() > 0
            && valid_header_value_bytes(encode_utf8(part@)) {
            seq![part@]
        } else {
            Seq::empty()
        }));
        match next {
            Some(n) => {
                pos = n;
            },
            None => {
                assert(seq![piece@] + Seq::<Seq<char>>::empty() =~= seq![piece@]);
                assert(origins_among(Seq::<Seq<char>>::empty()) =~= Seq::<Seq<char>>::empty());
                done = true;
            },
        }
    }
    if origins.len() > 0 {
        CorsPolicy::AllowOrigins(origins)
    } else {
        CorsPolicy::AllowAny
    }
}

} // verus!
