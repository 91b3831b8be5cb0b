//! Stream ticket identifiers: a ticket number is written as lower-case
//! hexadecimal without leading zeros, as `format!("{:x}", n)` writes it.

use vstd::prelude::*;
use crate::text::{chars_equal, chars_of, string_of};

verus! {

/// The lower-case hexadecimal digit for `d` (`d < 16`).
pub open spec fn hex_digit_char(d: nat) -> char {
    if d < 10 {
        (48 + d) as char
    } else {
        (87 + d) as char
    }
}

/// The value of a lower-case hexadecimal digit.
pub open spec fn hex_digit_value(c: char) -> Option<nat> {
    if '0' <= c <= '9' {
        Some((c as u32 - 48) as nat)
    } else if 'a' <= c <= 'f' {
        Some((c as u32 - 87) as nat)
    } else {
        None
    }
}

/// `n` in lower-case hexadecimal, without leading zeros.
pub open spec fn hex_digits(n: nat) -> Seq<char>
    decreases n,
{
    if n < 16 {
        seq![hex_digit_char(n)]
    } else {
        hex_digits(n / 16) + seq![hex_digit_char(n % 16)]
    }
}

/// The number that a string of lower-case hexadecimal digits denotes.
pub open spec fn hex_value(s: Seq<char>) -> nat
    decreases s.len(),
{
    if s.len() == 0 {
        0
    } else {
        hex_value(s.drop_last()) * 16 + match hex_digit_value(s.last()) {
            Some(d) => d,
            None => 0,
        }
    }
}

/// Every character of `s` is a lower-case hexadecimal digit.
pub open spec fn all_hex_digits(s: Seq<char>) -> bool {
    forall|i: int| 0 <= i < s.len() ==> (#[trigger] hex_digit_value(s[i])) is Some
}

/// 16 to the power `k`.
pub open spec fn pow16(k: nat) -> nat
    decreases k,
{
    if k == 0 {
        1
    } else {
        16 * pow16((k - 1) as nat)
    }
}

/// The ticket number whose identifier is `id`, if `id` is the identifier
/// of a ticket number.
pub open spec fn ticket_number(id: Seq<char>) -> Option<u128> {
    if exists|n: u128| hex_digits(n as nat) == id {
        Some(choose|n: u128| hex_digits(n as nat) == id)
    } else {
        None
    }
}

proof fn lemma_hex_digit(d: nat)
    requires
        d < 16,
    ensures
        hex_digit_value(hex_digit_char(d)) == Some(d),
{
}

/// Shape and value of a hexadecimal numeral.
pub proof fn lemma_hex_digits(n: nat)
    ensures
        hex_digits(n).len() >= 1,
        all_hex_digits(hex_digits(n)),
        hex_value(hex_digits(n)) == n,
        n >= 16 ==> hex_digits(n)[0] != '0',
        n < 16 ==> hex_digits(n).len() == 1,
    decreases n,
{
    if n < 16 {
        lemma_hex_digit(n);
        let h = hex_digits(n);
        assert(h.drop_last() =~= Seq::<char>::empty());
        assert(hex_value(h.drop_last()) == 0);
        assert(h.last() == hex_digit_char(n));
        assert(hex_value(h) == n);
    } else {
        lemma_hex_digits(n / 16);
        lemma_hex_digit(n % 16);
        let h = hex_digits(n);
        assert(h.drop_last() =~= hex_digits(n / 16));
        assert(h.last() == hex_digit_char(n % 16));
        vstd::arithmetic::div_mod::lemma_fundamental_div_mod(n as int, 16);
        assert(hex_value(h.drop_last()) == n / 16);
        assert(hex_value(h) == hex_value(h.drop_last()) * 16 + n % 16);
        assert(hex_value(h) == n);
        assert forall|i: int| 0 <= i < h.len() implies (#[trigger] hex_digit_value(h[i])) is Some by {
            if i < h.len() - 1 {
                assert(h[i] == hex_digits(n / 16)[i]);
            }
        }
        if n / 16 >= 16 {
        } else {
            assert(hex_digits(n / 16) == seq![hex_digit_char(n / 16)]);
            lemma_hex_digit(n / 16);
        }
    }
}

/// Distinct numbers have distinct numerals.
pub proof fn lemma_hex_digits_injective(a: nat, b: nat)
    requires
        hex_digits(a) == hex_digits(b),
    ensures
        a == b,
{
    lemma_hex_digits(a);
    lemma_hex_digits(b);
}

/// A number below `16^k` has at most `k` digits.
pub proof fn lemma_hex_digits_len(n: nat, k: nat)
    requires
        k >= 1,
        n < pow16(k),
    ensures
        hex_digits(n).len() <= k,
    decreases n,
{
    if n >= 16 {
        assert(pow16(k) == 16 * pow16((k - 1) as nat));
        if k == 1 {
            assert(pow16(0) == 1);
        }
        lemma_hex_digits_len(n / 16, (k - 1) as nat);
    }
}

proof fn lemma_pow16_mono(i: nat, j: nat)
    requires
        i <= j,
    ensures
        pow16(i) <= pow16(j),
    decreases j,
{
    if i < j {
        lemma_pow16_mono(i, (j - 1) as nat);
    }
}

proof fn lemma_pow16_32()
    ensures
        pow16(32) == 0x1_0000_0000_0000_0000_0000_0000_0000_0000,
{
    reveal_with_fuel(pow16, 33);
}

/// Every identifier of a ticket number names that number.
pub proof fn law_ticket_id_names_its_number(n: u128)
    ensures
        ticket_number(hex_digits(n as nat)) == Some(n),
{
    let id = hex_digits(n as nat);
    assert(hex_digits(n as nat) == id);
    let m = choose|m: u128| hex_digits(m as nat) == id;
    lemma_hex_digits_injective(m as nat, n as nat);
}

fn hex_digit_char_exec(d: u8) -> (c: char)
    requires
        d < 16,
    ensures
        c == hex_digit_char(d as nat),
{
    if d < 10 {
        (48 + d) as char
    } else {
        (87 + d) as char
    }
}

fn hex_digit_value_exec(c: char) -> (r: Option<u8>)
    ensures
        match r {
            Some(d) => hex_digit_value(c) == Some(d as nat) && d < 16,
            None => hex_digit_value(c) is None,
        },
{
    if '0' <= c && c <= '9' {
        Some(((c as u32) - 48) as u8)
    } else if 'a' <= c && c <= 'f' {
        Some(((c as u32) - 87) as u8)
    } else {
        None
    }
}

/// The identifier of ticket number `n` (`format!("{:x}", n)`).
pub fn ticket_id_text(n: u128) -> (s: String)
    ensures
        s@ == hex_digits(n as nat),
{
    let mut m = n;
    let mut tail: Vec<char> = Vec::new();
    while m >= 16
        invariant
            hex_digits(n as nat) == hex_digits(m as nat) + tail@,
        decreases m,
    {
        let d = (m % 16) as u8;
        let c = hex_digit_char_exec(d);
        tail.insert(0, c);
        assert(hex_digits(m as nat) == hex_digits((m / 16) as nat) + seq![c]);
        assert(hex_digits(n as nat) =~= hex_digits((m / 16) as nat) + tail@);
        m = m / 16;
    }
    let mut out: Vec<char> = Vec::new();
    out.push(hex_digit_char_exec(m as u8));
    let mut i: usize = 0;
    while i < tail.len()
        invariant
            i <= tail.len(),
            out@ == hex_digits(m as nat) + tail@.take(i as int),
        decreases tail.len() - i,
    {
        out.push(tail[i]);
        i = i + 1;
        assert(out@ =~= hex_digits(m as nat) + tail@.take(i as int));
    }
    assert(tail@.take(tail.len() as int) =~= tail@);
    string_of(&out)
}

/// The ticket number that `id` identifies, if `id` is exactly the
/// identifier of some ticket number.
pub fn parse_ticket_id(id: &str) -> (r: Option<u128>)
    ensures
        r == ticket_number(id@),
{
    let cs = chars_of(id);
    if cs.len() == 0 || cs.len() > 32 {
        proof {
            if exists|n: u128| hex_digits(n as nat) == id@ {
                let n = choose|n: u128| hex_digits(n as nat) == id@;
                lemma_hex_digits(n as nat);
                lemma_pow16_32();
                lemma_hex_digits_len(n as nat, 32);
            }
        }
        return None;
    }
    let mut acc: u128 = 0;
    let mut i: usize = 0;
    proof {
        lemma_pow16_32();
    }
    while i < cs.len()
        invariant
            i <= cs.len() <= 32,
            cs@ == id@,
            acc == hex_value(cs@.take(i as int)),
            acc < pow16(i as nat),
            all_hex_digits(cs@.take(i as int)),
            pow16(32) == 0x1_0000_0000_0000_0000_0000_0000_0000_0000,
        decreases cs.len() - i,
    {
        match hex_digit_value_exec(cs[i]) {
            Some(d) => {
                proof {
                    lemma_pow16_mono((i + 1) as nat, 32);
                    assert(pow16((i + 1) as nat) == 16 * pow16(i as nat));
                }
                assert(cs@.take(i + 1).drop_last() =~= cs@.take(i as int));
                acc = acc * 16 + d as u128;
                i = i + 1;
                assert forall|j: int| 0 <= j < i implies (#[trigger] hex_digit_value(cs@.take(i as int)[j])) is Some by {
                    if j < i - 1 {
                        assert(cs@.take(i as int)[j] == cs@.take(i - 1)[j]);
                    }
                }
            },
            None => {
                proof {
                    if exists|n: u128| hex_digits(n as nat) == id@ {
                        let n = choose|n: u128| hex_digits(n as nat) == id@;
                        lemma_hex_digits(n as nat);
                        assert(hex_digit_value(hex_digits(n as nat)[i as int]) is Some);
                    }
                }
                return None;
            },
        }
    }
    assert(cs@.take(cs.len() as int) =~= cs@);
    let back = ticket_id_text(acc);
    let back_chars = chars_of(back.as_str());
    if chars_equal(&back_chars, &cs) {
        proof {
            law_ticket_id_names_its_number(acc);
        }
        Some(acc)
    } else {
        proof {
            if exists|n: u128| hex_digits(n as nat) == id@ {
                let n = choose|n: u128| hex_digits(n as nat) == id@;
                lemma_hex_digits(n as nat);
            }
        }
        None
    }
}

} // verus!
