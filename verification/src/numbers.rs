//! Unsigned decimal numbers written in text, as in a query string or a configuration line.

use vstd::prelude::*;
use vstd::string::*;

verus! {

/// Whether a byte is an ASCII decimal digit.
pub open spec fn spec_is_digit(c: u8) -> bool {
    48 <= c <= 57
}

/// The value of a sequence of decimal digits, most significant first.
pub open spec fn spec_decimal_value(s: Seq<u8>) -> int
    decreases s.len(),
{
    if s.len() == 0 {
        0
    } else {
        spec_decimal_value(s.drop_last()) * 10 + (s.last() - 48)
    }
}

/// Whether every byte is a decimal digit.
pub open spec fn spec_all_digits(s: Seq<u8>) -> bool {
    forall|i: int| 0 <= i < s.len() ==> spec_is_digit(#[trigger] s[i])
}

/// The digits of a number: what follows an optional leading `+`.
pub open spec fn spec_unsigned_digits(s: Seq<u8>) -> Seq<u8> {
    if s.len() > 0 && s[0] == 43 {
        s.drop_first()
    } else {
        s
    }
}

/// An unsigned number no greater than `max`, read as the standard library reads one:
/// an optional `+`, then one or more decimal digits and nothing else.
pub open spec fn spec_parse_unsigned(s: Seq<u8>, max: int) -> Option<int> {
    let d = spec_unsigned_digits(s);
    if d.len() > 0 && spec_all_digits(d) && spec_decimal_value(d) <= max {
        Some(spec_decimal_value(d))
    } else {
        None
    }
}

/// An unsigned number in text: as [`spec_parse_unsigned`] on its bytes where every character
/// is ASCII, and no number otherwise.
pub open spec fn spec_parse_unsigned_text(s: Seq<char>, max: int) -> Option<int> {
    if vstd::utf8::is_ascii_chars(s) {
        spec_parse_unsigned(Seq::new(s.len(), |i: int| s[i] as u8), max)
    } else {
        None
    }
}

/// The value of digits never falls below zero, and the value of a prefix never exceeds the
/// value of the whole.
pub proof fn lemma_decimal_prefix(s: Seq<u8>, k: int)
    requires
        0 <= k <= s.len(),
        forall|i: int| 0 <= i < s.len() ==> spec_is_digit(#[trigger] s[i]),
    ensures
        0 <= spec_decimal_value(s.take(k)) <= spec_decimal_value(s),
    decreases s.len() - k,
{
    if k == s.len() {
        assert(s.take(k) =~= s);
        lemma_decimal_nonneg(s);
    } else {
        lemma_decimal_prefix(s, k + 1);
        assert(s.take(k + 1).drop_last() =~= s.take(k));
        lemma_decimal_nonneg(s.take(k));
    }
}

/// The value of digits is never negative.
pub proof fn lemma_decimal_nonneg(s: Seq<u8>)
    requires
        forall|i: int| 0 <= i < s.len() ==> spec_is_digit(#[trigger] s[i]),
    ensures
        0 <= spec_decimal_value(s),
    decreases s.len(),
{
    if s.len() > 0 {
        lemma_decimal_nonneg(s.drop_last());
    }
}

/// Reads an unsigned number no greater than `max` from bytes; see [`spec_parse_unsigned`].
pub fn parse_unsigned(s: &[u8], max: u64) -> (res: Option<u64>)
    ensures
        match spec_parse_unsigned(s@, max as int) {
            Some(v) => res matches Some(r) && r == v,
            None => res is None,
        },
{
    let mut start: usize = 0;
    if s.len() > 0 && s[0] == 43u8 {
        start = 1;
    }
    let ghost d = spec_unsigned_digits(s@);
    assert(d =~= s@.skip(start as int));
    if start >= s.len() {
        return None;
    }
    let mut acc: u64 = 0;
    let mut i: usize = start;
    while i < s.len()
        invariant
            start <= i <= s@.len(),
            start < s@.len(),
            d =~= s@.skip(start as int),
            d == spec_unsigned_digits(s@),
            forall|j: int| 0 <= j < i - start ==> spec_is_digit(#[trigger] d[j]),
            acc == spec_decimal_value(d.take(i - start)),
            acc <= max,
        decreases s@.len() - i,
    {
        let c = s[i];
        assert(d[i - start] == c);
        if c < 48u8 || c > 57u8 {
            assert(!spec_is_digit(d[i - start]));
            return None;
        }
        let v = (c - 48u8) as u64;
        assert(d.take(i - start + 1).drop_last() =~= d.take(i - start));
        let too_big = if acc > max / 10 {
            true
        } else {
            assert(acc * 10 <= max) by (nonlinear_arith)
                requires acc <= max / 10;
            v > max - acc * 10
        };
        if too_big {
            proof {
                assert(acc * 10 + v > max) by (nonlinear_arith)
                    requires acc > max / 10 || acc * 10 + v > max, v <= 9;
                if spec_all_digits(d) {
                    lemma_decimal_prefix(d, i - start + 1);
                }
            }
            return None;
        }
        acc = acc * 10 + v;
        i = i + 1;
    }
    assert(d.take(i - start) =~= d);
    Some(acc)
}

/// Reads an unsigned number from a text; see [`spec_parse_unsigned_text`].
pub fn parse_number_text(s: &String, max: u64) -> (res: Option<u64>)
    ensures
        match spec_parse_unsigned_text(s@, max as int) {
            Some(v) => res matches Some(r) && r == v,
            None => res is None,
        },
{
    if !s.is_ascii() {
        return None;
    }
    let text = s.as_str();
    proof {
        vstd::string::is_ascii_spec_bytes(text);
    }
    let bytes = text.as_bytes();
    assert(bytes@ =~= Seq::new(s@.len(), |i: int| s@[i] as u8));
    parse_unsigned(bytes, max)
}

/// The decimal text of a number, most significant digit first.
pub open spec fn spec_decimal_text(n: nat) -> Seq<char>
    decreases n,
{
    if n < 10 {
        seq![spec_digit_char(n)]
    } else {
        spec_decimal_text(n / 10) + seq![spec_digit_char(n % 10)]
    }
}

/// The character of a decimal digit.
pub open spec fn spec_digit_char(d: nat) -> char {
    if d == 0 {
        '0'
    } else if d == 1 {
        '1'
    } else if d == 2 {
        '2'
    } else if d == 3 {
        '3'
    } else if d == 4 {
        '4'
    } else if d == 5 {
        '5'
    } else if d == 6 {
        '6'
    } else if d == 7 {
        '7'
    } else if d == 8 {
        '8'
    } else {
        '9'
    }
}

/// The text of a decimal digit.
fn digit_text(d: u64) -> (res: &'static str)
    requires
        d < 10,
    ensures
        res@ == seq![spec_digit_char(d as nat)],
{
    proof {
        reveal_strlit("0");
        reveal_strlit("1");
        reveal_strlit("2");
        reveal_strlit("3");
        reveal_strlit("4");
        reveal_strlit("5");
        reveal_strlit("6");
        reveal_strlit("7");
        reveal_strlit("8");
        reveal_strlit("9");
    }
    if d == 0 {
        "0"
    } else if d == 1 {
        "1"
    } else if d == 2 {
        "2"
    } else if d == 3 {
        "3"
    } else if d == 4 {
        "4"
    } else if d == 5 {
        "5"
    } else if d == 6 {
        "6"
    } else if d == 7 {
        "7"
    } else if d == 8 {
        "8"
    } else {
        "9"
    }
}

/// The decimal text of a number.
pub fn decimal_text(n: u64) -> (res: String)
    ensures
        res@ == spec_decimal_text(n as nat),
    decreases n,
{
    if n < 10 {
        String::from_str(digit_text(n))
    } else {
        let mut text = decimal_text(n / 10);
        text.append(digit_text(n % 10));
        text
    }
}

} // verus!
