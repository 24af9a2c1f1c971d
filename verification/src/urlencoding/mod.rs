//! Percent encoding of bytes for the query string of a tracker announce.

use vstd::prelude::*;

verus! {

/// Whether a byte is sent as it is: letters, digits and `-`, `_`, `.`, `~`.
pub open spec fn spec_is_unreserved(c: u8) -> bool {
    (48 <= c <= 57) || (65 <= c <= 90) || (97 <= c <= 122) || c == 45 || c == 95 || c == 46 || c == 126
}

/// The upper case hexadecimal digit of a value below 16.
pub open spec fn spec_hex_digit(v: int) -> u8 {
    if v < 10 {
        (48 + v) as u8
    } else {
        (55 + v) as u8
    }
}

/// The value of a hexadecimal digit, in either case.
pub open spec fn spec_hex_value(c: u8) -> Option<int> {
    if 48 <= c <= 57 {
        Some(c - 48)
    } else if 65 <= c <= 70 {
        Some(c - 55)
    } else if 97 <= c <= 102 {
        Some(c - 87)
    } else {
        None
    }
}

/// The encoding of one byte.
pub open spec fn spec_encode_byte(c: u8) -> Seq<u8> {
    if spec_is_unreserved(c) {
        seq![c]
    } else {
        seq![37u8, spec_hex_digit(c as int / 16), spec_hex_digit(c as int % 16)]
    }
}

/// The percent encoding of bytes.
pub open spec fn spec_url_encode(s: Seq<u8>) -> Seq<u8>
    decreases s.len(),
{
    if s.len() == 0 {
        Seq::empty()
    } else {
        spec_encode_byte(s[0]) + spec_url_encode(s.subrange(1, s.len() as int))
    }
}

/// The decoding of percent encoded bytes: `%` and two hexadecimal digits stand for one byte,
/// every other byte for itself.
pub open spec fn spec_url_decode(s: Seq<u8>) -> Seq<u8>
    decreases s.len(),
{
    if s.len() == 0 {
        Seq::empty()
    } else if s[0] == 37 && s.len() >= 3 && spec_hex_value(s[1]) is Some && spec_hex_value(s[2]) is Some {
        seq![(spec_hex_value(s[1])->0 * 16 + spec_hex_value(s[2])->0) as u8]
            + spec_url_decode(s.subrange(3, s.len() as int))
    } else {
        seq![s[0]] + spec_url_decode(s.subrange(1, s.len() as int))
    }
}

fn is_unreserved(c: u8) -> (res: bool)
    ensures
        res == spec_is_unreserved(c),
{
    (48 <= c && c <= 57) || (65 <= c && c <= 90) || (97 <= c && c <= 122) || c == 45 || c == 95
        || c == 46 || c == 126
}

fn hex_digit(v: u8) -> (res: u8)
    requires
        v < 16,
    ensures
        res == spec_hex_digit(v as int),
{
    if v < 10 {
        48 + v
    } else {
        55 + v
    }
}

fn hex_value(c: u8) -> (res: Option<u8>)
    ensures
        match res {
            Some(v) => spec_hex_value(c) == Some(v as int) && v < 16,
            None => spec_hex_value(c) is None,
        },
{
    if 48 <= c && c <= 57 {
        Some(c - 48)
    } else if 65 <= c && c <= 70 {
        Some(c - 55)
    } else if 97 <= c && c <= 102 {
        Some(c - 87)
    } else {
        None
    }
}

proof fn lemma_encode_step(s: Seq<u8>, i: int)
    requires
        0 <= i < s.len(),
    ensures
        spec_url_encode(s.subrange(i, s.len() as int)) == spec_encode_byte(s[i]) + spec_url_encode(
            s.subrange(i + 1, s.len() as int),
        ),
{
    let t = s.subrange(i, s.len() as int);
    assert(t.subrange(1, t.len() as int) =~= s.subrange(i + 1, s.len() as int));
}

/// Percent encodes bytes, such as an info hash, for a query string.
pub fn from_string(bytes: Vec<u8>) -> (res: Vec<u8>)
    ensures
        res@ == spec_url_encode(bytes@),
{
    let mut out: Vec<u8> = Vec::new();
    let mut i: usize = 0;
    assert(bytes@.subrange(0, bytes@.len() as int) =~= bytes@);
    while i < bytes.len()
        invariant
            0 <= i <= bytes@.len(),
            out@ + spec_url_encode(bytes@.subrange(i as int, bytes@.len() as int)) == spec_url_encode(bytes@),
        decreases bytes@.len() - i,
    {
        let c = bytes[i];
        proof {
            lemma_encode_step(bytes@, i as int);
        }
        let ghost before = out@;
        if is_unreserved(c) {
            out.push(c);
        } else {
            out.push(37u8);
            out.push(hex_digit(c / 16));
            out.push(hex_digit(c % 16));
        }
        assert(out@ =~= before + spec_encode_byte(c));
        i = i + 1;
    }
    assert(bytes@.subrange(bytes@.len() as int, bytes@.len() as int) =~= Seq::<u8>::empty());
    assert(out@ + Seq::<u8>::empty() =~= out@);
    out
}

/// Decodes percent encoded bytes.
pub fn from_url(bytes: Vec<u8>) -> (res: Vec<u8>)
    ensures
        res@ == spec_url_decode(bytes@),
{
    let mut out: Vec<u8> = Vec::new();
    let mut i: usize = 0;
    let n = bytes.len();
    assert(bytes@.subrange(0, n as int) =~= bytes@);
    while i < n
        invariant
            n == bytes@.len(),
            0 <= i <= n,
            out@ + spec_url_decode(bytes@.subrange(i as int, n as int)) == spec_url_decode(bytes@),
        decreases n - i,
    {
        let ghost t = bytes@.subrange(i as int, n as int);
        let ghost before = out@;
        let c = bytes[i];
        if c == 37 && n - i >= 3 {
            let h = hex_value(bytes[i + 1]);
            let l = hex_value(bytes[i + 2]);
            match (h, l) {
                (Some(hv), Some(lv)) => {
                    assert(t[1] == bytes@[i + 1] && t[2] == bytes@[i + 2]);
                    assert(t.subrange(3, t.len() as int) =~= bytes@.subrange(i + 3, n as int));
                    out.push(hv * 16 + lv);
                    assert(out@ =~= before + seq![(spec_hex_value(t[1])->0 * 16 + spec_hex_value(t[2])->0) as u8]);
                    i = i + 3;
                    continue;
                },
                _ => {
                    assert(t[1] == bytes@[i + 1] && t[2] == bytes@[i + 2]);
                },
            }
        }
        assert(t.subrange(1, t.len() as int) =~= bytes@.subrange(i + 1, n as int));
        out.push(c);
        assert(out@ =~= before + seq![t[0]]);
        i = i + 1;
    }
    assert(bytes@.subrange(n as int, n as int) =~= Seq::<u8>::empty());
    assert(out@ + Seq::<u8>::empty() =~= out@);
    out
}

/// Decoding undoes percent encoding: any bytes, encoded and then decoded, come back unchanged.
pub proof fn lemma_url_decode_encode(s: Seq<u8>)
    ensures
        spec_url_decode(spec_url_encode(s)) == s,
    decreases s.len(),
{
    if s.len() > 0 {
        let t = s.subrange(1, s.len() as int);
        lemma_url_decode_encode(t);
        let e = spec_url_encode(s);
        let et = spec_url_encode(t);
        let c = s[0];
        if spec_is_unreserved(c) {
            assert(e == seq![c] + et);
            assert(e.subrange(1, e.len() as int) =~= et);
        } else {
            let hi = c as int / 16;
            let lo = c as int % 16;
            assert(e == seq![37u8, spec_hex_digit(hi), spec_hex_digit(lo)] + et);
            assert(e.subrange(3, e.len() as int) =~= et);
            assert(spec_hex_value(spec_hex_digit(hi)) == Some(hi));
            assert(spec_hex_value(spec_hex_digit(lo)) == Some(lo));
        }
        assert(s =~= seq![c] + t);
    }
}

} // verus!
