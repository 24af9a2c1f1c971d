//! Decoding of bencoded bytes into values.

use vstd::prelude::*;
use crate::bencoding::values::{
    spec_insert, spec_keys_sorted, value_model, Bencode, DicValues, ErrorBencoding, ValuesBencoding,
};

verus! {

/// Whether a byte is an ASCII decimal digit.
pub open spec fn spec_is_digit(c: u8) -> bool {
    48 <= c <= 57
}

/// The first position at or after `p` that does not hold a digit.
pub open spec fn spec_digits_end(b: Seq<u8>, p: int) -> int
    decreases b.len() - p,
{
    if 0 <= p < b.len() && spec_is_digit(b[p]) {
        spec_digits_end(b, p + 1)
    } else {
        p
    }
}

/// The value of the decimal digits from `start` up to `end`.
pub open spec fn spec_digits_value(b: Seq<u8>, start: int, end: int) -> int
    decreases end - start,
{
    if end <= start {
        0
    } else {
        spec_digits_value(b, start, end - 1) * 10 + (b[end - 1] - 48)
    }
}

/// Decoding an integer whose `i` stands at `pos`.
pub open spec fn spec_parse_int(b: Seq<u8>, pos: int) -> Result<(Bencode, int), ErrorBencoding> {
    let neg = pos < b.len() - 1 && b[pos + 1] == 45;
    let ds = if neg { pos + 2 } else { pos + 1 };
    let de = spec_digits_end(b, ds);
    if de == ds || de >= b.len() || b[de] != 101 {
        Err(ErrorBencoding::Integer)
    } else {
        let m = spec_digits_value(b, ds, de);
        let v = if neg { -m } else { m };
        if v < i64::MIN || v > i64::MAX {
            Err(ErrorBencoding::Integer)
        } else {
            Ok((Bencode::Int(v), de + 1))
        }
    }
}

/// Decoding a byte string whose length starts at `pos`.
pub open spec fn spec_parse_str(b: Seq<u8>, pos: int) -> Result<(Bencode, int), ErrorBencoding> {
    let de = spec_digits_end(b, pos);
    if de == pos || de >= b.len() || b[de] != 58 {
        Err(ErrorBencoding::String)
    } else {
        let n = spec_digits_value(b, pos, de);
        if de + 1 + n > b.len() {
            Err(ErrorBencoding::String)
        } else {
            Ok((Bencode::Str(b.subrange(de + 1, de + 1 + n)), de + 1 + n))
        }
    }
}

/// Decoding the value that starts at `pos`; on success, also where it ends.
pub open spec fn spec_parse_value(b: Seq<u8>, pos: int) -> Result<(Bencode, int), ErrorBencoding>
    decreases b.len() - pos, 0int,
{
    if pos < 0 || pos >= b.len() {
        Err(ErrorBencoding::UnexpectedEnd)
    } else if b[pos] == 105 {
        spec_parse_int(b, pos)
    } else if spec_is_digit(b[pos]) {
        spec_parse_str(b, pos)
    } else if b[pos] == 108 {
        match spec_parse_list_items(b, pos + 1, Seq::empty()) {
            Ok((l, p)) => Ok((Bencode::List(l), p)),
            Err(e) => Err(e),
        }
    } else if b[pos] == 100 {
        match spec_parse_dict_items(b, pos + 1, Seq::empty()) {
            Ok((d, p)) => Ok((Bencode::Dict(d), p)),
            Err(e) => Err(e),
        }
    } else {
        Err(ErrorBencoding::InvalidType)
    }
}

/// Decoding the items of a list from `pos` up to its closing `e`, after the items in `acc`.
pub open spec fn spec_parse_list_items(b: Seq<u8>, pos: int, acc: Seq<Bencode>) -> Result<(Seq<Bencode>, int), ErrorBencoding>
    decreases b.len() - pos, 1int,
{
    if pos < 0 || pos >= b.len() {
        Err(ErrorBencoding::List)
    } else if b[pos] == 101 {
        Ok((acc, pos + 1))
    } else {
        match spec_parse_value(b, pos) {
            Err(e) => Err(e),
            Ok((v, p)) => if pos < p <= b.len() {
                spec_parse_list_items(b, p, acc.push(v))
            } else {
                Err(ErrorBencoding::List)
            },
        }
    }
}

/// Decoding the entries of a dictionary from `pos` up to its closing `e`, stored into `acc`.
pub open spec fn spec_parse_dict_items(
    b: Seq<u8>,
    pos: int,
    acc: Seq<(Seq<u8>, Bencode)>,
) -> Result<(Seq<(Seq<u8>, Bencode)>, int), ErrorBencoding>
    decreases b.len() - pos, 1int,
{
    if pos < 0 || pos >= b.len() {
        Err(ErrorBencoding::Dic)
    } else if b[pos] == 101 {
        Ok((acc, pos + 1))
    } else if !spec_is_digit(b[pos]) {
        Err(ErrorBencoding::Dic)
    } else {
        match spec_parse_str(b, pos) {
            Err(e) => Err(e),
            Ok((k, p)) => if pos < p <= b.len() {
                match spec_parse_value(b, p) {
                    Err(e) => Err(e),
                    Ok((v, q)) => if p < q <= b.len() {
                        spec_parse_dict_items(b, q, spec_insert(acc, k->Str_0, v))
                    } else {
                        Err(ErrorBencoding::Dic)
                    },
                }
            } else {
                Err(ErrorBencoding::Dic)
            },
        }
    }
}

/// Decoding bytes that hold a bencoded dictionary.
pub open spec fn spec_decode_dic(b: Seq<u8>) -> Result<Seq<(Seq<u8>, Bencode)>, ErrorBencoding> {
    match spec_parse_value(b, 0) {
        Ok((Bencode::Dict(d), _)) => Ok(d),
        Ok(_) => Err(ErrorBencoding::Dic),
        Err(e) => Err(e),
    }
}


/// Each further digit does not lower the value of the digits.
pub proof fn lemma_digits_value_grows(b: Seq<u8>, start: int, end: int)
    requires
        start <= end < b.len(),
        spec_is_digit(b[end]),
        forall|k: int| start <= k < end ==> spec_is_digit(#[trigger] b[k]),
    ensures
        spec_digits_value(b, start, end + 1) == spec_digits_value(b, start, end) * 10 + (b[end] - 48),
        spec_digits_value(b, start, end + 1) >= spec_digits_value(b, start, end),
{
    assert(spec_digits_value(b, start, end) >= 0) by {
        lemma_digits_value_nonneg(b, start, end);
    }
}

pub proof fn lemma_digits_value_nonneg(b: Seq<u8>, start: int, end: int)
    requires
        end <= b.len(),
        forall|k: int| start <= k < end ==> spec_is_digit(#[trigger] b[k]),
    ensures
        spec_digits_value(b, start, end) >= 0,
    decreases end - start,
{
    if end > start {
        lemma_digits_value_nonneg(b, start, end - 1);
    }
}

/// Reads the digits from `p`: where they end and their value, or that the value is over `limit`.
fn scan_digits(b: &[u8], p: usize, limit: u64) -> (res: (usize, u64, bool))
    requires
        p <= b@.len(),
    ensures
        res.0 == spec_digits_end(b@, p as int),
        !res.2 ==> res.1 == spec_digits_value(b@, p as int, res.0 as int) && res.1 <= limit,
        res.2 ==> spec_digits_value(b@, p as int, res.0 as int) > limit,
{
    let mut i: usize = p;
    let mut acc: u64 = 0;
    let mut over: bool = false;
    while i < b.len() && 48 <= b[i] && b[i] <= 57
        invariant
            p <= i <= b@.len(),
            spec_digits_end(b@, p as int) == spec_digits_end(b@, i as int),
            forall|k: int| p <= k < i ==> spec_is_digit(#[trigger] b@[k]),
            !over ==> acc == spec_digits_value(b@, p as int, i as int) && acc <= limit,
            over ==> spec_digits_value(b@, p as int, i as int) > limit,
        decreases b@.len() - i,
    {
        proof {
            lemma_digits_value_nonneg(b@, p as int, i as int);
            lemma_digits_value_grows(b@, p as int, i as int);
        }
        if !over {
            let next: u128 = (acc as u128) * 10 + ((b[i] - 48) as u128);
            if next > limit as u128 {
                over = true;
            } else {
                acc = next as u64;
            }
        }
        i = i + 1;
    }
    (i, acc, over)
}

/// Decodes the byte string whose length starts at `pos`.
fn parse_str(b: &[u8], pos: usize) -> (res: Result<(Vec<u8>, usize), ErrorBencoding>)
    requires
        pos <= b@.len(),
    ensures
        match res {
            Ok((s, p)) => spec_parse_str(b@, pos as int) == Ok::<(Bencode, int), ErrorBencoding>((Bencode::Str(s@), p as int)),
            Err(e) => spec_parse_str(b@, pos as int) == Err::<(Bencode, int), ErrorBencoding>(e),
        },
{
    let (de, n, over) = scan_digits(b, pos, b.len() as u64);
    if de == pos || de >= b.len() || b[de] != 58 {
        return Err(ErrorBencoding::String);
    }
    if over || n as usize > b.len() - de - 1 {
        return Err(ErrorBencoding::String);
    }
    let start = de + 1;
    let end = start + n as usize;
    let s = vstd::slice::slice_to_vec(vstd::slice::slice_subrange(b, start, end));
    Ok((s, end))
}

/// Decodes the integer whose `i` stands at `pos`.
fn parse_int(b: &[u8], pos: usize) -> (res: Result<(ValuesBencoding, usize), ErrorBencoding>)
    requires
        pos < b@.len(),
    ensures
        match res {
            Ok((v, p)) => spec_parse_int(b@, pos as int) == Ok::<(Bencode, int), ErrorBencoding>((v@, p as int)),
            Err(e) => spec_parse_int(b@, pos as int) == Err::<(Bencode, int), ErrorBencoding>(e),
        },
{
    let neg = pos < b.len() - 1 && b[pos + 1] == 45;
    let ds = if neg { pos + 2 } else { pos + 1 };
    let (de, m, over) = scan_digits(b, ds, 9223372036854775808u64);
    if de == ds || de >= b.len() || b[de] != 101 {
        return Err(ErrorBencoding::Integer);
    }
    if over {
        return Err(ErrorBencoding::Integer);
    }
    let v: i64 = if neg {
        if m == 9223372036854775808u64 {
            i64::MIN
        } else {
            -(m as i64)
        }
    } else {
        if m == 9223372036854775808u64 {
            return Err(ErrorBencoding::Integer);
        }
        m as i64
    };
    Ok((ValuesBencoding::Integer(v), de + 1))
}

/// Decodes the value that starts at `pos`; on success, also returns where it ends.
pub fn parse_value(b: &[u8], pos: usize) -> (res: Result<(ValuesBencoding, usize), ErrorBencoding>)
    ensures
        match res {
            Ok((v, p)) => spec_parse_value(b@, pos as int) == Ok::<(Bencode, int), ErrorBencoding>((v@, p as int)),
            Err(e) => spec_parse_value(b@, pos as int) == Err::<(Bencode, int), ErrorBencoding>(e),
        },
    decreases b@.len() - pos,
{
    if pos >= b.len() {
        return Err(ErrorBencoding::UnexpectedEnd);
    }
    let c = b[pos];
    if c == 105 {
        parse_int(b, pos)
    } else if 48 <= c && c <= 57 {
        match parse_str(b, pos) {
            Ok((s, p)) => Ok((ValuesBencoding::String(s), p)),
            Err(e) => Err(e),
        }
    } else if c == 108 {
        let mut items: Vec<ValuesBencoding> = Vec::new();
        let mut cur: usize = pos + 1;
        assert(items@.map_values(|x: ValuesBencoding| x@) =~= Seq::<Bencode>::empty());
        loop
            invariant
                pos < cur <= b@.len(),
                b@[pos as int] == 108,
                spec_parse_list_items(b@, pos as int + 1, Seq::empty())
                    == spec_parse_list_items(b@, cur as int, items@.map_values(|x: ValuesBencoding| x@)),
            decreases b@.len() - cur,
        {
            if cur >= b.len() {
                return Err(ErrorBencoding::List);
            }
            if b[cur] == 101 {
                let ghost m = items@.map_values(|x: ValuesBencoding| x@);
                let res = ValuesBencoding::List(items);
                assert(value_model(res)->List_0 =~= m);
                return Ok((res, cur + 1));
            }
            match parse_value(b, cur) {
                Err(e) => {
                    return Err(e);
                },
                Ok((v, p)) => {
                    if !(cur < p && p <= b.len()) {
                        return Err(ErrorBencoding::List);
                    }
                    let ghost before = items@.map_values(|x: ValuesBencoding| x@);
                    let ghost vm = v@;
                    items.push(v);
                    assert(items@.map_values(|x: ValuesBencoding| x@) =~= before.push(vm));
                    cur = p;
                },
            }
        }
    } else if c == 100 {
        let mut dic = DicValues::new();
        let mut cur: usize = pos + 1;
        loop
            invariant
                pos < cur <= b@.len(),
                b@[pos as int] == 100,
                spec_keys_sorted(dic@),
                spec_parse_dict_items(b@, pos as int + 1, Seq::empty())
                    == spec_parse_dict_items(b@, cur as int, dic@),
            decreases b@.len() - cur,
        {
            if cur >= b.len() {
                return Err(ErrorBencoding::Dic);
            }
            if b[cur] == 101 {
                return Ok((ValuesBencoding::Dic(dic), cur + 1));
            }
            if !(48 <= b[cur] && b[cur] <= 57) {
                return Err(ErrorBencoding::Dic);
            }
            match parse_str(b, cur) {
                Err(e) => {
                    return Err(e);
                },
                Ok((key, p)) => {
                    if !(cur < p && p <= b.len()) {
                        return Err(ErrorBencoding::Dic);
                    }
                    match parse_value(b, p) {
                        Err(e) => {
                            return Err(e);
                        },
                        Ok((v, q)) => {
                            if !(p < q && q <= b.len()) {
                                return Err(ErrorBencoding::Dic);
                            }
                            dic.insert(key, v);
                            cur = q;
                        },
                    }
                },
            }
        }
    } else {
        Err(ErrorBencoding::InvalidType)
    }
}

/// Decodes bytes that hold a bencoded dictionary, such as a .torrent file.
pub fn from_torrent_to_dic(bytes: Vec<u8>) -> (res: Result<DicValues, ErrorBencoding>)
    ensures
        match res {
            Ok(d) => spec_decode_dic(bytes@) == Ok::<Seq<(Seq<u8>, Bencode)>, ErrorBencoding>(d@),
            Err(e) => spec_decode_dic(bytes@) == Err::<Seq<(Seq<u8>, Bencode)>, ErrorBencoding>(e),
        },
{
    to_dic(bytes.as_slice())
}

/// Decodes bytes that hold a bencoded dictionary.
pub fn to_dic(bytes: &[u8]) -> (res: Result<DicValues, ErrorBencoding>)
    ensures
        match res {
            Ok(d) => spec_decode_dic(bytes@) == Ok::<Seq<(Seq<u8>, Bencode)>, ErrorBencoding>(d@),
            Err(e) => spec_decode_dic(bytes@) == Err::<Seq<(Seq<u8>, Bencode)>, ErrorBencoding>(e),
        },
{
    match parse_value(bytes, 0) {
        Ok((ValuesBencoding::Dic(d), _)) => Ok(d),
        Ok(_) => Err(ErrorBencoding::Dic),
        Err(e) => Err(e),
    }
}

} // verus!
