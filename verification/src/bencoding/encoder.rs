//! Encoding of bencoded values into bytes.

use vstd::prelude::*;
use crate::bencoding::values::{Bencode, DicValues, ValuesBencoding};

verus! {

/// The decimal digits of a natural number, without leading zeros.
pub open spec fn spec_digits(n: nat) -> Seq<u8>
    decreases n,
{
    if n < 10 {
        seq![(48 + n) as u8]
    } else {
        spec_digits(n / 10) + seq![(48 + n % 10) as u8]
    }
}

/// The decimal text of an integer.
pub open spec fn spec_int_text(i: int) -> Seq<u8> {
    if i < 0 {
        seq![45u8] + spec_digits((-i) as nat)
    } else {
        spec_digits(i as nat)
    }
}

/// The bencoding of a byte string: its length in decimal, a colon and the bytes.
pub open spec fn spec_encode_str(s: Seq<u8>) -> Seq<u8> {
    spec_digits(s.len()) + seq![58u8] + s
}

/// The bencoding of a value: `<len>:<bytes>`, `i<int>e`, `l<items>e` or `d<key><value>...e`.
pub open spec fn spec_encode_value(v: Bencode) -> Seq<u8>
    decreases v,
{
    match v {
        Bencode::Str(s) => spec_encode_str(s),
        Bencode::Int(i) => seq![105u8] + spec_int_text(i) + seq![101u8],
        Bencode::List(l) => seq![108u8] + spec_encode_list(l) + seq![101u8],
        Bencode::Dict(d) => seq![100u8] + spec_encode_dict(d) + seq![101u8],
    }
}

/// The bencodings of the items of a list, one after the other.
pub open spec fn spec_encode_list(l: Seq<Bencode>) -> Seq<u8>
    decreases l,
{
    if l.len() == 0 {
        Seq::empty()
    } else {
        spec_encode_value(l[0]) + spec_encode_list(l.subrange(1, l.len() as int))
    }
}

/// The bencodings of the entries of a dictionary, each key followed by its value.
pub open spec fn spec_encode_dict(d: Seq<(Seq<u8>, Bencode)>) -> Seq<u8>
    decreases d,
{
    if d.len() == 0 {
        Seq::empty()
    } else {
        spec_encode_str(d[0].0) + spec_encode_value(d[0].1) + spec_encode_dict(
            d.subrange(1, d.len() as int),
        )
    }
}

/// Appends the decimal digits of `n`.
pub(crate) fn push_decimal(out: &mut Vec<u8>, n: u64)
    ensures
        final(out)@ == old(out)@ + spec_digits(n as nat),
    decreases n,
{
    if n >= 10 {
        push_decimal(out, n / 10);
    }
    out.push((48 + n % 10) as u8);
    assert(final(out)@ =~= old(out)@ + spec_digits(n as nat));
}

/// Appends all of `bytes`.
pub(crate) fn push_bytes(out: &mut Vec<u8>, bytes: &[u8])
    ensures
        final(out)@ == old(out)@ + bytes@,
{
    let mut i: usize = 0;
    while i < bytes.len()
        invariant
            0 <= i <= bytes@.len(),
            out@ == old(out)@ + bytes@.subrange(0, i as int),
        decreases bytes@.len() - i,
    {
        out.push(bytes[i]);
        i = i + 1;
        assert(out@ =~= old(out)@ + bytes@.subrange(0, i as int));
    }
    assert(bytes@.subrange(0, bytes@.len() as int) =~= bytes@);
}

/// Appends the bencoding of a byte string.
fn encode_string(out: &mut Vec<u8>, s: &[u8])
    ensures
        final(out)@ == old(out)@ + spec_encode_value(Bencode::Str(s@)),
{
    push_decimal(out, s.len() as u64);
    out.push(58u8);
    push_bytes(out, s);
    assert(final(out)@ =~= old(out)@ + spec_encode_value(Bencode::Str(s@)));
}

/// Appends the bencoding of a value.
pub fn encode_value(out: &mut Vec<u8>, v: &ValuesBencoding)
    ensures
        final(out)@ == old(out)@ + spec_encode_value(v@),
    decreases v,
{
    match v {
        ValuesBencoding::String(s) => {
            encode_string(out, s.as_slice());
        },
        ValuesBencoding::Integer(i) => {
            out.push(105u8);
            if *i < 0 {
                out.push(45u8);
                let magnitude: u64 = if *i == i64::MIN {
                    9223372036854775808u64
                } else {
                    (-*i) as u64
                };
                push_decimal(out, magnitude);
            } else {
                push_decimal(out, *i as u64);
            }
            out.push(101u8);
            assert(final(out)@ =~= old(out)@ + spec_encode_value(v@));
        },
        ValuesBencoding::List(l) => {
            out.push(108u8);
            let ghost start = out@;
            let ghost items = v@->List_0;
            let mut i: usize = 0;
            assert(items.subrange(0, 0) =~= Seq::<Bencode>::empty());
            proof {
                lemma_encode_list_prefix(items, 0);
            }
            while i < l.len()
                invariant
                    *v == ValuesBencoding::List(*l),
                    items == v@->List_0,
                    items.len() == l@.len(),
                    forall|k: int| 0 <= k < l@.len() ==> items[k] == (#[trigger] l@[k])@,
                    0 <= i <= l@.len(),
                    out@ == start + spec_encode_list(items.subrange(0, i as int)),
                decreases l@.len() - i,
            {
                proof {
                    assert(decreases_to!(*l => l[i as int]));
                    assert(decreases_to!(*v => (*v)->List_0));
                }
                encode_value(out, &l[i]);
                proof {
                    lemma_encode_list_prefix(items, i as int);
                }
                i = i + 1;
            }
            assert(items.subrange(0, l@.len() as int) =~= items);
            out.push(101u8);
            assert(final(out)@ =~= old(out)@ + spec_encode_value(v@));
        },
        ValuesBencoding::Dic(d) => {
            encode_dic(out, d);
        },
    }
}

/// Appends the bencoding of a dictionary.
pub fn encode_dic(out: &mut Vec<u8>, d: &DicValues)
    ensures
        final(out)@ == old(out)@ + spec_encode_value(Bencode::Dict(d@)),
    decreases d,
{
    out.push(100u8);
    let ghost start = out@;
    let ghost entries = d@;
    let mut i: usize = 0;
    proof {
        lemma_encode_dict_prefix(entries, 0);
    }
    while i < d.entries.len()
        invariant
            entries == d@,
            entries.len() == d.entries@.len(),
            0 <= i <= d.entries@.len(),
            out@ == start + spec_encode_dict(entries.subrange(0, i as int)),
        decreases d.entries@.len() - i,
    {
        assert(entries[i as int] == (d.entries@[i as int].0@, d.entries@[i as int].1@));
        encode_string(out, d.entries[i].0.as_slice());
        proof {
            assert(decreases_to!(*d => d.entries));
            assert(decreases_to!(d.entries => d.entries[i as int]));
            assert(decreases_to!(d.entries[i as int] => d.entries[i as int].1));
        }
        encode_value(out, &d.entries[i].1);
        proof {
            lemma_encode_dict_prefix(entries, i as int);
        }
        i = i + 1;
    }
    assert(entries.subrange(0, d.entries@.len() as int) =~= entries);
    out.push(101u8);
    assert(final(out)@ =~= old(out)@ + spec_encode_value(Bencode::Dict(d@)));
}

/// The bencoding of a dictionary.
pub fn from_dic(dic: DicValues) -> (res: Vec<u8>)
    ensures
        res@ == spec_encode_value(Bencode::Dict(dic@)),
{
    let mut out: Vec<u8> = Vec::new();
    encode_dic(&mut out, &dic);
    assert(out@ =~= spec_encode_value(Bencode::Dict(dic@)));
    out
}

/// Encoding one more item of a list appends its bencoding.
pub proof fn lemma_encode_list_prefix(l: Seq<Bencode>, i: int)
    requires
        0 <= i <= l.len(),
    ensures
        i == 0 ==> spec_encode_list(l.subrange(0, 0)) == Seq::<u8>::empty(),
        i < l.len() ==> spec_encode_list(l.subrange(0, i + 1)) == spec_encode_list(l.subrange(0, i))
            + spec_encode_value(l[i]),
    decreases i,
{
    if i < l.len() {
        if i == 0 {
            let s = l.subrange(0, 1);
            assert(s.subrange(1, 1) =~= Seq::<Bencode>::empty());
            assert(spec_encode_list(s.subrange(1, 1)) == Seq::<u8>::empty());
            assert(spec_encode_list(s) =~= spec_encode_value(l[0]));
            assert(l.subrange(0, 0) =~= Seq::<Bencode>::empty());
        } else {
            let t = l.subrange(1, l.len() as int);
            lemma_encode_list_prefix(t, i - 1);
            assert(l.subrange(0, i + 1).subrange(1, i + 1) =~= t.subrange(0, i));
            assert(l.subrange(0, i).subrange(1, i) =~= t.subrange(0, i - 1));
            assert(t[i - 1] == l[i]);
            assert(spec_encode_list(l.subrange(0, i + 1)) =~= spec_encode_list(l.subrange(0, i))
                + spec_encode_value(l[i]));
        }
    } else {
        assert(l.subrange(0, 0) =~= Seq::<Bencode>::empty());
    }
}

/// Encoding one more entry of a dictionary appends its key's and value's bencodings.
pub proof fn lemma_encode_dict_prefix(d: Seq<(Seq<u8>, Bencode)>, i: int)
    requires
        0 <= i <= d.len(),
    ensures
        i == 0 ==> spec_encode_dict(d.subrange(0, 0)) == Seq::<u8>::empty(),
        i < d.len() ==> spec_encode_dict(d.subrange(0, i + 1)) == spec_encode_dict(d.subrange(0, i))
            + spec_encode_str(d[i].0) + spec_encode_value(d[i].1),
    decreases i,
{
    if i < d.len() {
        if i == 0 {
            let s = d.subrange(0, 1);
            assert(s.subrange(1, 1) =~= Seq::<(Seq<u8>, Bencode)>::empty());
            assert(spec_encode_dict(s.subrange(1, 1)) == Seq::<u8>::empty());
            assert(spec_encode_dict(s) =~= spec_encode_str(d[0].0) + spec_encode_value(d[0].1));
            assert(d.subrange(0, 0) =~= Seq::<(Seq<u8>, Bencode)>::empty());
        } else {
            let t = d.subrange(1, d.len() as int);
            lemma_encode_dict_prefix(t, i - 1);
            assert(d.subrange(0, i + 1).subrange(1, i + 1) =~= t.subrange(0, i));
            assert(d.subrange(0, i).subrange(1, i) =~= t.subrange(0, i - 1));
            assert(t[i - 1] == d[i]);
            assert(spec_encode_dict(d.subrange(0, i + 1)) =~= spec_encode_dict(d.subrange(0, i))
                + spec_encode_str(d[i].0) + spec_encode_value(d[i].1));
        }
    } else {
        assert(d.subrange(0, 0) =~= Seq::<(Seq<u8>, Bencode)>::empty());
    }
}

} // verus!
