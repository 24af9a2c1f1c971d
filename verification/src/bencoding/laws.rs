//! What decoding does to encoded values.

use vstd::prelude::*;
use crate::bencoding::values::{
    spec_insert, spec_key_lt, spec_keys_sorted, spec_value_wf, Bencode, lemma_insert_at,
    lemma_key_lt_transitive,
};
use crate::bencoding::encoder::{
    spec_digits, spec_encode_dict, spec_encode_list, spec_encode_str, spec_encode_value,
    spec_int_text,
};
use crate::bencoding::decoder::{
    spec_decode_dic, spec_digits_end, spec_digits_value, spec_is_digit, spec_parse_dict_items,
    spec_parse_list_items, spec_parse_str, spec_parse_value,
};

verus! {

proof fn lemma_subrange_split(b: Seq<u8>, p: int, x: Seq<u8>, y: Seq<u8>)
    requires
        0 <= p,
        p + x.len() + y.len() <= b.len(),
        b.subrange(p, p + x.len() + y.len()) == x + y,
    ensures
        b.subrange(p, p + x.len()) == x,
        b.subrange(p + x.len(), p + x.len() + y.len()) == y,
{
    assert forall|k: int| 0 <= k < x.len() implies #[trigger] b.subrange(p, p + x.len())[k] == x[k] by {
        assert(b.subrange(p, p + x.len() + y.len())[k] == (x + y)[k]);
    }
    assert forall|k: int| 0 <= k < y.len() implies #[trigger] b.subrange(p + x.len(), p + x.len() + y.len())[k] == y[k] by {
        assert(b.subrange(p + x.len(), p + x.len() + y.len())[k] == b[p + x.len() + k]);
        assert(b.subrange(p, p + x.len() + y.len())[x.len() + k] == b[p + x.len() + k]);
        assert(b.subrange(p, p + x.len() + y.len())[x.len() + k] == (x + y)[x.len() + k]);
    }
    assert(b.subrange(p, p + x.len()) =~= x);
    assert(b.subrange(p + x.len(), p + x.len() + y.len()) =~= y);
}

pub proof fn lemma_digits_shape(n: nat)
    ensures
        spec_digits(n).len() >= 1,
        forall|k: int| 0 <= k < spec_digits(n).len() ==> spec_is_digit(#[trigger] spec_digits(n)[k]),
    decreases n,
{
    if n >= 10 {
        lemma_digits_shape(n / 10);
    }
}

proof fn lemma_digits_value(n: nat, b: Seq<u8>, p: int)
    requires
        0 <= p,
        p + spec_digits(n).len() <= b.len(),
        b.subrange(p, p + spec_digits(n).len()) == spec_digits(n),
    ensures
        spec_digits_value(b, p, p + spec_digits(n).len()) == n,
    decreases n,
{
    let d = spec_digits(n);
    let e = p + d.len();
    assert(b[e - 1] == b.subrange(p, e)[d.len() - 1]);
    if n < 10 {
        assert(d.len() == 1);
        assert(spec_digits_value(b, p, p) == 0);
    } else {
        let h = spec_digits(n / 10);
        lemma_subrange_split(b, p, h, seq![(48 + n % 10) as u8]);
        lemma_digits_value(n / 10, b, p);
        assert(spec_digits_value(b, p, e) == spec_digits_value(b, p, e - 1) * 10 + (b[e - 1] - 48));
    }
}

proof fn lemma_digits_end(b: Seq<u8>, p: int, e: int)
    requires
        0 <= p <= e < b.len(),
        forall|k: int| p <= k < e ==> spec_is_digit(#[trigger] b[k]),
        !spec_is_digit(b[e]),
    ensures
        spec_digits_end(b, p) == e,
    decreases e - p,
{
    if p < e {
        lemma_digits_end(b, p + 1, e);
    }
}

proof fn lemma_digits_in_place(n: nat, b: Seq<u8>, p: int)
    requires
        0 <= p,
        p + spec_digits(n).len() < b.len(),
        b.subrange(p, p + spec_digits(n).len()) == spec_digits(n),
        !spec_is_digit(b[p + spec_digits(n).len()]),
    ensures
        spec_digits_end(b, p) == p + spec_digits(n).len(),
        spec_digits_value(b, p, p + spec_digits(n).len()) == n,
{
    let d = spec_digits(n);
    lemma_digits_shape(n);
    assert forall|k: int| p <= k < p + d.len() implies spec_is_digit(#[trigger] b[k]) by {
        assert(b[k] == b.subrange(p, p + d.len())[k - p]);
    }
    lemma_digits_end(b, p, p + d.len());
    lemma_digits_value(n, b, p);
}

proof fn lemma_parse_str_encoded(s: Seq<u8>, b: Seq<u8>, p: int)
    requires
        0 <= p,
        p + spec_encode_str(s).len() <= b.len(),
        b.subrange(p, p + spec_encode_str(s).len()) == spec_encode_str(s),
    ensures
        spec_parse_str(b, p) == Ok::<(Bencode, int), ErrorBencoding>((Bencode::Str(s), p + spec_encode_str(s).len())),
        spec_encode_str(s).len() > 0,
        spec_is_digit(b[p]),
{
    let d = spec_digits(s.len());
    lemma_digits_shape(s.len());
    lemma_subrange_split(b, p, d + seq![58u8], s);
    lemma_subrange_split(b, p, d, seq![58u8]);
    assert(b[p + d.len()] == seq![58u8][0]) by {
        assert(b.subrange(p + d.len(), p + d.len() + 1)[0] == b[p + d.len()]);
    }
    lemma_digits_in_place(s.len(), b, p);
    assert(b[p] == b.subrange(p, p + d.len())[0]);
}

use crate::bencoding::values::ErrorBencoding;

/// The first byte of an encoded value is never the `e` that closes a list or dictionary.
proof fn lemma_encode_first_byte(v: Bencode)
    ensures
        spec_encode_value(v).len() > 0,
        spec_encode_value(v)[0] != 101,
{
    match v {
        Bencode::Str(s) => {
            lemma_digits_shape(s.len());
            assert(spec_encode_value(v)[0] == spec_digits(s.len())[0]);
        },
        _ => {},
    }
}

/// Decoding at a position that holds the encoding of a well formed value gives that value back,
/// and ends right after its encoding.
pub proof fn lemma_parse_encoded(v: Bencode, b: Seq<u8>, p: int)
    requires
        spec_value_wf(v),
        0 <= p,
        p + spec_encode_value(v).len() <= b.len(),
        b.subrange(p, p + spec_encode_value(v).len()) == spec_encode_value(v),
    ensures
        spec_parse_value(b, p) == Ok::<(Bencode, int), ErrorBencoding>((v, p + spec_encode_value(v).len())),
    decreases v,
{
    let enc = spec_encode_value(v);
    assert(b[p] == b.subrange(p, p + enc.len())[0]);
    match v {
        Bencode::Str(s) => {
            lemma_parse_str_encoded(s, b, p);
        },
        Bencode::Int(i) => {
            let t = spec_int_text(i);
            lemma_subrange_split(b, p, seq![105u8] + t, seq![101u8]);
            lemma_subrange_split(b, p, seq![105u8], t);
            assert(b[p + 1 + t.len()] == b.subrange(p + 1 + t.len(), p + 2 + t.len())[0]);
            if i < 0 {
                let d = spec_digits((-i) as nat);
                lemma_subrange_split(b, p + 1, seq![45u8], d);
                assert(b[p + 1] == b.subrange(p + 1, p + 2)[0]);
                lemma_digits_in_place((-i) as nat, b, p + 2);
            } else {
                let d = spec_digits(i as nat);
                lemma_digits_shape(i as nat);
                assert(b[p + 1] == b.subrange(p + 1, p + 1 + d.len())[0]);
                lemma_digits_in_place(i as nat, b, p + 1);
            }
        },
        Bencode::List(l) => {
            let inner = spec_encode_list(l);
            assert(enc =~= seq![108u8] + (inner + seq![101u8]));
            lemma_subrange_split(b, p, seq![108u8], inner + seq![101u8]);
            lemma_parse_list_encoded(l, b, p + 1, Seq::empty());
            assert(Seq::<Bencode>::empty() + l =~= l);
        },
        Bencode::Dict(d) => {
            let inner = spec_encode_dict(d);
            assert(enc =~= seq![100u8] + (inner + seq![101u8]));
            lemma_subrange_split(b, p, seq![100u8], inner + seq![101u8]);
            lemma_parse_dict_encoded(d, b, p + 1, Seq::empty());
            assert(Seq::<(Seq<u8>, Bencode)>::empty() + d =~= d);
        },
    }
}

/// Decoding the encoded items of a list, and its closing `e`, appends them to `acc`.
pub proof fn lemma_parse_list_encoded(l: Seq<Bencode>, b: Seq<u8>, q: int, acc: Seq<Bencode>)
    requires
        forall|k: int| 0 <= k < l.len() ==> spec_value_wf(#[trigger] l[k]),
        0 <= q,
        q + spec_encode_list(l).len() + 1 <= b.len(),
        b.subrange(q, q + spec_encode_list(l).len() + 1) == spec_encode_list(l) + seq![101u8],
    ensures
        spec_parse_list_items(b, q, acc) == Ok::<(Seq<Bencode>, int), ErrorBencoding>((acc + l, q + spec_encode_list(l).len() + 1)),
    decreases l,
{
    let inner = spec_encode_list(l);
    if l.len() == 0 {
        assert(b[q] == b.subrange(q, q + 1)[0]);
        assert(acc + l =~= acc);
    } else {
        let first = spec_encode_value(l[0]);
        let t = l.subrange(1, l.len() as int);
        let rest = spec_encode_list(t);
        assert(inner == first + rest);
        assert(inner + seq![101u8] =~= first + (rest + seq![101u8]));
        lemma_subrange_split(b, q, first, rest + seq![101u8]);
        lemma_encode_first_byte(l[0]);
        assert(b[q] == b.subrange(q, q + first.len())[0]);
        lemma_parse_encoded(l[0], b, q);
        lemma_parse_list_encoded(t, b, q + first.len(), acc.push(l[0]));
        assert(acc.push(l[0]) + t =~= acc + l);
    }
}

/// Decoding the encoded entries of a dictionary, and its closing `e`, adds them after `acc`
/// when their keys are increasing and all above the keys of `acc`.
pub proof fn lemma_parse_dict_encoded(d: Seq<(Seq<u8>, Bencode)>, b: Seq<u8>, q: int, acc: Seq<(Seq<u8>, Bencode)>)
    requires
        spec_keys_sorted(d),
        forall|k: int| 0 <= k < d.len() ==> spec_value_wf(#[trigger] d[k].1),
        spec_keys_sorted(acc),
        d.len() > 0 ==> forall|k: int| 0 <= k < acc.len() ==> spec_key_lt(#[trigger] acc[k].0, d[0].0),
        0 <= q,
        q + spec_encode_dict(d).len() + 1 <= b.len(),
        b.subrange(q, q + spec_encode_dict(d).len() + 1) == spec_encode_dict(d) + seq![101u8],
    ensures
        spec_parse_dict_items(b, q, acc) == Ok::<(Seq<(Seq<u8>, Bencode)>, int), ErrorBencoding>((acc + d, q + spec_encode_dict(d).len() + 1)),
    decreases d,
{
    let inner = spec_encode_dict(d);
    if d.len() == 0 {
        assert(b[q] == b.subrange(q, q + 1)[0]);
        assert(acc + d =~= acc);
    } else {
        let ks = spec_encode_str(d[0].0);
        let vs = spec_encode_value(d[0].1);
        let t = d.subrange(1, d.len() as int);
        let rest = spec_encode_dict(t);
        assert(inner == ks + vs + rest);
        assert(inner + seq![101u8] =~= ks + (vs + (rest + seq![101u8])));
        lemma_subrange_split(b, q, ks, vs + (rest + seq![101u8]));
        lemma_subrange_split(b, q + ks.len(), vs, rest + seq![101u8]);
        lemma_parse_str_encoded(d[0].0, b, q);
        lemma_encode_first_byte(d[0].1);
        lemma_parse_encoded(d[0].1, b, q + ks.len());
        let acc2 = spec_insert(acc, d[0].0, d[0].1);
        lemma_insert_at(acc, d[0].0, d[0].1, acc.len() as int);
        assert(acc2 =~= acc.push((d[0].0, d[0].1)));
        assert(spec_keys_sorted(acc2)) by {
            assert forall|i: int, j: int| 0 <= i < j < acc2.len() implies spec_key_lt(#[trigger] acc2[i].0, #[trigger] acc2[j].0) by {
                if j == acc.len() {
                    assert(acc2[i] == acc[i]);
                } else {
                    assert(acc2[i] == acc[i] && acc2[j] == acc[j]);
                }
            }
        }
        assert(spec_keys_sorted(t)) by {
            assert forall|i: int, j: int| 0 <= i < j < t.len() implies spec_key_lt(#[trigger] t[i].0, #[trigger] t[j].0) by {
                assert(t[i] == d[i + 1] && t[j] == d[j + 1]);
            }
        }
        if t.len() > 0 {
            assert forall|k: int| 0 <= k < acc2.len() implies spec_key_lt(#[trigger] acc2[k].0, t[0].0) by {
                assert(t[0] == d[1]);
                assert(spec_key_lt(d[0].0, d[1].0));
                if k < acc.len() {
                    assert(acc2[k] == acc[k]);
                    lemma_key_lt_transitive(acc[k].0, d[0].0, d[1].0);
                }
            }
        }
        assert forall|k: int| 0 <= k < t.len() implies spec_value_wf(#[trigger] t[k].1) by {
            assert(t[k] == d[k + 1]);
        }
        lemma_parse_dict_encoded(t, b, q + ks.len() + vs.len(), acc2);
        assert(acc2 + t =~= acc + d);
    }
}

/// Decoding undoes encoding: a well formed dictionary, encoded with [`from_dic`] and decoded
/// with [`from_torrent_to_dic`], comes back with the same entries in the same order.
///
/// [`from_dic`]: crate::bencoding::encoder::from_dic
/// [`from_torrent_to_dic`]: crate::bencoding::decoder::from_torrent_to_dic
pub proof fn lemma_decode_encode_dic(d: Seq<(Seq<u8>, Bencode)>)
    requires
        spec_value_wf(Bencode::Dict(d)),
    ensures
        spec_decode_dic(spec_encode_value(Bencode::Dict(d))) == Ok::<Seq<(Seq<u8>, Bencode)>, ErrorBencoding>(d),
{
    let b = spec_encode_value(Bencode::Dict(d));
    assert(b.subrange(0, b.len() as int) =~= b);
    lemma_parse_encoded(Bencode::Dict(d), b, 0);
}

} // verus!
