//! What the tracker reads of the announce that the client sends.

use vstd::prelude::*;
use vstd::string::*;
use vstd::utf8::*;
use crate::torrent::http_handler as ck;
use crate::torrent::http_handler::{spec_send_msg, MsgModel};
use crate::torrent::torrent_file_data::spec_utf8_text;
use crate::urlencoding::lemma_url_decode_encode;
use super::peer_info as tk;
use crate::numbers::{
    spec_all_digits, spec_decimal_text, spec_decimal_value, spec_digit_char, spec_is_digit, spec_parse_unsigned,
    spec_unsigned_digits,
};
use crate::urlencoding::{spec_encode_byte, spec_is_unreserved, spec_url_encode};
use super::laws::lemma_find_first;
use super::peer_info::{
    spec_find_from, spec_is_value_end, spec_match_at, spec_peer_info, spec_query_value, spec_take_value, Event,
    PeerInfoError, PeerModel,
};

verus! {

/// Whether no query key that ends in `=` stands in `l` so as to end at one of its `=`.
#[verifier::opaque]
pub open spec fn spec_no_key_in(l: Seq<u8>, key: Seq<u8>) -> bool {
    forall|e: int|
        0 <= e < l.len() && #[trigger] l[e] == 61 && e + 1 >= key.len() ==> l.subrange(e + 1 - key.len(), e + 1) != key
}

/// Whether a query key is text that ends in its only `=`.
pub open spec fn spec_is_key(key: Seq<u8>) -> bool {
    &&& key.len() >= 1
    &&& key.last() == 61
    &&& forall|j: int| 0 <= j < key.len() - 1 ==> #[trigger] key[j] != 61
}

/// Whether no byte is `=`.
#[verifier::opaque]
pub open spec fn spec_no_equals(x: Seq<u8>) -> bool {
    forall|i: int| 0 <= i < x.len() ==> #[trigger] x[i] != 61
}

/// Appending bytes without `=` adds no place for a key.
proof fn lemma_append_free(l: Seq<u8>, x: Seq<u8>, key: Seq<u8>)
    requires
        spec_no_key_in(l, key),
        spec_no_equals(x),
    ensures
        spec_no_key_in(l + x, key),
{
    reveal(spec_no_key_in);
    reveal(spec_no_equals);
    let s = l + x;
    assert forall|e: int| 0 <= e < s.len() && #[trigger] s[e] == 61 && e + 1 >= key.len() implies s.subrange(
        e + 1 - key.len(),
        e + 1,
    ) != key by {
        if e >= l.len() {
            assert(s[e] == x[e - l.len()]);
        } else {
            assert(s[e] == l[e]);
            assert(s.subrange(e + 1 - key.len(), e + 1) =~= l.subrange(e + 1 - key.len(), e + 1));
        }
    }
}

/// Appending a key of another name adds no place for `key`, where the two differ `j` bytes
/// before their `=`.
proof fn lemma_append_other_key(l: Seq<u8>, f: Seq<u8>, key: Seq<u8>, j: int)
    requires
        spec_no_key_in(l, key),
        spec_is_key(f),
        0 < j < f.len(),
        j < key.len(),
        f[f.len() - 1 - j] != key[key.len() - 1 - j],
    ensures
        spec_no_key_in(l + f, key),
{
    reveal(spec_no_key_in);
    let s = l + f;
    assert forall|e: int| 0 <= e < s.len() && #[trigger] s[e] == 61 && e + 1 >= key.len() implies s.subrange(
        e + 1 - key.len(),
        e + 1,
    ) != key by {
        if e >= l.len() {
            assert(s[e] == f[e - l.len()]);
            if e - l.len() < f.len() - 1 {
                assert(f[e - l.len()] != 61);
            }
            let w = s.subrange(e + 1 - key.len(), e + 1);
            assert(w[key.len() - 1 - j] == s[e - j]);
            assert(s[e - j] == f[f.len() - 1 - j]);
        } else {
            assert(s[e] == l[e]);
            assert(s.subrange(e + 1 - key.len(), e + 1) =~= l.subrange(e + 1 - key.len(), e + 1));
        }
    }
}

/// A key that stands nowhere before is found first where it stands.
proof fn lemma_key_found(l: Seq<u8>, key: Seq<u8>, r: Seq<u8>)
    requires
        spec_is_key(key),
        spec_no_key_in(l, key),
    ensures
        spec_find_from(l + key + r, key, 0) == Some(l.len() as int),
{
    reveal(spec_no_key_in);
    let s = l + key + r;
    assert(s.subrange(l.len() as int, (l.len() + key.len()) as int) =~= key);
    assert forall|i: int| 0 <= i < l.len() implies !#[trigger] spec_match_at(s, key, i) by {
        if spec_match_at(s, key, i) {
            let e = i + key.len() - 1;
            let w = s.subrange(i, i + key.len());
            assert(w[key.len() - 1] == s[e]);
            if e >= l.len() {
                assert(s[e] == key[e - l.len()]);
            } else {
                assert(s[e] == l[e]);
                assert(w =~= l.subrange(e + 1 - key.len(), e + 1));
            }
        }
    }
    lemma_find_first(s, key, 0, l.len() as int);
}

/// A key found from no place on.
proof fn lemma_find_none(s: Seq<u8>, key: Seq<u8>, p: int)
    requires
        0 <= p,
        forall|i: int| 0 <= i ==> !#[trigger] spec_match_at(s, key, i),
    ensures
        spec_find_from(s, key, p) is None,
    decreases s.len() + 1 - p,
{
    if p + key.len() <= s.len() {
        assert(!spec_match_at(s, key, p));
        lemma_find_none(s, key, p + 1);
    }
}

/// A key that stands nowhere is not found.
proof fn lemma_key_absent(s: Seq<u8>, key: Seq<u8>)
    requires
        spec_is_key(key),
        spec_no_key_in(s, key),
    ensures
        spec_find_from(s, key, 0) is None,
{
    reveal(spec_no_key_in);
    assert forall|i: int| 0 <= i implies !#[trigger] spec_match_at(s, key, i) by {
        if spec_match_at(s, key, i) {
            let e = i + key.len() - 1;
            let w = s.subrange(i, i + key.len());
            assert(w[key.len() - 1] == s[e]);
            assert(w =~= s.subrange(e + 1 - key.len(), e + 1));
        }
    }
    lemma_find_none(s, key, 0);
}

/// A value ends where the next key or the end of the request line starts.
proof fn lemma_take_value(v: Seq<u8>, r: Seq<u8>)
    requires
        forall|i: int| 0 <= i < v.len() ==> !spec_is_value_end(#[trigger] v[i]),
        r.len() > 0,
        spec_is_value_end(r[0]),
    ensures
        spec_take_value(v + r) == v,
    decreases v.len(),
{
    if v.len() == 0 {
        assert(v + r =~= r);
    } else {
        let rest = v.drop_first();
        assert forall|i: int| 0 <= i < rest.len() implies !spec_is_value_end(#[trigger] rest[i]) by {
            assert(rest[i] == v[i + 1]);
        }
        lemma_take_value(rest, r);
        assert((v + r).drop_first() =~= rest + r);
        assert(v =~= seq![v[0]] + rest);
    }
}

/// Encoding text as UTF-8 encodes its parts one after the other.
proof fn lemma_encode_concat(a: Seq<char>, b: Seq<char>)
    ensures
        encode_utf8(a + b) == encode_utf8(a) + encode_utf8(b),
    decreases a.len(),
{
    if a.len() == 0 {
        assert(a + b =~= b);
        assert(encode_utf8(a) =~= Seq::<u8>::empty());
        assert(encode_utf8(a) + encode_utf8(b) =~= encode_utf8(b));
    } else {
        lemma_encode_concat(a.drop_first(), b);
        assert((a + b).drop_first() =~= a.drop_first() + b);
        assert((a + b)[0] == a[0]);
    }
}

/// The bytes of ASCII text are its characters' codes.
proof fn lemma_ascii_bytes(c: Seq<char>)
    requires
        is_ascii_chars(c),
    ensures
        encode_utf8(c) == Seq::new(c.len(), |i: int| c[i] as u8),
{
    is_ascii_chars_encode_utf8(c);
    assert(encode_utf8(c) =~= Seq::new(c.len(), |i: int| c[i] as u8));
}

/// ASCII bytes are valid UTF-8, and encoding their text gives them back.
proof fn lemma_ascii_text(b: Seq<u8>)
    requires
        forall|i: int| 0 <= i < b.len() ==> #[trigger] b[i] < 128,
    ensures
        valid_utf8(b),
        encode_utf8(decode_utf8(b)) == b,
    decreases b.len(),
{
    if b.len() > 0 {
        let b0 = b[0];
        assert((b0 & 0x7F) as u32 <= 0x7F) by (bit_vector);
        let rest = b.subrange(1, b.len() as int);
        assert forall|i: int| 0 <= i < rest.len() implies #[trigger] rest[i] < 128 by {
            assert(rest[i] == b[i + 1]);
        }
        lemma_ascii_text(rest);
        assert(pop_first_scalar(b) =~= rest);
    }
    decode_utf8_encode_utf8(b);
}

/// A character other than `=` has no `=` byte in its encoding.
proof fn lemma_scalar_no_equals(c: u32)
    requires
        is_scalar(c),
        c != 61,
    ensures
        spec_no_equals(encode_scalar(c)),
{
    reveal(spec_no_equals);
    if has_width_1_encoding(c) {
        assert(leading_byte_width_1(c) != 61) by (bit_vector)
            requires
                c <= 0x7F,
                c != 61,
        ;
    } else if has_width_2_encoding(c) {
        assert(leading_byte_width_2(c) != 61 && last_continuation_byte(c) != 61) by (bit_vector);
    } else if has_width_3_encoding(c) {
        assert(leading_byte_width_3(c) != 61 && second_last_continuation_byte(c) != 61 && last_continuation_byte(c)
            != 61) by (bit_vector);
    } else {
        assert(leading_byte_width_4(c) != 61 && third_last_continuation_byte(c) != 61 && second_last_continuation_byte(c)
            != 61 && last_continuation_byte(c) != 61) by (bit_vector);
    }
}

/// Text without `=` has no `=` byte in its encoding.
proof fn lemma_text_no_equals(c: Seq<char>)
    requires
        forall|i: int| 0 <= i < c.len() ==> #[trigger] c[i] != '=',
    ensures
        spec_no_equals(encode_utf8(c)),
    decreases c.len(),
{
    reveal(spec_no_equals);
    if c.len() > 0 {
        let rest = c.drop_first();
        assert forall|i: int| 0 <= i < rest.len() implies #[trigger] rest[i] != '=' by {
            assert(rest[i] == c[i + 1]);
        }
        lemma_text_no_equals(rest);
        char_is_scalar(c[0]);
        assert(('=' as u32) == 61);
        if c[0] as u32 == 61 {
            char_u32_cast(c[0], 61);
            char_u32_cast('=', 61);
        }
        assert(c[0] as u32 != 61);
        lemma_scalar_no_equals(c[0] as u32);
        let head = encode_scalar(c[0] as u32);
        let all = encode_utf8(c);
        assert(all == head + encode_utf8(rest));
        assert forall|i: int| 0 <= i < all.len() implies #[trigger] all[i] != 61 by {
            if i < head.len() {
                assert(all[i] == head[i]);
            } else {
                assert(all[i] == encode_utf8(rest)[i - head.len()]);
            }
        }
    }
}

/// The bytes of a text, where it is ASCII.
pub open spec fn spec_ascii_bytes(c: Seq<char>) -> Seq<u8> {
    Seq::new(c.len(), |i: int| c[i] as u8)
}

/// The code of a decimal digit's character.
proof fn lemma_digit_char(d: nat)
    requires
        d < 10,
    ensures
        '\0' <= spec_digit_char(d) <= '\u{7f}',
        spec_digit_char(d) as u8 == 48 + d,
{
}

/// The decimal text of a number is ASCII digits, and reading it gives back the number.
proof fn lemma_decimal_bytes(n: nat)
    ensures
        is_ascii_chars(spec_decimal_text(n)),
        spec_ascii_bytes(spec_decimal_text(n)).len() > 0,
        spec_all_digits(spec_ascii_bytes(spec_decimal_text(n))),
        spec_decimal_value(spec_ascii_bytes(spec_decimal_text(n))) == n,
    decreases n,
{
    let t = spec_decimal_text(n);
    let b = spec_ascii_bytes(t);
    if n < 10 {
        lemma_digit_char(n);
        assert(b.drop_last() =~= Seq::<u8>::empty());
        assert(spec_decimal_value(b.drop_last()) == 0);
        assert(b.last() == 48 + n);
        assert(spec_decimal_value(b) == spec_decimal_value(b.drop_last()) * 10 + (b.last() - 48));
    } else {
        lemma_decimal_bytes(n / 10);
        lemma_digit_char(n % 10);
        let head = spec_decimal_text(n / 10);
        assert(t == head + seq![spec_digit_char(n % 10)]);
        assert(b.drop_last() =~= spec_ascii_bytes(head));
        assert(b.last() == 48 + n % 10);
        assert(spec_decimal_value(b) == spec_decimal_value(b.drop_last()) * 10 + (b.last() - 48));
        assert(spec_decimal_value(b.drop_last()) == n / 10);
        assert((n / 10) * 10 + n % 10 == n);
        assert forall|i: int| 0 <= i < t.len() implies '\0' <= #[trigger] t[i] <= '\u{7f}' by {
            if i < head.len() {
                assert(t[i] == head[i]);
            }
        }
        assert forall|i: int| 0 <= i < b.len() implies spec_is_digit(#[trigger] b[i]) by {
            if i < head.len() {
                assert(b[i] == spec_ascii_bytes(head)[i]);
            }
        }
    }
}

/// Reading the decimal text of a number no greater than `max` gives back the number.
proof fn lemma_parse_decimal(n: nat, max: int)
    requires
        n <= max,
    ensures
        spec_parse_unsigned(spec_ascii_bytes(spec_decimal_text(n)), max) == Some(n as int),
{
    lemma_decimal_bytes(n);
    let b = spec_ascii_bytes(spec_decimal_text(n));
    assert(spec_is_digit(b[0]));
    assert(spec_unsigned_digits(b) == b);
}

/// Percent encoded bytes are ASCII, and hold no `=`, `&` or space.
proof fn lemma_url_encoded_shape(h: Seq<u8>)
    ensures
        forall|i: int|
            0 <= i < spec_url_encode(h).len() ==> #[trigger] spec_url_encode(h)[i] < 128 && spec_url_encode(h)[i]
                != 61 && !spec_is_value_end(spec_url_encode(h)[i]),
    decreases h.len(),
{
    if h.len() > 0 {
        let t = h.subrange(1, h.len() as int);
        lemma_url_encoded_shape(t);
        let head = spec_encode_byte(h[0]);
        let all = spec_url_encode(h);
        assert(all == head + spec_url_encode(t));
        assert forall|i: int| 0 <= i < all.len() implies #[trigger] all[i] < 128 && all[i] != 61
            && !spec_is_value_end(all[i]) by {
            if i < head.len() {
                assert(all[i] == head[i]);
            } else {
                assert(all[i] == spec_url_encode(t)[i - head.len()]);
            }
        }
    }
}

/// Bytes that need no escape are their own percent encoding.
proof fn lemma_unreserved_encoding(b: Seq<u8>)
    requires
        forall|i: int| 0 <= i < b.len() ==> spec_is_unreserved(#[trigger] b[i]),
    ensures
        spec_url_encode(b) == b,
    decreases b.len(),
{
    if b.len() > 0 {
        let t = b.subrange(1, b.len() as int);
        assert forall|i: int| 0 <= i < t.len() implies spec_is_unreserved(#[trigger] t[i]) by {
            assert(t[i] == b[i + 1]);
        }
        lemma_unreserved_encoding(t);
        assert(b =~= seq![b[0]] + t);
    }
}

/// The bytes of the query keys that the tracker reads.
proof fn lemma_tracker_keys()
    ensures
        tk::INFO_HASH.spec_bytes() == seq![105u8, 110, 102, 111, 95, 104, 97, 115, 104, 61],
        tk::PEER_ID.spec_bytes() == seq![112u8, 101, 101, 114, 95, 105, 100, 61],
        tk::PORT.spec_bytes() == seq![112u8, 111, 114, 116, 61],
        tk::UPLOADED.spec_bytes() == seq![117u8, 112, 108, 111, 97, 100, 101, 100, 61],
        tk::DOWNLOADED.spec_bytes() == seq![100u8, 111, 119, 110, 108, 111, 97, 100, 101, 100, 61],
        tk::LEFT.spec_bytes() == seq![108u8, 101, 102, 116, 61],
        tk::EVENT.spec_bytes() == seq![101u8, 118, 101, 110, 116, 61],
        tk::COMPACT.spec_bytes() == seq![99u8, 111, 109, 112, 97, 99, 116, 61],
        tk::STARTED.spec_bytes() == seq![115u8, 116, 97, 114, 116, 101, 100],
{
    broadcast use is_ascii_spec_bytes;

    reveal_strlit("info_hash=");
    reveal_strlit("peer_id=");
    reveal_strlit("port=");
    reveal_strlit("uploaded=");
    reveal_strlit("downloaded=");
    reveal_strlit("left=");
    reveal_strlit("event=");
    reveal_strlit("compact=");
    reveal_strlit("started");
    assert(is_ascii(tk::INFO_HASH));
    assert(is_ascii(tk::PEER_ID));
    assert(is_ascii(tk::PORT));
    assert(is_ascii(tk::UPLOADED));
    assert(is_ascii(tk::DOWNLOADED));
    assert(is_ascii(tk::LEFT));
    assert(is_ascii(tk::EVENT));
    assert(is_ascii(tk::COMPACT));
    assert(is_ascii(tk::STARTED));
    assert(tk::INFO_HASH.spec_bytes() =~= seq![105u8, 110, 102, 111, 95, 104, 97, 115, 104, 61]);
    assert(tk::PEER_ID.spec_bytes() =~= seq![112u8, 101, 101, 114, 95, 105, 100, 61]);
    assert(tk::PORT.spec_bytes() =~= seq![112u8, 111, 114, 116, 61]);
    assert(tk::UPLOADED.spec_bytes() =~= seq![117u8, 112, 108, 111, 97, 100, 101, 100, 61]);
    assert(tk::DOWNLOADED.spec_bytes() =~= seq![100u8, 111, 119, 110, 108, 111, 97, 100, 101, 100, 61]);
    assert(tk::LEFT.spec_bytes() =~= seq![108u8, 101, 102, 116, 61]);
    assert(tk::EVENT.spec_bytes() =~= seq![101u8, 118, 101, 110, 116, 61]);
    assert(tk::COMPACT.spec_bytes() =~= seq![99u8, 111, 109, 112, 97, 99, 116, 61]);
    assert(tk::STARTED.spec_bytes() =~= seq![115u8, 116, 97, 114, 116, 101, 100]);
}

/// The bytes of the fixed parts of the client's announce.
proof fn lemma_client_parts()
    ensures
        encode_utf8(ck::INIT_MSG@) == seq![71u8, 69, 84, 32, 47, 97, 110, 110, 111, 117, 110, 99, 101],
        encode_utf8(ck::INFO_HASH@) == seq![63u8] + tk::INFO_HASH.spec_bytes(),
        encode_utf8(ck::PEER_ID@) == seq![38u8] + tk::PEER_ID.spec_bytes(),
        encode_utf8(ck::IP@) == seq![38u8, 105, 112, 61],
        encode_utf8(ck::PORT@) == seq![38u8] + tk::PORT.spec_bytes(),
        encode_utf8(ck::UPLOADED@) == seq![38u8] + tk::UPLOADED.spec_bytes(),
        encode_utf8(ck::DOWNLOADED@) == seq![38u8] + tk::DOWNLOADED.spec_bytes(),
        encode_utf8(ck::LEFT@) == seq![38u8] + tk::LEFT.spec_bytes(),
        encode_utf8(ck::EVENT@) == seq![38u8] + tk::EVENT.spec_bytes(),
        encode_utf8(ck::STARTED@) == tk::STARTED.spec_bytes(),
        encode_utf8(ck::HTTP@) == seq![32u8, 72, 84, 84, 80, 47, 49, 46, 48, 13, 10],
        encode_utf8(ck::HOST@) == seq![72u8, 111, 115, 116, 58],
        encode_utf8(ck::MSG_ENDING@) == seq![13u8, 10, 13, 10],
{
    broadcast use is_ascii_spec_bytes;

    lemma_tracker_keys();
    reveal_strlit("GET /announce");
    reveal_strlit("?info_hash=");
    reveal_strlit("&peer_id=");
    reveal_strlit("&ip=");
    reveal_strlit("&port=");
    reveal_strlit("&uploaded=");
    reveal_strlit("&downloaded=");
    reveal_strlit("&left=");
    reveal_strlit("&event=");
    reveal_strlit("started");
    reveal_strlit(" HTTP/1.0\r\n");
    reveal_strlit("Host:");
    reveal_strlit("\r\n\r\n");
    assert(is_ascii(ck::INIT_MSG));
    assert(is_ascii(ck::INFO_HASH));
    assert(is_ascii(ck::PEER_ID));
    assert(is_ascii(ck::IP));
    assert(is_ascii(ck::PORT));
    assert(is_ascii(ck::UPLOADED));
    assert(is_ascii(ck::DOWNLOADED));
    assert(is_ascii(ck::LEFT));
    assert(is_ascii(ck::EVENT));
    assert(is_ascii(ck::STARTED));
    assert(is_ascii(ck::HTTP));
    assert(is_ascii(ck::HOST));
    assert(is_ascii(ck::MSG_ENDING));
    assert(ck::INIT_MSG.spec_bytes() =~= seq![71u8, 69, 84, 32, 47, 97, 110, 110, 111, 117, 110, 99, 101]);
    assert(ck::INFO_HASH.spec_bytes() =~= seq![63u8] + tk::INFO_HASH.spec_bytes());
    assert(ck::PEER_ID.spec_bytes() =~= seq![38u8] + tk::PEER_ID.spec_bytes());
    assert(ck::IP.spec_bytes() =~= seq![38u8, 105, 112, 61]);
    assert(ck::PORT.spec_bytes() =~= seq![38u8] + tk::PORT.spec_bytes());
    assert(ck::UPLOADED.spec_bytes() =~= seq![38u8] + tk::UPLOADED.spec_bytes());
    assert(ck::DOWNLOADED.spec_bytes() =~= seq![38u8] + tk::DOWNLOADED.spec_bytes());
    assert(ck::LEFT.spec_bytes() =~= seq![38u8] + tk::LEFT.spec_bytes());
    assert(ck::EVENT.spec_bytes() =~= seq![38u8] + tk::EVENT.spec_bytes());
    assert(ck::STARTED.spec_bytes() =~= tk::STARTED.spec_bytes());
    assert(ck::HTTP.spec_bytes() =~= seq![32u8, 72, 84, 84, 80, 47, 49, 46, 48, 13, 10]);
    assert(ck::HOST.spec_bytes() =~= seq![72u8, 111, 115, 116, 58]);
    assert(ck::MSG_ENDING.spec_bytes() =~= seq![13u8, 10, 13, 10]);
}

/// The separators of a query string hold no `=`.
proof fn lemma_separators_free()
    ensures
        spec_no_equals(seq![38u8]),
        spec_no_equals(seq![63u8]),
{
    reveal(spec_no_equals);
}

/// Appending `&` or `?` and another key adds no place for `key`, where the two keys differ
/// `j` bytes before their `=`.
proof fn lemma_append_sep_key(l: Seq<u8>, sep: u8, other: Seq<u8>, key: Seq<u8>, j: int)
    requires
        spec_no_key_in(l, key),
        sep != 61,
        spec_is_key(other),
        0 < j < other.len(),
        j < key.len(),
        other[other.len() - 1 - j] != key[key.len() - 1 - j],
    ensures
        spec_no_key_in(l + (seq![sep] + other), key),
{
    assert(spec_no_equals(seq![sep])) by {
        reveal(spec_no_equals);
    }
    lemma_append_free(l, seq![sep], key);
    lemma_append_other_key(l + seq![sep], other, key, j);
    assert(l + seq![sep] + other =~= l + (seq![sep] + other));
}

/// Nothing has no place for a key.
proof fn lemma_no_key_in_empty(key: Seq<u8>)
    ensures
        spec_no_key_in(Seq::<u8>::empty(), key),
{
    reveal(spec_no_key_in);
}

/// Whether no byte ends a value of a query string.
#[verifier::opaque]
pub open spec fn spec_no_value_end(x: Seq<u8>) -> bool {
    forall|i: int| 0 <= i < x.len() ==> !spec_is_value_end(#[trigger] x[i])
}

/// The decimal text of a number holds no `=`, `&` or space.
proof fn lemma_decimal_free(n: nat)
    ensures
        spec_no_equals(spec_ascii_bytes(spec_decimal_text(n))),
        spec_no_value_end(spec_ascii_bytes(spec_decimal_text(n))),
{
    reveal(spec_no_equals);
    reveal(spec_no_value_end);
    lemma_decimal_bytes(n);
    let b = spec_ascii_bytes(spec_decimal_text(n));
    assert forall|i: int| 0 <= i < b.len() implies #[trigger] b[i] != 61 && !spec_is_value_end(b[i]) by {
        assert(spec_is_digit(b[i]));
    }
}

/// No part of a readable announce but its keys holds `=`, and no value holds `&` or a space.
proof fn lemma_no_equals_parts(m: MsgModel, info_hash: Seq<u8>)
    requires
        spec_readable_announce(m, info_hash),
    ensures
        spec_no_equals(encode_utf8(ck::INIT_MSG@)),
        spec_no_equals(encode_utf8(ck::HTTP@)),
        spec_no_equals(encode_utf8(ck::HOST@)),
        spec_no_equals(encode_utf8(ck::MSG_ENDING@)),
        spec_no_equals(spec_url_encode(info_hash)),
        spec_no_value_end(spec_url_encode(info_hash)),
        spec_no_equals(spec_ascii_bytes(m.peer_id)),
        spec_no_value_end(spec_ascii_bytes(m.peer_id)),
        spec_no_equals(spec_ascii_bytes(m.ip)),
        spec_no_equals(spec_ascii_bytes(spec_decimal_text(m.port as nat))),
        spec_no_value_end(spec_ascii_bytes(spec_decimal_text(m.port as nat))),
        spec_no_equals(spec_ascii_bytes(spec_decimal_text(m.uploaded as nat))),
        spec_no_value_end(spec_ascii_bytes(spec_decimal_text(m.uploaded as nat))),
        spec_no_equals(spec_ascii_bytes(spec_decimal_text(m.downloaded as nat))),
        spec_no_value_end(spec_ascii_bytes(spec_decimal_text(m.downloaded as nat))),
        spec_no_equals(spec_ascii_bytes(spec_decimal_text(m.left as nat))),
        spec_no_value_end(spec_ascii_bytes(spec_decimal_text(m.left as nat))),
        spec_no_equals(tk::STARTED.spec_bytes()),
        spec_no_value_end(tk::STARTED.spec_bytes()),
        spec_no_equals(encode_utf8(m.host)),
{
    reveal(spec_no_equals);
    reveal(spec_no_value_end);
    lemma_client_parts();
    lemma_tracker_keys();
    assert(encode_utf8(ck::INIT_MSG@) == seq![71u8, 69, 84, 32, 47, 97, 110, 110, 111, 117, 110, 99, 101]);
    assert forall|i: int| 0 <= i < encode_utf8(ck::INIT_MSG@).len() implies #[trigger] encode_utf8(ck::INIT_MSG@)[i] != 61 by {
        if i == 0 {} else if i == 1 {} else if i == 2 {} else if i == 3 {} else if i == 4 {} else if i == 5 {} else if i == 6 {} else if i == 7 {} else if i == 8 {} else if i == 9 {} else if i == 10 {} else if i == 11 {} else if i == 12 {}
    }
    assert(encode_utf8(ck::HTTP@) == seq![32u8, 72, 84, 84, 80, 47, 49, 46, 48, 13, 10]);
    assert forall|i: int| 0 <= i < encode_utf8(ck::HTTP@).len() implies #[trigger] encode_utf8(ck::HTTP@)[i] != 61 by {
        if i == 0 {} else if i == 1 {} else if i == 2 {} else if i == 3 {} else if i == 4 {} else if i == 5 {} else if i == 6 {} else if i == 7 {} else if i == 8 {} else if i == 9 {} else if i == 10 {}
    }
    assert(encode_utf8(ck::HOST@) == seq![72u8, 111, 115, 116, 58]);
    assert forall|i: int| 0 <= i < encode_utf8(ck::HOST@).len() implies #[trigger] encode_utf8(ck::HOST@)[i] != 61 by {
        if i == 0 {} else if i == 1 {} else if i == 2 {} else if i == 3 {} else if i == 4 {}
    }
    assert(encode_utf8(ck::MSG_ENDING@) == seq![13u8, 10, 13, 10]);
    assert forall|i: int| 0 <= i < encode_utf8(ck::MSG_ENDING@).len() implies #[trigger] encode_utf8(ck::MSG_ENDING@)[i] != 61 by {
        if i == 0 {} else if i == 1 {} else if i == 2 {} else if i == 3 {}
    }
    assert(tk::STARTED.spec_bytes() == seq![115u8, 116, 97, 114, 116, 101, 100]);
    assert forall|i: int| 0 <= i < tk::STARTED.spec_bytes().len() implies #[trigger] tk::STARTED.spec_bytes()[i] != 61 && !spec_is_value_end(tk::STARTED.spec_bytes()[i]) by {
        if i == 0 {} else if i == 1 {} else if i == 2 {} else if i == 3 {} else if i == 4 {} else if i == 5 {} else if i == 6 {}
    }
    lemma_url_encoded_shape(info_hash);
    let v2 = spec_ascii_bytes(m.peer_id);
    assert forall|i: int| 0 <= i < v2.len() implies #[trigger] v2[i] != 61 && !spec_is_value_end(v2[i]) by {
        assert(spec_is_unreserved(m.peer_id[i] as u8));
    }
    let v3 = spec_ascii_bytes(m.ip);
    assert forall|i: int| 0 <= i < v3.len() implies #[trigger] v3[i] != 61 by {
        assert('0' <= m.ip[i] <= '9' || m.ip[i] == '.');
    }
    lemma_decimal_free(m.port as nat);
    lemma_decimal_free(m.uploaded as nat);
    lemma_decimal_free(m.downloaded as nat);
    lemma_decimal_free(m.left as nat);
    lemma_text_no_equals(m.host);
}

/// Whether the tracker can read an announce of the client back: the info hash is the percent
/// encoding of 20 bytes; the peer id is 20 ASCII characters that need no escape; the IP
/// address is digits and dots; the port is one from 1 to 65535; the byte counts fit a `u64`;
/// the event is `started`; and the host holds no `=`.
pub open spec fn spec_readable_announce(m: MsgModel, info_hash: Seq<u8>) -> bool {
    &&& info_hash.len() == 20
    &&& m.info_hash == spec_utf8_text(spec_url_encode(info_hash))
    &&& m.peer_id.len() == 20
    &&& forall|i: int|
        0 <= i < m.peer_id.len() ==> '\0' <= #[trigger] m.peer_id[i] <= '\u{7f}' && spec_is_unreserved(
            m.peer_id[i] as u8,
        )
    &&& forall|i: int| 0 <= i < m.ip.len() ==> ('0' <= #[trigger] m.ip[i] <= '9' || m.ip[i] == '.')
    &&& 1 <= m.port <= 65535
    &&& 0 <= m.uploaded <= u64::MAX
    &&& 0 <= m.downloaded <= u64::MAX
    &&& 0 <= m.left <= u64::MAX
    &&& m.event == ck::STARTED@
    &&& forall|i: int| 0 <= i < m.host.len() ==> #[trigger] m.host[i] != '='
}

/// The peer that the tracker reads from such an announce, coming from the IP address `ip`.
pub open spec fn spec_announced_peer(m: MsgModel, info_hash: Seq<u8>, ip: Seq<u8>) -> PeerModel {
    PeerModel {
        ip,
        addr_port: m.port as u16,
        info_hash,
        peer_id: spec_ascii_bytes(m.peer_id),
        port: m.port,
        downloaded: m.downloaded,
        uploaded: m.uploaded,
        left: m.left,
        compact: None,
        event: Some(Event::Started),
    }
}

/// The tracker reads back the announce that the client sends: the info hash, the peer id, the
/// port, the byte counts and the event `started`, with no compact flag; the peer's address is
/// the one the connection came from.
pub proof fn lemma_tracker_reads_the_announce(m: MsgModel, info_hash: Seq<u8>, ip: Seq<u8>)
    requires
        spec_readable_announce(m, info_hash),
    ensures
        spec_peer_info(encode_utf8(spec_send_msg(m)), ip) == Ok::<PeerModel, PeerInfoError>(
            spec_announced_peer(m, info_hash, ip),
        ),
{
    let h = info_hash;
    lemma_tracker_keys();
    lemma_announce_bytes(m, h);
    let b = spec_announce_prefix(m, h, 20);
    lemma_value_ih(m, h, b);
    lemma_value_pid(m, h, b);
    lemma_value_port(m, h, b);
    lemma_value_up(m, h, b);
    lemma_value_down(m, h, b);
    lemma_value_left(m, h, b);
    lemma_value_ev(m, h, b);
    lemma_no_compact(m, h);
    lemma_url_decode_encode(h);
    let v2 = spec_ascii_bytes(m.peer_id);
    assert forall|i: int| 0 <= i < v2.len() implies spec_is_unreserved(#[trigger] v2[i]) by {}
    lemma_unreserved_encoding(v2);
    lemma_url_decode_encode(v2);
    lemma_parse_decimal(m.port as nat, u64::MAX as int);
    lemma_parse_decimal(m.uploaded as nat, u64::MAX as int);
    lemma_parse_decimal(m.downloaded as nat, u64::MAX as int);
    lemma_parse_decimal(m.left as nat, u64::MAX as int);
    reveal(spec_peer_info);
}

/// The `k`-th part of the bytes of a readable announce, after the request line's start.
spec fn spec_announce_part(m: MsgModel, h: Seq<u8>, k: int) -> Seq<u8> {
    if k == 1 {
        seq![63u8] + tk::INFO_HASH.spec_bytes()
    } else if k == 2 {
        spec_url_encode(h)
    } else if k == 3 {
        seq![38u8] + tk::PEER_ID.spec_bytes()
    } else if k == 4 {
        spec_ascii_bytes(m.peer_id)
    } else if k == 5 {
        seq![38u8] + seq![105u8, 112, 61]
    } else if k == 6 {
        spec_ascii_bytes(m.ip)
    } else if k == 7 {
        seq![38u8] + tk::PORT.spec_bytes()
    } else if k == 8 {
        spec_ascii_bytes(spec_decimal_text(m.port as nat))
    } else if k == 9 {
        seq![38u8] + tk::UPLOADED.spec_bytes()
    } else if k == 10 {
        spec_ascii_bytes(spec_decimal_text(m.uploaded as nat))
    } else if k == 11 {
        seq![38u8] + tk::DOWNLOADED.spec_bytes()
    } else if k == 12 {
        spec_ascii_bytes(spec_decimal_text(m.downloaded as nat))
    } else if k == 13 {
        seq![38u8] + tk::LEFT.spec_bytes()
    } else if k == 14 {
        spec_ascii_bytes(spec_decimal_text(m.left as nat))
    } else if k == 15 {
        seq![38u8] + tk::EVENT.spec_bytes()
    } else if k == 16 {
        tk::STARTED.spec_bytes()
    } else if k == 17 {
        encode_utf8(ck::HTTP@)
    } else if k == 18 {
        encode_utf8(ck::HOST@)
    } else if k == 19 {
        encode_utf8(m.host)
    } else {
        encode_utf8(ck::MSG_ENDING@)
    }
}

/// The bytes of a readable announce up to its `k`-th part.
spec fn spec_announce_prefix(m: MsgModel, h: Seq<u8>, k: nat) -> Seq<u8>
    decreases k,
{
    if k == 0 {
        encode_utf8(ck::INIT_MSG@)
    } else {
        spec_announce_prefix(m, h, (k - 1) as nat) + spec_announce_part(m, h, k as int)
    }
}

/// The parts of a readable announce that are no key hold no `=`.
proof fn lemma_part_facts(m: MsgModel, h: Seq<u8>)
    requires
        spec_readable_announce(m, h),
    ensures
        spec_no_equals(spec_announce_part(m, h, 2)),
        spec_no_equals(spec_announce_part(m, h, 4)),
        spec_no_equals(spec_announce_part(m, h, 6)),
        spec_no_equals(spec_announce_part(m, h, 8)),
        spec_no_equals(spec_announce_part(m, h, 10)),
        spec_no_equals(spec_announce_part(m, h, 12)),
        spec_no_equals(spec_announce_part(m, h, 14)),
        spec_no_equals(spec_announce_part(m, h, 16)),
        spec_no_equals(spec_announce_part(m, h, 17)),
        spec_no_equals(spec_announce_part(m, h, 18)),
        spec_no_equals(spec_announce_part(m, h, 19)),
        spec_no_equals(spec_announce_part(m, h, 20)),
{
    lemma_no_equals_parts(m, h);
}

/// The bytes of a readable announce, part after part.
proof fn lemma_announce_bytes(m: MsgModel, h: Seq<u8>)
    requires
        spec_readable_announce(m, h),
    ensures
        encode_utf8(spec_send_msg(m)) == spec_announce_prefix(m, h, 20),
{
    lemma_client_parts();
    reveal_with_fuel(spec_announce_prefix, 2);
    lemma_url_encoded_shape(h);
    lemma_ascii_text(spec_url_encode(h));
    lemma_ascii_bytes(m.peer_id);
    assert(is_ascii_chars(m.ip)) by {
        assert forall|i: int| 0 <= i < m.ip.len() implies '\0' <= #[trigger] m.ip[i] <= '\u{7f}' by {}
    }
    lemma_ascii_bytes(m.ip);
    lemma_decimal_bytes(m.port as nat);
    lemma_decimal_bytes(m.uploaded as nat);
    lemma_decimal_bytes(m.downloaded as nat);
    lemma_decimal_bytes(m.left as nat);
    lemma_ascii_bytes(spec_decimal_text(m.port as nat));
    lemma_ascii_bytes(spec_decimal_text(m.uploaded as nat));
    lemma_ascii_bytes(spec_decimal_text(m.downloaded as nat));
    lemma_ascii_bytes(spec_decimal_text(m.left as nat));
    let s0 = ck::INIT_MSG@;
    let s1 = s0 + ck::INFO_HASH@;
    let s2 = s1 + m.info_hash;
    let s3 = s2 + ck::PEER_ID@;
    let s4 = s3 + m.peer_id;
    let s5 = s4 + ck::IP@;
    let s6 = s5 + m.ip;
    let s7 = s6 + ck::PORT@;
    let s8 = s7 + spec_decimal_text(m.port as nat);
    let s9 = s8 + ck::UPLOADED@;
    let s10 = s9 + spec_decimal_text(m.uploaded as nat);
    let s11 = s10 + ck::DOWNLOADED@;
    let s12 = s11 + spec_decimal_text(m.downloaded as nat);
    let s13 = s12 + ck::LEFT@;
    let s14 = s13 + spec_decimal_text(m.left as nat);
    let s15 = s14 + ck::EVENT@;
    let s16 = s15 + m.event;
    let s17 = s16 + ck::HTTP@;
    let s18 = s17 + ck::HOST@;
    let s19 = s18 + m.host;
    let s20 = s19 + ck::MSG_ENDING@;
    assert(spec_send_msg(m) == s20);
    lemma_encode_concat(s0, ck::INFO_HASH@);
    assert(encode_utf8(s1) == spec_announce_prefix(m, h, 1));
    lemma_encode_concat(s1, m.info_hash);
    assert(encode_utf8(s2) == spec_announce_prefix(m, h, 2));
    lemma_encode_concat(s2, ck::PEER_ID@);
    assert(encode_utf8(s3) == spec_announce_prefix(m, h, 3));
    lemma_encode_concat(s3, m.peer_id);
    assert(encode_utf8(s4) == spec_announce_prefix(m, h, 4));
    lemma_encode_concat(s4, ck::IP@);
    assert(encode_utf8(s5) == spec_announce_prefix(m, h, 5));
    lemma_encode_concat(s5, m.ip);
    assert(encode_utf8(s6) == spec_announce_prefix(m, h, 6));
    lemma_encode_concat(s6, ck::PORT@);
    assert(encode_utf8(s7) == spec_announce_prefix(m, h, 7));
    lemma_encode_concat(s7, spec_decimal_text(m.port as nat));
    assert(encode_utf8(s8) == spec_announce_prefix(m, h, 8));
    lemma_encode_concat(s8, ck::UPLOADED@);
    assert(encode_utf8(s9) == spec_announce_prefix(m, h, 9));
    lemma_encode_concat(s9, spec_decimal_text(m.uploaded as nat));
    assert(encode_utf8(s10) == spec_announce_prefix(m, h, 10));
    lemma_encode_concat(s10, ck::DOWNLOADED@);
    assert(encode_utf8(s11) == spec_announce_prefix(m, h, 11));
    lemma_encode_concat(s11, spec_decimal_text(m.downloaded as nat));
    assert(encode_utf8(s12) == spec_announce_prefix(m, h, 12));
    lemma_encode_concat(s12, ck::LEFT@);
    assert(encode_utf8(s13) == spec_announce_prefix(m, h, 13));
    lemma_encode_concat(s13, spec_decimal_text(m.left as nat));
    assert(encode_utf8(s14) == spec_announce_prefix(m, h, 14));
    lemma_encode_concat(s14, ck::EVENT@);
    assert(encode_utf8(s15) == spec_announce_prefix(m, h, 15));
    lemma_encode_concat(s15, m.event);
    assert(encode_utf8(s16) == spec_announce_prefix(m, h, 16));
    lemma_encode_concat(s16, ck::HTTP@);
    assert(encode_utf8(s17) == spec_announce_prefix(m, h, 17));
    lemma_encode_concat(s17, ck::HOST@);
    assert(encode_utf8(s18) == spec_announce_prefix(m, h, 18));
    lemma_encode_concat(s18, m.host);
    assert(encode_utf8(s19) == spec_announce_prefix(m, h, 19));
    lemma_encode_concat(s19, ck::MSG_ENDING@);
    assert(encode_utf8(s20) == spec_announce_prefix(m, h, 20));
}

/// Each prefix of a readable announce's bytes stands at the start of every longer one.
proof fn lemma_prefix_stands(m: MsgModel, h: Seq<u8>, j: nat, i: nat)
    requires
        i <= j,
    ensures
        spec_announce_prefix(m, h, i).len() <= spec_announce_prefix(m, h, j).len(),
        spec_announce_prefix(m, h, j).take(spec_announce_prefix(m, h, i).len() as int) == spec_announce_prefix(m, h, i),
    decreases j - i,
{
    let p = spec_announce_prefix(m, h, i);
    if i < j {
        lemma_prefix_stands(m, h, (j - 1) as nat, i);
        let a = spec_announce_prefix(m, h, (j - 1) as nat);
        assert(spec_announce_prefix(m, h, j) == a + spec_announce_part(m, h, j as int));
        assert((a + spec_announce_part(m, h, j as int)).take(p.len() as int) =~= a.take(p.len() as int));
    } else {
        assert(p.take(p.len() as int) =~= p);
    }
}

/// The value of a key that stands first after `l` is what follows it up to the next separator.
proof fn lemma_value_found(b: Seq<u8>, l: Seq<u8>, key: Seq<u8>, v: Seq<u8>, r: Seq<u8>)
    requires
        spec_is_key(key),
        spec_no_key_in(l, key),
        spec_no_value_end(v),
        r.len() > 0,
        spec_is_value_end(r[0]),
        b == l + key + v + r,
    ensures
        spec_query_value(b, key) == Some(v),
{
    reveal(spec_no_value_end);
    assert(b =~= l + key + (v + r));
    lemma_key_found(l, key, v + r);
    assert(b.skip((l.len() + key.len()) as int) =~= v + r);
    lemma_take_value(v, r);
}

/// The value that the tracker reads after the key that ends the part before the `k`-th.
proof fn lemma_value_at(m: MsgModel, h: Seq<u8>, b: Seq<u8>, k: nat, key: Seq<u8>, sep: u8)
    requires
        b == spec_announce_prefix(m, h, 20),
        2 <= k < 20,
        spec_is_key(key),
        spec_no_key_in(spec_announce_prefix(m, h, (k - 2) as nat) + seq![sep], key),
        spec_announce_part(m, h, k as int - 1) == seq![sep] + key,
        spec_no_value_end(spec_announce_part(m, h, k as int)),
        spec_announce_part(m, h, k as int + 1).len() > 0,
        spec_is_value_end(spec_announce_part(m, h, k as int + 1)[0]),
    ensures
        spec_query_value(b, key) == Some(spec_announce_part(m, h, k as int)),
{
    let q = (k + 1) as nat;
    lemma_prefix_stands(m, h, 20, q);
    let p0 = spec_announce_prefix(m, h, (k - 2) as nat);
    let p1 = spec_announce_prefix(m, h, (k - 1) as nat);
    let p2 = spec_announce_prefix(m, h, k);
    let pq = spec_announce_prefix(m, h, q);
    let l = p0 + seq![sep];
    let v = spec_announce_part(m, h, k as int);
    let r = spec_announce_part(m, h, k as int + 1) + b.skip(pq.len() as int);
    assert(p1 == p0 + spec_announce_part(m, h, k as int - 1));
    assert(p2 == p1 + v);
    assert(pq == p2 + spec_announce_part(m, h, k as int + 1));
    assert(b =~= pq + b.skip(pq.len() as int)) by {
        assert(b =~= b.take(pq.len() as int) + b.skip(pq.len() as int));
    }
    assert(b =~= l + key + v + r);
    assert(r[0] == spec_announce_part(m, h, k as int + 1)[0]);
    lemma_value_found(b, l, key, v, r);
}

/// Where the key that the tracker reads stands nowhere before its place in the announce.
proof fn lemma_chain_ih(m: MsgModel, h: Seq<u8>)
    requires
        spec_readable_announce(m, h),
    ensures
        spec_no_key_in(spec_announce_prefix(m, h, 0) + seq![63u8], tk::INFO_HASH.spec_bytes()),
{
    lemma_tracker_keys();
    lemma_no_equals_parts(m, h);
    lemma_part_facts(m, h);
    lemma_separators_free();
    reveal_with_fuel(spec_announce_prefix, 2);
    lemma_no_key_in_empty(tk::INFO_HASH.spec_bytes());
    lemma_append_free(Seq::<u8>::empty(), spec_announce_prefix(m, h, 0), tk::INFO_HASH.spec_bytes());
    assert(Seq::<u8>::empty() + spec_announce_prefix(m, h, 0) =~= spec_announce_prefix(m, h, 0));
    lemma_append_free(spec_announce_prefix(m, h, 0), seq![63u8], tk::INFO_HASH.spec_bytes());
}

/// Where the key that the tracker reads stands nowhere before its place in the announce.
proof fn lemma_chain_pid(m: MsgModel, h: Seq<u8>)
    requires
        spec_readable_announce(m, h),
    ensures
        spec_no_key_in(spec_announce_prefix(m, h, 2) + seq![38u8], tk::PEER_ID.spec_bytes()),
{
    lemma_tracker_keys();
    lemma_no_equals_parts(m, h);
    lemma_part_facts(m, h);
    lemma_separators_free();
    reveal_with_fuel(spec_announce_prefix, 2);
    lemma_no_key_in_empty(tk::PEER_ID.spec_bytes());
    lemma_append_free(Seq::<u8>::empty(), spec_announce_prefix(m, h, 0), tk::PEER_ID.spec_bytes());
    assert(Seq::<u8>::empty() + spec_announce_prefix(m, h, 0) =~= spec_announce_prefix(m, h, 0));
    lemma_append_sep_key(spec_announce_prefix(m, h, 0), 63u8, tk::INFO_HASH.spec_bytes(), tk::PEER_ID.spec_bytes(), 1);
    lemma_append_free(spec_announce_prefix(m, h, 1), spec_announce_part(m, h, 2), tk::PEER_ID.spec_bytes());
    lemma_append_free(spec_announce_prefix(m, h, 2), seq![38u8], tk::PEER_ID.spec_bytes());
}

/// Where the key that the tracker reads stands nowhere before its place in the announce.
proof fn lemma_chain_port(m: MsgModel, h: Seq<u8>)
    requires
        spec_readable_announce(m, h),
    ensures
        spec_no_key_in(spec_announce_prefix(m, h, 6) + seq![38u8], tk::PORT.spec_bytes()),
{
    lemma_tracker_keys();
    lemma_no_equals_parts(m, h);
    lemma_part_facts(m, h);
    lemma_separators_free();
    reveal_with_fuel(spec_announce_prefix, 2);
    lemma_no_key_in_empty(tk::PORT.spec_bytes());
    lemma_append_free(Seq::<u8>::empty(), spec_announce_prefix(m, h, 0), tk::PORT.spec_bytes());
    assert(Seq::<u8>::empty() + spec_announce_prefix(m, h, 0) =~= spec_announce_prefix(m, h, 0));
    lemma_append_sep_key(spec_announce_prefix(m, h, 0), 63u8, tk::INFO_HASH.spec_bytes(), tk::PORT.spec_bytes(), 1);
    lemma_append_free(spec_announce_prefix(m, h, 1), spec_announce_part(m, h, 2), tk::PORT.spec_bytes());
    lemma_append_sep_key(spec_announce_prefix(m, h, 2), 38u8, tk::PEER_ID.spec_bytes(), tk::PORT.spec_bytes(), 1);
    lemma_append_free(spec_announce_prefix(m, h, 3), spec_announce_part(m, h, 4), tk::PORT.spec_bytes());
    lemma_append_sep_key(spec_announce_prefix(m, h, 4), 38u8, seq![105u8, 112, 61], tk::PORT.spec_bytes(), 1);
    lemma_append_free(spec_announce_prefix(m, h, 5), spec_announce_part(m, h, 6), tk::PORT.spec_bytes());
    lemma_append_free(spec_announce_prefix(m, h, 6), seq![38u8], tk::PORT.spec_bytes());
}

/// Where the key that the tracker reads stands nowhere before its place in the announce.
proof fn lemma_chain_up(m: MsgModel, h: Seq<u8>)
    requires
        spec_readable_announce(m, h),
    ensures
        spec_no_key_in(spec_announce_prefix(m, h, 8) + seq![38u8], tk::UPLOADED.spec_bytes()),
{
    lemma_tracker_keys();
    lemma_no_equals_parts(m, h);
    lemma_part_facts(m, h);
    lemma_separators_free();
    reveal_with_fuel(spec_announce_prefix, 2);
    lemma_no_key_in_empty(tk::UPLOADED.spec_bytes());
    lemma_append_free(Seq::<u8>::empty(), spec_announce_prefix(m, h, 0), tk::UPLOADED.spec_bytes());
    assert(Seq::<u8>::empty() + spec_announce_prefix(m, h, 0) =~= spec_announce_prefix(m, h, 0));
    lemma_append_sep_key(spec_announce_prefix(m, h, 0), 63u8, tk::INFO_HASH.spec_bytes(), tk::UPLOADED.spec_bytes(), 1);
    lemma_append_free(spec_announce_prefix(m, h, 1), spec_announce_part(m, h, 2), tk::UPLOADED.spec_bytes());
    lemma_append_sep_key(spec_announce_prefix(m, h, 2), 38u8, tk::PEER_ID.spec_bytes(), tk::UPLOADED.spec_bytes(), 2);
    lemma_append_free(spec_announce_prefix(m, h, 3), spec_announce_part(m, h, 4), tk::UPLOADED.spec_bytes());
    lemma_append_sep_key(spec_announce_prefix(m, h, 4), 38u8, seq![105u8, 112, 61], tk::UPLOADED.spec_bytes(), 1);
    lemma_append_free(spec_announce_prefix(m, h, 5), spec_announce_part(m, h, 6), tk::UPLOADED.spec_bytes());
    lemma_append_sep_key(spec_announce_prefix(m, h, 6), 38u8, tk::PORT.spec_bytes(), tk::UPLOADED.spec_bytes(), 1);
    lemma_append_free(spec_announce_prefix(m, h, 7), spec_announce_part(m, h, 8), tk::UPLOADED.spec_bytes());
    lemma_append_free(spec_announce_prefix(m, h, 8), seq![38u8], tk::UPLOADED.spec_bytes());
}

/// Where the key that the tracker reads stands nowhere before its place in the announce.
proof fn lemma_chain_down(m: MsgModel, h: Seq<u8>)
    requires
        spec_readable_announce(m, h),
    ensures
        spec_no_key_in(spec_announce_prefix(m, h, 10) + seq![38u8], tk::DOWNLOADED.spec_bytes()),
{
    lemma_tracker_keys();
    lemma_no_equals_parts(m, h);
    lemma_part_facts(m, h);
    lemma_separators_free();
    reveal_with_fuel(spec_announce_prefix, 2);
    lemma_no_key_in_empty(tk::DOWNLOADED.spec_bytes());
    lemma_append_free(Seq::<u8>::empty(), spec_announce_prefix(m, h, 0), tk::DOWNLOADED.spec_bytes());
    assert(Seq::<u8>::empty() + spec_announce_prefix(m, h, 0) =~= spec_announce_prefix(m, h, 0));
    lemma_append_sep_key(spec_announce_prefix(m, h, 0), 63u8, tk::INFO_HASH.spec_bytes(), tk::DOWNLOADED.spec_bytes(), 1);
    lemma_append_free(spec_announce_prefix(m, h, 1), spec_announce_part(m, h, 2), tk::DOWNLOADED.spec_bytes());
    lemma_append_sep_key(spec_announce_prefix(m, h, 2), 38u8, tk::PEER_ID.spec_bytes(), tk::DOWNLOADED.spec_bytes(), 2);
    lemma_append_free(spec_announce_prefix(m, h, 3), spec_announce_part(m, h, 4), tk::DOWNLOADED.spec_bytes());
    lemma_append_sep_key(spec_announce_prefix(m, h, 4), 38u8, seq![105u8, 112, 61], tk::DOWNLOADED.spec_bytes(), 1);
    lemma_append_free(spec_announce_prefix(m, h, 5), spec_announce_part(m, h, 6), tk::DOWNLOADED.spec_bytes());
    lemma_append_sep_key(spec_announce_prefix(m, h, 6), 38u8, tk::PORT.spec_bytes(), tk::DOWNLOADED.spec_bytes(), 1);
    lemma_append_free(spec_announce_prefix(m, h, 7), spec_announce_part(m, h, 8), tk::DOWNLOADED.spec_bytes());
    lemma_append_sep_key(spec_announce_prefix(m, h, 8), 38u8, tk::UPLOADED.spec_bytes(), tk::DOWNLOADED.spec_bytes(), 7);
    lemma_append_free(spec_announce_prefix(m, h, 9), spec_announce_part(m, h, 10), tk::DOWNLOADED.spec_bytes());
    lemma_append_free(spec_announce_prefix(m, h, 10), seq![38u8], tk::DOWNLOADED.spec_bytes());
}

/// Where the key that the tracker reads stands nowhere before its place in the announce.
proof fn lemma_chain_left(m: MsgModel, h: Seq<u8>)
    requires
        spec_readable_announce(m, h),
    ensures
        spec_no_key_in(spec_announce_prefix(m, h, 12) + seq![38u8], tk::LEFT.spec_bytes()),
{
    lemma_tracker_keys();
    lemma_no_equals_parts(m, h);
    lemma_part_facts(m, h);
    lemma_separators_free();
    reveal_with_fuel(spec_announce_prefix, 2);
    lemma_no_key_in_empty(tk::LEFT.spec_bytes());
    lemma_append_free(Seq::<u8>::empty(), spec_announce_prefix(m, h, 0), tk::LEFT.spec_bytes());
    assert(Seq::<u8>::empty() + spec_announce_prefix(m, h, 0) =~= spec_announce_prefix(m, h, 0));
    lemma_append_sep_key(spec_announce_prefix(m, h, 0), 63u8, tk::INFO_HASH.spec_bytes(), tk::LEFT.spec_bytes(), 1);
    lemma_append_free(spec_announce_prefix(m, h, 1), spec_announce_part(m, h, 2), tk::LEFT.spec_bytes());
    lemma_append_sep_key(spec_announce_prefix(m, h, 2), 38u8, tk::PEER_ID.spec_bytes(), tk::LEFT.spec_bytes(), 1);
    lemma_append_free(spec_announce_prefix(m, h, 3), spec_announce_part(m, h, 4), tk::LEFT.spec_bytes());
    lemma_append_sep_key(spec_announce_prefix(m, h, 4), 38u8, seq![105u8, 112, 61], tk::LEFT.spec_bytes(), 1);
    lemma_append_free(spec_announce_prefix(m, h, 5), spec_announce_part(m, h, 6), tk::LEFT.spec_bytes());
    lemma_append_sep_key(spec_announce_prefix(m, h, 6), 38u8, tk::PORT.spec_bytes(), tk::LEFT.spec_bytes(), 2);
    lemma_append_free(spec_announce_prefix(m, h, 7), spec_announce_part(m, h, 8), tk::LEFT.spec_bytes());
    lemma_append_sep_key(spec_announce_prefix(m, h, 8), 38u8, tk::UPLOADED.spec_bytes(), tk::LEFT.spec_bytes(), 1);
    lemma_append_free(spec_announce_prefix(m, h, 9), spec_announce_part(m, h, 10), tk::LEFT.spec_bytes());
    lemma_append_sep_key(spec_announce_prefix(m, h, 10), 38u8, tk::DOWNLOADED.spec_bytes(), tk::LEFT.spec_bytes(), 1);
    lemma_append_free(spec_announce_prefix(m, h, 11), spec_announce_part(m, h, 12), tk::LEFT.spec_bytes());
    lemma_append_free(spec_announce_prefix(m, h, 12), seq![38u8], tk::LEFT.spec_bytes());
}

/// Where the key that the tracker reads stands nowhere before its place in the announce.
proof fn lemma_chain_ev(m: MsgModel, h: Seq<u8>)
    requires
        spec_readable_announce(m, h),
    ensures
        spec_no_key_in(spec_announce_prefix(m, h, 14) + seq![38u8], tk::EVENT.spec_bytes()),
{
    lemma_tracker_keys();
    lemma_no_equals_parts(m, h);
    lemma_part_facts(m, h);
    lemma_separators_free();
    reveal_with_fuel(spec_announce_prefix, 2);
    lemma_no_key_in_empty(tk::EVENT.spec_bytes());
    lemma_append_free(Seq::<u8>::empty(), spec_announce_prefix(m, h, 0), tk::EVENT.spec_bytes());
    assert(Seq::<u8>::empty() + spec_announce_prefix(m, h, 0) =~= spec_announce_prefix(m, h, 0));
    lemma_append_sep_key(spec_announce_prefix(m, h, 0), 63u8, tk::INFO_HASH.spec_bytes(), tk::EVENT.spec_bytes(), 1);
    lemma_append_free(spec_announce_prefix(m, h, 1), spec_announce_part(m, h, 2), tk::EVENT.spec_bytes());
    lemma_append_sep_key(spec_announce_prefix(m, h, 2), 38u8, tk::PEER_ID.spec_bytes(), tk::EVENT.spec_bytes(), 1);
    lemma_append_free(spec_announce_prefix(m, h, 3), spec_announce_part(m, h, 4), tk::EVENT.spec_bytes());
    lemma_append_sep_key(spec_announce_prefix(m, h, 4), 38u8, seq![105u8, 112, 61], tk::EVENT.spec_bytes(), 1);
    lemma_append_free(spec_announce_prefix(m, h, 5), spec_announce_part(m, h, 6), tk::EVENT.spec_bytes());
    lemma_append_sep_key(spec_announce_prefix(m, h, 6), 38u8, tk::PORT.spec_bytes(), tk::EVENT.spec_bytes(), 2);
    lemma_append_free(spec_announce_prefix(m, h, 7), spec_announce_part(m, h, 8), tk::EVENT.spec_bytes());
    lemma_append_sep_key(spec_announce_prefix(m, h, 8), 38u8, tk::UPLOADED.spec_bytes(), tk::EVENT.spec_bytes(), 1);
    lemma_append_free(spec_announce_prefix(m, h, 9), spec_announce_part(m, h, 10), tk::EVENT.spec_bytes());
    lemma_append_sep_key(spec_announce_prefix(m, h, 10), 38u8, tk::DOWNLOADED.spec_bytes(), tk::EVENT.spec_bytes(), 1);
    lemma_append_free(spec_announce_prefix(m, h, 11), spec_announce_part(m, h, 12), tk::EVENT.spec_bytes());
    lemma_append_sep_key(spec_announce_prefix(m, h, 12), 38u8, tk::LEFT.spec_bytes(), tk::EVENT.spec_bytes(), 2);
    lemma_append_free(spec_announce_prefix(m, h, 13), spec_announce_part(m, h, 14), tk::EVENT.spec_bytes());
    lemma_append_free(spec_announce_prefix(m, h, 14), seq![38u8], tk::EVENT.spec_bytes());
}

/// Where the key that the tracker reads stands nowhere before its place in the announce.
proof fn lemma_chain_compact(m: MsgModel, h: Seq<u8>)
    requires
        spec_readable_announce(m, h),
    ensures
        spec_no_key_in(spec_announce_prefix(m, h, 20), tk::COMPACT.spec_bytes()),
{
    lemma_tracker_keys();
    lemma_no_equals_parts(m, h);
    lemma_part_facts(m, h);
    lemma_separators_free();
    reveal_with_fuel(spec_announce_prefix, 2);
    lemma_no_key_in_empty(tk::COMPACT.spec_bytes());
    lemma_append_free(Seq::<u8>::empty(), spec_announce_prefix(m, h, 0), tk::COMPACT.spec_bytes());
    assert(Seq::<u8>::empty() + spec_announce_prefix(m, h, 0) =~= spec_announce_prefix(m, h, 0));
    lemma_append_sep_key(spec_announce_prefix(m, h, 0), 63u8, tk::INFO_HASH.spec_bytes(), tk::COMPACT.spec_bytes(), 1);
    lemma_append_free(spec_announce_prefix(m, h, 1), spec_announce_part(m, h, 2), tk::COMPACT.spec_bytes());
    lemma_append_sep_key(spec_announce_prefix(m, h, 2), 38u8, tk::PEER_ID.spec_bytes(), tk::COMPACT.spec_bytes(), 1);
    lemma_append_free(spec_announce_prefix(m, h, 3), spec_announce_part(m, h, 4), tk::COMPACT.spec_bytes());
    lemma_append_sep_key(spec_announce_prefix(m, h, 4), 38u8, seq![105u8, 112, 61], tk::COMPACT.spec_bytes(), 1);
    lemma_append_free(spec_announce_prefix(m, h, 5), spec_announce_part(m, h, 6), tk::COMPACT.spec_bytes());
    lemma_append_sep_key(spec_announce_prefix(m, h, 6), 38u8, tk::PORT.spec_bytes(), tk::COMPACT.spec_bytes(), 2);
    lemma_append_free(spec_announce_prefix(m, h, 7), spec_announce_part(m, h, 8), tk::COMPACT.spec_bytes());
    lemma_append_sep_key(spec_announce_prefix(m, h, 8), 38u8, tk::UPLOADED.spec_bytes(), tk::COMPACT.spec_bytes(), 1);
    lemma_append_free(spec_announce_prefix(m, h, 9), spec_announce_part(m, h, 10), tk::COMPACT.spec_bytes());
    lemma_append_sep_key(spec_announce_prefix(m, h, 10), 38u8, tk::DOWNLOADED.spec_bytes(), tk::COMPACT.spec_bytes(), 1);
    lemma_append_free(spec_announce_prefix(m, h, 11), spec_announce_part(m, h, 12), tk::COMPACT.spec_bytes());
    lemma_append_sep_key(spec_announce_prefix(m, h, 12), 38u8, tk::LEFT.spec_bytes(), tk::COMPACT.spec_bytes(), 2);
    lemma_append_free(spec_announce_prefix(m, h, 13), spec_announce_part(m, h, 14), tk::COMPACT.spec_bytes());
    lemma_append_sep_key(spec_announce_prefix(m, h, 14), 38u8, tk::EVENT.spec_bytes(), tk::COMPACT.spec_bytes(), 2);
    lemma_append_free(spec_announce_prefix(m, h, 15), spec_announce_part(m, h, 16), tk::COMPACT.spec_bytes());
    lemma_append_free(spec_announce_prefix(m, h, 16), spec_announce_part(m, h, 17), tk::COMPACT.spec_bytes());
    lemma_append_free(spec_announce_prefix(m, h, 17), spec_announce_part(m, h, 18), tk::COMPACT.spec_bytes());
    lemma_append_free(spec_announce_prefix(m, h, 18), spec_announce_part(m, h, 19), tk::COMPACT.spec_bytes());
    lemma_append_free(spec_announce_prefix(m, h, 19), spec_announce_part(m, h, 20), tk::COMPACT.spec_bytes());
}


/// The value that the tracker reads after a key of a readable announce.
#[verifier::spinoff_prover]
#[verifier::rlimit(60)]
proof fn lemma_value_ih(m: MsgModel, h: Seq<u8>, b: Seq<u8>)
    requires
        spec_readable_announce(m, h),
        b == spec_announce_prefix(m, h, 20),
    ensures
        spec_query_value(b, tk::INFO_HASH.spec_bytes()) == Some(spec_announce_part(m, h, 2)),
{
    assert(spec_is_key(tk::INFO_HASH.spec_bytes()) && spec_announce_part(m, h, 1) == seq![63u8] + tk::INFO_HASH.spec_bytes()
        && spec_announce_part(m, h, 3).len() > 0 && spec_is_value_end(spec_announce_part(m, h, 3)[0])) by {
        lemma_tracker_keys();
        lemma_client_parts();
    }
    assert(spec_no_value_end(spec_announce_part(m, h, 2))) by {
        lemma_no_equals_parts(m, h);
    }
    lemma_chain_ih(m, h);
    lemma_value_at(m, h, b, 2, tk::INFO_HASH.spec_bytes(), 63u8);
}

/// The value that the tracker reads after a key of a readable announce.
#[verifier::spinoff_prover]
#[verifier::rlimit(60)]
proof fn lemma_value_pid(m: MsgModel, h: Seq<u8>, b: Seq<u8>)
    requires
        spec_readable_announce(m, h),
        b == spec_announce_prefix(m, h, 20),
    ensures
        spec_query_value(b, tk::PEER_ID.spec_bytes()) == Some(spec_announce_part(m, h, 4)),
{
    assert(spec_is_key(tk::PEER_ID.spec_bytes())) by {
        lemma_tracker_keys();
    }
    assert(spec_announce_part(m, h, 3) == seq![38u8] + tk::PEER_ID.spec_bytes()) by {
        lemma_client_parts();
    }
    assert(spec_announce_part(m, h, 5).len() > 0 && spec_is_value_end(spec_announce_part(m, h, 5)[0])) by {
        lemma_tracker_keys();
        lemma_client_parts();
    }
    assert(spec_no_value_end(spec_announce_part(m, h, 4))) by {
        lemma_no_equals_parts(m, h);
    }
    lemma_chain_pid(m, h);
    lemma_value_at(m, h, b, 4, tk::PEER_ID.spec_bytes(), 38u8);
}

/// The value that the tracker reads after a key of a readable announce.
#[verifier::spinoff_prover]
#[verifier::rlimit(60)]
proof fn lemma_value_port(m: MsgModel, h: Seq<u8>, b: Seq<u8>)
    requires
        spec_readable_announce(m, h),
        b == spec_announce_prefix(m, h, 20),
    ensures
        spec_query_value(b, tk::PORT.spec_bytes()) == Some(spec_announce_part(m, h, 8)),
{
    assert(spec_is_key(tk::PORT.spec_bytes()) && spec_announce_part(m, h, 7) == seq![38u8] + tk::PORT.spec_bytes()
        && spec_announce_part(m, h, 9).len() > 0 && spec_is_value_end(spec_announce_part(m, h, 9)[0])) by {
        lemma_tracker_keys();
        lemma_client_parts();
    }
    assert(spec_no_value_end(spec_announce_part(m, h, 8))) by {
        lemma_no_equals_parts(m, h);
    }
    lemma_chain_port(m, h);
    lemma_value_at(m, h, b, 8, tk::PORT.spec_bytes(), 38u8);
}

/// The value that the tracker reads after a key of a readable announce.
#[verifier::spinoff_prover]
#[verifier::rlimit(60)]
proof fn lemma_value_up(m: MsgModel, h: Seq<u8>, b: Seq<u8>)
    requires
        spec_readable_announce(m, h),
        b == spec_announce_prefix(m, h, 20),
    ensures
        spec_query_value(b, tk::UPLOADED.spec_bytes()) == Some(spec_announce_part(m, h, 10)),
{
    assert(spec_is_key(tk::UPLOADED.spec_bytes()) && spec_announce_part(m, h, 9) == seq![38u8] + tk::UPLOADED.spec_bytes()
        && spec_announce_part(m, h, 11).len() > 0 && spec_is_value_end(spec_announce_part(m, h, 11)[0])) by {
        lemma_tracker_keys();
        lemma_client_parts();
    }
    assert(spec_no_value_end(spec_announce_part(m, h, 10))) by {
        lemma_no_equals_parts(m, h);
    }
    lemma_chain_up(m, h);
    lemma_value_at(m, h, b, 10, tk::UPLOADED.spec_bytes(), 38u8);
}

/// The value that the tracker reads after a key of a readable announce.
#[verifier::spinoff_prover]
#[verifier::rlimit(60)]
proof fn lemma_value_down(m: MsgModel, h: Seq<u8>, b: Seq<u8>)
    requires
        spec_readable_announce(m, h),
        b == spec_announce_prefix(m, h, 20),
    ensures
        spec_query_value(b, tk::DOWNLOADED.spec_bytes()) == Some(spec_announce_part(m, h, 12)),
{
    assert(spec_is_key(tk::DOWNLOADED.spec_bytes()) && spec_announce_part(m, h, 11) == seq![38u8] + tk::DOWNLOADED.spec_bytes()
        && spec_announce_part(m, h, 13).len() > 0 && spec_is_value_end(spec_announce_part(m, h, 13)[0])) by {
        lemma_tracker_keys();
        lemma_client_parts();
    }
    assert(spec_no_value_end(spec_announce_part(m, h, 12))) by {
        lemma_no_equals_parts(m, h);
    }
    lemma_chain_down(m, h);
    lemma_value_at(m, h, b, 12, tk::DOWNLOADED.spec_bytes(), 38u8);
}

/// The value that the tracker reads after a key of a readable announce.
#[verifier::spinoff_prover]
#[verifier::rlimit(60)]
proof fn lemma_value_left(m: MsgModel, h: Seq<u8>, b: Seq<u8>)
    requires
        spec_readable_announce(m, h),
        b == spec_announce_prefix(m, h, 20),
    ensures
        spec_query_value(b, tk::LEFT.spec_bytes()) == Some(spec_announce_part(m, h, 14)),
{
    assert(spec_is_key(tk::LEFT.spec_bytes()) && spec_announce_part(m, h, 13) == seq![38u8] + tk::LEFT.spec_bytes()
        && spec_announce_part(m, h, 15).len() > 0 && spec_is_value_end(spec_announce_part(m, h, 15)[0])) by {
        lemma_tracker_keys();
        lemma_client_parts();
    }
    assert(spec_no_value_end(spec_announce_part(m, h, 14))) by {
        lemma_no_equals_parts(m, h);
    }
    lemma_chain_left(m, h);
    lemma_value_at(m, h, b, 14, tk::LEFT.spec_bytes(), 38u8);
}

/// The value that the tracker reads after a key of a readable announce.
#[verifier::spinoff_prover]
#[verifier::rlimit(60)]
proof fn lemma_value_ev(m: MsgModel, h: Seq<u8>, b: Seq<u8>)
    requires
        spec_readable_announce(m, h),
        b == spec_announce_prefix(m, h, 20),
    ensures
        spec_query_value(b, tk::EVENT.spec_bytes()) == Some(spec_announce_part(m, h, 16)),
{
    assert(spec_is_key(tk::EVENT.spec_bytes())) by {
        lemma_tracker_keys();
    }
    assert(spec_announce_part(m, h, 15) == seq![38u8] + tk::EVENT.spec_bytes()) by {
        lemma_client_parts();
    }
    assert(spec_announce_part(m, h, 17).len() > 0 && spec_is_value_end(spec_announce_part(m, h, 17)[0])) by {
        lemma_tracker_keys();
        lemma_client_parts();
    }
    assert(spec_no_value_end(spec_announce_part(m, h, 16))) by {
        lemma_no_equals_parts(m, h);
    }
    lemma_chain_ev(m, h);
    lemma_value_at(m, h, b, 16, tk::EVENT.spec_bytes(), 38u8);
}

/// A readable announce has no compact flag.
proof fn lemma_no_compact(m: MsgModel, h: Seq<u8>)
    requires
        spec_readable_announce(m, h),
    ensures
        spec_query_value(encode_utf8(spec_send_msg(m)), tk::COMPACT.spec_bytes()) is None,
{
    lemma_tracker_keys();
    lemma_announce_bytes(m, h);
    lemma_chain_compact(m, h);
    lemma_key_absent(encode_utf8(spec_send_msg(m)), tk::COMPACT.spec_bytes());
}


} // verus!
