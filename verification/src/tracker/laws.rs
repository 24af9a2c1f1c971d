//! What the client reads of the tracker's answer to an announce.

use vstd::prelude::*;
use vstd::string::*;
use crate::bencoding::decoder::spec_decode_dic;
use crate::bencoding::encoder::{spec_digits, spec_encode_value};
use crate::bencoding::laws::{lemma_decode_encode_dic, lemma_digits_shape};
use crate::bencoding::values::{spec_key_lt, spec_keys_sorted, spec_lookup, spec_value_wf, Bencode, ErrorBencoding};
use crate::numbers::{spec_all_digits, spec_decimal_value, spec_is_digit, spec_parse_unsigned};
use crate::torrent::http_handler::{
    spec_http_code, spec_response_dic, spec_space_from, ResponseFailure, HTTP_VERSION,
};
use crate::torrent::torrent_file_data::spec_utf8_text;
use crate::torrent::tracker_response_data::{
    spec_compact_peers as spec_read_compact_peers, spec_full_peer, spec_full_peers, spec_response, IpModel,
    PeerModel as ReadPeer, ResponseError,
};
use super::communication::{spec_http_response, CONTENT_LENGTH, OK_URL};
use super::peer_info::{spec_find_from, spec_match_at, PeerModel};
use super::torrent_info::{
    spec_announce_response, spec_compact_peer, spec_compact_peers, spec_count_complete, spec_ip_bytes,
    spec_is_listed, spec_peer_dict, spec_peer_dicts, COMPLETE, INCOMPLETE, INTERVAL, IP_KEY, PEERS, PEER_ID_KEY,
    PORT_KEY,
};

verus! {

/// The keys of the tracker's answer, as bytes.
proof fn lemma_answer_keys()
    ensures
        COMPLETE.spec_bytes() == seq![99u8, 111, 109, 112, 108, 101, 116, 101],
        INCOMPLETE.spec_bytes() == seq![105u8, 110, 99, 111, 109, 112, 108, 101, 116, 101],
        INTERVAL.spec_bytes() == seq![105u8, 110, 116, 101, 114, 118, 97, 108],
        PEERS.spec_bytes() == seq![112u8, 101, 101, 114, 115],
        IP_KEY.spec_bytes() == seq![105u8, 112],
        PEER_ID_KEY.spec_bytes() == seq![112u8, 101, 101, 114, 32, 105, 100],
        PORT_KEY.spec_bytes() == seq![112u8, 111, 114, 116],
        crate::torrent::tracker_response_data::COMPLETE.spec_bytes() == COMPLETE.spec_bytes(),
        crate::torrent::tracker_response_data::INCOMPLETE.spec_bytes() == INCOMPLETE.spec_bytes(),
        crate::torrent::tracker_response_data::INTERVAL.spec_bytes() == INTERVAL.spec_bytes(),
        crate::torrent::tracker_response_data::PEERS.spec_bytes() == PEERS.spec_bytes(),
        crate::torrent::tracker_response_data::IP.spec_bytes() == IP_KEY.spec_bytes(),
        crate::torrent::tracker_response_data::PEER_ID.spec_bytes() == PEER_ID_KEY.spec_bytes(),
        crate::torrent::tracker_response_data::PORT.spec_bytes() == PORT_KEY.spec_bytes(),
{
    broadcast use is_ascii_spec_bytes;

    reveal_strlit("complete");
    reveal_strlit("incomplete");
    reveal_strlit("interval");
    reveal_strlit("peers");
    reveal_strlit("ip");
    reveal_strlit("peer id");
    reveal_strlit("port");
    assert(is_ascii(COMPLETE));
    assert(is_ascii(INCOMPLETE));
    assert(is_ascii(INTERVAL));
    assert(is_ascii(PEERS));
    assert(is_ascii(IP_KEY));
    assert(is_ascii(PEER_ID_KEY));
    assert(is_ascii(PORT_KEY));
    assert(COMPLETE.spec_bytes() =~= seq![99u8, 111, 109, 112, 108, 101, 116, 101]);
    assert(INCOMPLETE.spec_bytes() =~= seq![105u8, 110, 99, 111, 109, 112, 108, 101, 116, 101]);
    assert(INTERVAL.spec_bytes() =~= seq![105u8, 110, 116, 101, 114, 118, 97, 108]);
    assert(PEERS.spec_bytes() =~= seq![112u8, 101, 101, 114, 115]);
    assert(IP_KEY.spec_bytes() =~= seq![105u8, 112]);
    assert(PEER_ID_KEY.spec_bytes() =~= seq![112u8, 101, 101, 114, 32, 105, 100]);
    assert(PORT_KEY.spec_bytes() =~= seq![112u8, 111, 114, 116]);
}


/// What the client reads of a peer in the tracker's full list: its id, its IP address as
/// text, and its port.
pub open spec fn spec_read_peer(peer_id: Seq<u8>, p: PeerModel) -> ReadPeer {
    ReadPeer { peer_id: Some(peer_id), ip: IpModel::Text(spec_utf8_text(p.ip)), port: p.addr_port as int }
}

/// What the client reads of the tracker's full list of peers for `requester`.
pub open spec fn spec_read_full_list(entries: Seq<(Seq<u8>, PeerModel)>, requester: Seq<u8>) -> Seq<ReadPeer>
    decreases entries.len(),
{
    if entries.len() == 0 {
        Seq::empty()
    } else {
        spec_read_full_list(entries.drop_last(), requester) + if spec_is_listed(entries.last(), requester) {
            seq![spec_read_peer(entries.last().0, entries.last().1)]
        } else {
            Seq::empty()
        }
    }
}

/// A peer's dictionary in the full list is well formed, and the client reads it back.
proof fn lemma_read_peer_dict(peer_id: Seq<u8>, p: PeerModel)
    ensures
        spec_value_wf(spec_peer_dict(peer_id, p)),
        spec_full_peer(spec_peer_dict(peer_id, p)->Dict_0) == Ok::<ReadPeer, ResponseError>(
            spec_read_peer(peer_id, p),
        ),
{
    lemma_answer_keys();
    reveal_with_fuel(spec_lookup, 4);
    reveal_with_fuel(spec_key_lt, 3);
    let d = spec_peer_dict(peer_id, p)->Dict_0;
    assert(spec_key_lt(d[0].0, d[1].0));
    assert(spec_key_lt(d[0].0, d[2].0));
    assert(spec_key_lt(d[1].0, d[2].0));
    assert(spec_keys_sorted(d));
    assert(spec_value_wf(d[0].1));
    assert(spec_value_wf(d[1].1));
    assert(spec_value_wf(d[2].1));
    assert(forall|i: int| 0 <= i < d.len() ==> spec_value_wf(#[trigger] d[i].1));
}

/// The full list of peers is well formed, and the client reads it back.
proof fn lemma_read_full_list(entries: Seq<(Seq<u8>, PeerModel)>, requester: Seq<u8>)
    ensures
        forall|i: int|
            0 <= i < spec_peer_dicts(entries, requester).len() ==> spec_value_wf(
                #[trigger] spec_peer_dicts(entries, requester)[i],
            ),
        spec_full_peers(spec_peer_dicts(entries, requester)) == Ok::<Seq<ReadPeer>, ResponseError>(
            spec_read_full_list(entries, requester),
        ),
    decreases entries.len(),
{
    if entries.len() > 0 {
        let rest = entries.drop_last();
        lemma_read_full_list(rest, requester);
        let head = spec_peer_dicts(rest, requester);
        let all = spec_peer_dicts(entries, requester);
        if spec_is_listed(entries.last(), requester) {
            let dict = spec_peer_dict(entries.last().0, entries.last().1);
            lemma_read_peer_dict(entries.last().0, entries.last().1);
            assert(all == head.push(dict));
            assert(all.drop_last() =~= head);
            assert(all.last() == dict);
            assert(spec_read_full_list(entries, requester) =~= spec_read_full_list(rest, requester).push(
                spec_read_peer(entries.last().0, entries.last().1),
            ));
            assert(spec_full_peers(all) == Ok::<Seq<ReadPeer>, ResponseError>(
                spec_read_full_list(rest, requester).push(spec_read_peer(entries.last().0, entries.last().1)),
            ));
            assert forall|i: int| 0 <= i < all.len() implies spec_value_wf(#[trigger] all[i]) by {
                if i < head.len() {
                    assert(all[i] == head[i]);
                }
            }
        } else {
            assert(all =~= head);
            assert(spec_read_full_list(entries, requester) =~= spec_read_full_list(rest, requester));
        }
    }
}

/// What the client reads of a peer in the tracker's compact list: its IP address as four
/// bytes, and its port.
pub open spec fn spec_read_compact_peer(p: PeerModel) -> ReadPeer {
    let ip = spec_ip_bytes(p.ip);
    ReadPeer { peer_id: None, ip: IpModel::V4(ip[0], ip[1], ip[2], ip[3]), port: p.addr_port as int }
}

/// What the client reads of the tracker's compact list of peers for `requester`.
pub open spec fn spec_read_compact_list(entries: Seq<(Seq<u8>, PeerModel)>, requester: Seq<u8>) -> Seq<ReadPeer>
    decreases entries.len(),
{
    if entries.len() == 0 {
        Seq::empty()
    } else {
        spec_read_compact_list(entries.drop_last(), requester) + if spec_is_listed(entries.last(), requester) {
            seq![spec_read_compact_peer(entries.last().1)]
        } else {
            Seq::empty()
        }
    }
}

/// Whether every peer listed to `requester` has an IPv4 address in dotted text, which the
/// compact list holds as four bytes.
pub open spec fn spec_listed_ips_are_v4(entries: Seq<(Seq<u8>, PeerModel)>, requester: Seq<u8>) -> bool {
    forall|i: int|
        0 <= i < entries.len() && spec_is_listed(#[trigger] entries[i], requester) ==> spec_ip_bytes(entries[i].1.ip).len()
            == 4
}

/// Reading six more bytes of a compact list reads one more peer.
proof fn lemma_read_compact_append(s: Seq<u8>, t: Seq<u8>)
    requires
        s.len() % 6 == 0,
        t.len() == 6,
    ensures
        spec_read_compact_peers(s + t) == spec_read_compact_peers(s).push(spec_read_compact_peers(t)[0]),
{
    let u = s + t;
    let k = s.len() / 6;
    assert(s.len() == 6 * k);
    assert(u.len() / 6 == k + 1);
    assert(t.len() / 6 == 1);
    let left = spec_read_compact_peers(u);
    let right = spec_read_compact_peers(s).push(spec_read_compact_peers(t)[0]);
    assert forall|i: int| 0 <= i < left.len() implies left[i] == right[i] by {
        if i < k {
            assert(6 * i + 5 < s.len());
            assert(u[6 * i] == s[6 * i]);
            assert(u[6 * i + 1] == s[6 * i + 1]);
            assert(u[6 * i + 2] == s[6 * i + 2]);
            assert(u[6 * i + 3] == s[6 * i + 3]);
            assert(u[6 * i + 4] == s[6 * i + 4]);
            assert(u[6 * i + 5] == s[6 * i + 5]);
        } else {
            assert(i == k);
            assert(u[6 * i] == t[0]);
            assert(u[6 * i + 1] == t[1]);
            assert(u[6 * i + 2] == t[2]);
            assert(u[6 * i + 3] == t[3]);
            assert(u[6 * i + 4] == t[4]);
            assert(u[6 * i + 5] == t[5]);
        }
    }
    assert(left =~= right);
}

/// The compact list of peers holds six bytes per peer, and the client reads it back where
/// every listed peer has an IPv4 address.
proof fn lemma_read_compact_list(entries: Seq<(Seq<u8>, PeerModel)>, requester: Seq<u8>)
    requires
        spec_listed_ips_are_v4(entries, requester),
    ensures
        spec_compact_peers(entries, requester).len() % 6 == 0,
        spec_read_compact_peers(spec_compact_peers(entries, requester)) == spec_read_compact_list(entries, requester),
    decreases entries.len(),
{
    if entries.len() == 0 {
        assert(spec_read_compact_peers(Seq::<u8>::empty()) =~= Seq::<ReadPeer>::empty());
    } else {
        let rest = entries.drop_last();
        assert forall|i: int| 0 <= i < rest.len() && spec_is_listed(#[trigger] rest[i], requester) implies spec_ip_bytes(
            rest[i].1.ip,
        ).len() == 4 by {
            assert(rest[i] == entries[i]);
        }
        lemma_read_compact_list(rest, requester);
        let head = spec_compact_peers(rest, requester);
        let all = spec_compact_peers(entries, requester);
        if spec_is_listed(entries.last(), requester) {
            let p = entries.last().1;
            assert(entries[entries.len() - 1] == entries.last());
            let six = spec_compact_peer(p);
            assert(six.len() == 6);
            assert(all == head + six);
            lemma_read_compact_append(head, six);
            let read = spec_read_compact_peers(six)[0];
            assert((p.addr_port / 256) as u8 == p.addr_port / 256);
            assert(read.port == p.addr_port as int);
            assert(read == spec_read_compact_peer(p));
            assert(spec_read_compact_list(entries, requester) =~= spec_read_compact_list(rest, requester).push(
                spec_read_compact_peer(p),
            ));
        } else {
            assert(all =~= head);
            assert(spec_read_compact_list(entries, requester) =~= spec_read_compact_list(rest, requester));
        }
    }
}

/// The number of peers with the whole torrent is at most the number of peers.
proof fn lemma_count_complete_bounds(entries: Seq<(Seq<u8>, PeerModel)>)
    ensures
        0 <= spec_count_complete(entries) <= entries.len(),
    decreases entries.len(),
{
    if entries.len() > 0 {
        lemma_count_complete_bounds(entries.drop_last());
    }
}

/// The client reads back the tracker's answer to an announce: the interval, the numbers of
/// peers with and without the whole torrent, and the peers other than the requester that did
/// not stop, in the order they first announced; in full, or compact where every such peer has
/// an IPv4 address. Decoding the answer's bytes gives back its dictionary, and the client
/// takes the tracker's data from that dictionary.
pub proof fn lemma_client_reads_the_announce_answer(
    entries: Seq<(Seq<u8>, PeerModel)>,
    interval: int,
    requester: Seq<u8>,
    compact: bool,
)
    requires
        0 <= interval <= i64::MAX,
        entries.len() <= i64::MAX,
        compact ==> spec_listed_ips_are_v4(entries, requester),
    ensures
        spec_decode_dic(spec_encode_value(spec_announce_response(entries, interval, requester, compact))) == Ok::<
            Seq<(Seq<u8>, Bencode)>,
            ErrorBencoding,
        >(spec_announce_response(entries, interval, requester, compact)->Dict_0),
        spec_response(spec_announce_response(entries, interval, requester, compact)->Dict_0) == Ok::<
            (int, int, int, Seq<ReadPeer>),
            ResponseError,
        >(
            (
                interval,
                spec_count_complete(entries),
                entries.len() - spec_count_complete(entries),
                if compact {
                    spec_read_compact_list(entries, requester)
                } else {
                    spec_read_full_list(entries, requester)
                },
            ),
        ),
{
    lemma_answer_keys();
    lemma_count_complete_bounds(entries);
    lemma_read_full_list(entries, requester);
    if compact {
        lemma_read_compact_list(entries, requester);
    }
    reveal_with_fuel(spec_lookup, 5);
    reveal_with_fuel(spec_key_lt, 4);
    let answer = spec_announce_response(entries, interval, requester, compact);
    let d = answer->Dict_0;
    assert(spec_key_lt(d[0].0, d[1].0));
    assert(spec_key_lt(d[0].0, d[2].0));
    assert(spec_key_lt(d[0].0, d[3].0));
    assert(spec_key_lt(d[1].0, d[2].0));
    assert(spec_key_lt(d[1].0, d[3].0));
    assert(spec_key_lt(d[2].0, d[3].0));
    assert(spec_keys_sorted(d));
    assert(spec_value_wf(d[0].1));
    assert(spec_value_wf(d[1].1));
    assert(spec_value_wf(d[2].1));
    assert(spec_value_wf(d[3].1));
    assert(forall|i: int| 0 <= i < d.len() ==> spec_value_wf(#[trigger] d[i].1));
    assert(spec_value_wf(answer));
    lemma_decode_encode_dic(d);
}

/// The status line of a response with content, as bytes and as text: `HTTP/1.1`, then the
/// code 200, which the client takes for success.
proof fn lemma_ok_status_line()
    ensures
        OK_URL.spec_bytes() == seq![72u8, 84, 84, 80, 47, 49, 46, 49, 32, 50, 48, 48, 32, 79, 75],
        spec_utf8_text(OK_URL.spec_bytes()) == OK_URL@,
        spec_http_code(OK_URL@) == Ok::<(), Option<Seq<char>>>(()),
{
    broadcast use is_ascii_spec_bytes;
    broadcast use vstd::utf8::encode_utf8_valid_utf8;
    broadcast use vstd::utf8::encode_utf8_decode_utf8;

    reveal_strlit("HTTP/1.1 200 OK");
    reveal_strlit("HTTP/1.1");
    assert(is_ascii(OK_URL));
    assert(OK_URL.spec_bytes() =~= seq![72u8, 84, 84, 80, 47, 49, 46, 49, 32, 50, 48, 48, 32, 79, 75]);
    assert(vstd::utf8::valid_utf8(vstd::utf8::encode_utf8(OK_URL@)));
    assert(vstd::utf8::decode_utf8(vstd::utf8::encode_utf8(OK_URL@)) == OK_URL@);
    let line = OK_URL@;
    reveal_with_fuel(spec_space_from, 14);
    assert(spec_space_from(line, 0) == Some(8int));
    assert(line.take(8) =~= HTTP_VERSION@);
    assert(spec_space_from(line, 9) == Some(12int));
    let code = line.subrange(9, 12);
    assert(code =~= seq!['2', '0', '0']);
    assert(vstd::utf8::is_ascii_chars(code));
    let bytes = Seq::new(code.len(), |i: int| code[i] as u8);
    assert(bytes =~= seq![50u8, 48, 48]);
    let digits = seq![50u8, 48, 48];
    assert(digits.drop_last() =~= seq![50u8, 48]);
    assert(digits.drop_last().drop_last() =~= seq![50u8]);
    assert(digits.drop_last().drop_last().drop_last() =~= Seq::<u8>::empty());
    reveal_with_fuel(spec_decimal_value, 4);
    assert(spec_decimal_value(digits) == 200);
    assert(spec_all_digits(digits));
    assert(spec_parse_unsigned(digits, u32::MAX as int) == Some(200int));
}

/// The first place from `a` on where a pattern stands is `q`, where it stands at `q` and
/// nowhere between.
pub proof fn lemma_find_first(s: Seq<u8>, pat: Seq<u8>, a: int, q: int)
    requires
        0 <= a <= q,
        spec_match_at(s, pat, q),
        forall|i: int| a <= i < q ==> !#[trigger] spec_match_at(s, pat, i),
    ensures
        spec_find_from(s, pat, a) == Some(q),
    decreases q - a,
{
    if a < q {
        assert(!spec_match_at(s, pat, a));
        lemma_find_first(s, pat, a + 1, q);
    }
}

/// What stands between the status line and the length of the content, as bytes.
proof fn lemma_content_length_bytes()
    ensures
        CONTENT_LENGTH.spec_bytes() == seq![13u8, 10, 67, 111, 110, 116, 101, 110, 116, 45, 76, 101, 110, 103, 116, 104, 58, 32],
{
    broadcast use is_ascii_spec_bytes;

    reveal_strlit("\r\nContent-Length: ");
    assert(is_ascii(CONTENT_LENGTH));
    assert(CONTENT_LENGTH.spec_bytes() =~= seq![13u8, 10, 67, 111, 110, 116, 101, 110, 116, 45, 76, 101, 110, 103, 116, 104, 58, 32]);
}

/// The client takes back what the tracker sends under the status line of success: the
/// dictionary that the content decodes to, or a decoding failure where it is no bencoded
/// dictionary.
pub proof fn lemma_client_reads_a_framed_answer(contents: Seq<u8>)
    ensures
        spec_response_dic(spec_http_response(OK_URL.spec_bytes(), contents)) == match spec_decode_dic(contents) {
            Ok(d) => Ok::<Seq<(Seq<u8>, Bencode)>, ResponseFailure>(d),
            Err(_) => Err::<Seq<(Seq<u8>, Bencode)>, ResponseFailure>(ResponseFailure::ToDic),
        },
{
    lemma_ok_status_line();
    lemma_content_length_bytes();
    lemma_digits_shape(contents.len());
    let ok = OK_URL.spec_bytes();
    let cl = CONTENT_LENGTH.spec_bytes();
    let digits = spec_digits(contents.len());
    let end = seq![13u8, 10u8, 13u8, 10u8];
    let s = spec_http_response(ok, contents);
    assert(s == ok + cl + digits + end + contents);
    let k = digits.len();
    let q: int = 33 + k as int;
    assert(s.len() == q + 4 + contents.len());
    assert forall|i: int| 0 <= i < 15 implies s[i] == ok[i] && #[trigger] s[i] != 13 by {
        assert(s[i] == ok[i]);
    }
    assert forall|i: int| 15 <= i < 33 implies #[trigger] s[i] == cl[i - 15] by {}
    assert forall|i: int| 33 <= i < q implies #[trigger] s[i] == digits[i - 33] && spec_is_digit(digits[i - 33]) by {}
    assert forall|i: int| 0 <= i < 4 implies #[trigger] s[q + i] == end[i] by {}
    let crlf = seq![13u8, 10u8];
    assert(s.subrange(15, 17) =~= crlf);
    assert forall|i: int| 0 <= i < 15 implies !#[trigger] spec_match_at(s, crlf, i) by {
        if spec_match_at(s, crlf, i) {
            assert(s.subrange(i, i + 2)[0] == s[i]);
        }
    }
    lemma_find_first(s, crlf, 0, 15);
    assert(s.take(15) =~= ok);
    let crlf2 = seq![13u8, 10u8, 13u8, 10u8];
    assert(s.subrange(q, q + 4) =~= crlf2);
    assert forall|i: int| 0 <= i < q implies !#[trigger] spec_match_at(s, crlf2, i) by {
        if spec_match_at(s, crlf2, i) {
            assert(s.subrange(i, i + 4)[0] == s[i]);
            assert(s.subrange(i, i + 4)[2] == s[i + 2]);
            if i < 15 {
            } else if i == 15 {
                assert(s[17] == cl[2]);
            } else if i < 33 {
                assert(s[i] == cl[i - 15]);
            } else {
                assert(s[i] == digits[i - 33]);
            }
        }
    }
    lemma_find_first(s, crlf2, 0, q);
    assert(s.skip(q + 4) =~= contents);
}

/// The client reads back the tracker's HTTP response to an announce: the status line is one
/// of success, and the content gives the interval, the numbers of peers with and without the
/// whole torrent, and the peers other than the requester that did not stop, in the order they
/// first announced; in full, or compact where every such peer has an IPv4 address.
pub proof fn lemma_client_reads_the_tracker_response(
    entries: Seq<(Seq<u8>, PeerModel)>,
    interval: int,
    requester: Seq<u8>,
    compact: bool,
)
    requires
        0 <= interval <= i64::MAX,
        entries.len() <= i64::MAX,
        compact ==> spec_listed_ips_are_v4(entries, requester),
    ensures
        spec_response_dic(
            spec_http_response(
                OK_URL.spec_bytes(),
                spec_encode_value(spec_announce_response(entries, interval, requester, compact)),
            ),
        ) matches Ok(d) && spec_response(d) == Ok::<(int, int, int, Seq<ReadPeer>), ResponseError>(
            (
                interval,
                spec_count_complete(entries),
                entries.len() - spec_count_complete(entries),
                if compact {
                    spec_read_compact_list(entries, requester)
                } else {
                    spec_read_full_list(entries, requester)
                },
            ),
        ),
{
    lemma_client_reads_the_announce_answer(entries, interval, requester, compact);
    lemma_client_reads_a_framed_answer(spec_encode_value(spec_announce_response(entries, interval, requester, compact)));
}

} // verus!
