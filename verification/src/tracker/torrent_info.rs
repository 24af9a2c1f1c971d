//! A torrent the tracker serves: the peers that announced it, and the tracker's bencoded
//! answer to an announce.

use vstd::prelude::*;
use vstd::string::*;
use crate::bencoding::encoder::{from_dic, spec_encode_value};
use crate::bencoding::values::{bytes_equal, Bencode, DicValues, ValuesBencoding};
use crate::numbers::{parse_unsigned, spec_parse_unsigned};
use super::peer_info::{spec_is_complete, spec_is_stopped, PeerInfo, PeerModel};

verus! {

/// The key of the number of peers with the whole torrent.
pub const COMPLETE: &'static str = "complete";

/// The key of the number of peers still downloading.
pub const INCOMPLETE: &'static str = "incomplete";

/// The key of the interval between announces.
pub const INTERVAL: &'static str = "interval";

/// The key of the list of peers.
pub const PEERS: &'static str = "peers";

/// The key of a peer's id in the list of peers.
pub const PEER_ID_KEY: &'static str = "peer id";

/// The key of a peer's IP address in the list of peers.
pub const IP_KEY: &'static str = "ip";

/// The key of a peer's port in the list of peers.
pub const PORT_KEY: &'static str = "port";

/// A torrent the tracker serves, with the peers that announced it, each under its peer id.
pub struct TorrentInfo {
    info_hash: Vec<u8>,
    interval: i64,
    peers: Vec<(Vec<u8>, PeerInfo)>,
}

/// The value of one byte of a dotted IP address: the number a part stands for, where it is one
/// from 0 to 255.
pub open spec fn spec_ip_part(part: Seq<u8>) -> Seq<u8> {
    match spec_parse_unsigned(part, 255) {
        Some(v) => seq![v as u8],
        None => Seq::empty(),
    }
}

/// The bytes of the parts of a dotted IP address that are numbers from 0 to 255, `cur` being the
/// part read so far.
pub open spec fn spec_ip_bytes_from(s: Seq<u8>, cur: Seq<u8>) -> Seq<u8>
    decreases s.len(),
{
    if s.len() == 0 {
        spec_ip_part(cur)
    } else if s[0] == 46 {
        spec_ip_part(cur) + spec_ip_bytes_from(s.drop_first(), Seq::empty())
    } else {
        spec_ip_bytes_from(s.drop_first(), cur.push(s[0]))
    }
}

/// The bytes of a dotted IP address in text: each part between dots that is a number from 0
/// to 255 gives one byte.
pub open spec fn spec_ip_bytes(ip: Seq<u8>) -> Seq<u8> {
    spec_ip_bytes_from(ip, Seq::empty())
}

/// Whether the answer to `requester` lists a peer: it is another peer, and it did not stop.
pub open spec fn spec_is_listed(entry: (Seq<u8>, PeerModel), requester: Seq<u8>) -> bool {
    entry.0 != requester && !spec_is_stopped(entry.1)
}

/// The six bytes of a peer in the compact list: its IP address, then its port, big endian.
pub open spec fn spec_compact_peer(p: PeerModel) -> Seq<u8> {
    spec_ip_bytes(p.ip) + seq![(p.addr_port / 256) as u8, (p.addr_port % 256) as u8]
}

/// The compact list of peers for `requester`.
pub open spec fn spec_compact_peers(entries: Seq<(Seq<u8>, PeerModel)>, requester: Seq<u8>) -> Seq<u8>
    decreases entries.len(),
{
    if entries.len() == 0 {
        Seq::empty()
    } else {
        spec_compact_peers(entries.drop_last(), requester) + if spec_is_listed(entries.last(), requester) {
            spec_compact_peer(entries.last().1)
        } else {
            Seq::empty()
        }
    }
}

/// The dictionary of a peer in the full list: its IP address, peer id and port.
pub open spec fn spec_peer_dict(peer_id: Seq<u8>, p: PeerModel) -> Bencode {
    Bencode::Dict(
        seq![
            (IP_KEY.spec_bytes(), Bencode::Str(p.ip)),
            (PEER_ID_KEY.spec_bytes(), Bencode::Str(peer_id)),
            (PORT_KEY.spec_bytes(), Bencode::Int(p.addr_port as int)),
        ],
    )
}

/// The full list of peers for `requester`.
pub open spec fn spec_peer_dicts(entries: Seq<(Seq<u8>, PeerModel)>, requester: Seq<u8>) -> Seq<Bencode>
    decreases entries.len(),
{
    if entries.len() == 0 {
        Seq::empty()
    } else {
        spec_peer_dicts(entries.drop_last(), requester) + if spec_is_listed(entries.last(), requester) {
            seq![spec_peer_dict(entries.last().0, entries.last().1)]
        } else {
            Seq::empty()
        }
    }
}

/// The number of peers with the whole torrent.
pub open spec fn spec_count_complete(entries: Seq<(Seq<u8>, PeerModel)>) -> int
    decreases entries.len(),
{
    if entries.len() == 0 {
        0
    } else {
        spec_count_complete(entries.drop_last()) + if spec_is_complete(entries.last().1) {
            1int
        } else {
            0int
        }
    }
}

/// The answer to an announce of `requester`: the numbers of peers with and without the whole
/// torrent, the interval, and the other peers that did not stop, compact or in full.
pub open spec fn spec_announce_response(
    entries: Seq<(Seq<u8>, PeerModel)>,
    interval: int,
    requester: Seq<u8>,
    compact: bool,
) -> Bencode {
    let complete = spec_count_complete(entries);
    Bencode::Dict(
        seq![
            (COMPLETE.spec_bytes(), Bencode::Int(complete)),
            (INCOMPLETE.spec_bytes(), Bencode::Int(entries.len() - complete)),
            (INTERVAL.spec_bytes(), Bencode::Int(interval)),
            (
                PEERS.spec_bytes(),
                if compact {
                    Bencode::Str(spec_compact_peers(entries, requester))
                } else {
                    Bencode::List(spec_peer_dicts(entries, requester))
                },
            ),
        ],
    )
}

/// The values of a list.
pub open spec fn spec_values(l: Seq<ValuesBencoding>) -> Seq<Bencode> {
    Seq::new(l.len(), |i: int| l[i]@)
}

/// The peer stored under `key`.
pub open spec fn spec_find_peer(entries: Seq<(Seq<u8>, PeerModel)>, key: Seq<u8>) -> Option<PeerModel>
    decreases entries.len(),
{
    if entries.len() == 0 {
        None
    } else if entries.last().0 == key {
        Some(entries.last().1)
    } else {
        spec_find_peer(entries.drop_last(), key)
    }
}

/// Whether no peer id occurs twice.
pub open spec fn spec_distinct_keys(entries: Seq<(Seq<u8>, PeerModel)>) -> bool {
    forall|i: int, j: int| 0 <= i < j < entries.len() ==> (#[trigger] entries[i]).0 != (#[trigger] entries[j]).0
}

/// A key absent from the entries is found nowhere, and one present is found at its position.
pub proof fn lemma_find_peer(entries: Seq<(Seq<u8>, PeerModel)>, key: Seq<u8>)
    requires
        spec_distinct_keys(entries),
    ensures
        (forall|i: int| 0 <= i < entries.len() ==> (#[trigger] entries[i]).0 != key) ==> spec_find_peer(entries, key) is None,
        forall|i: int| 0 <= i < entries.len() && (#[trigger] entries[i]).0 == key ==> spec_find_peer(entries, key) == Some(entries[i].1),
    decreases entries.len(),
{
    if entries.len() > 0 {
        let rest = entries.drop_last();
        assert(spec_distinct_keys(rest));
        lemma_find_peer(rest, key);
        assert forall|i: int| 0 <= i < entries.len() && (#[trigger] entries[i]).0 == key implies spec_find_peer(entries, key) == Some(entries[i].1) by {
            if i < entries.len() - 1 {
                assert(rest[i] == entries[i]);
            }
        }
        if forall|i: int| 0 <= i < entries.len() ==> (#[trigger] entries[i]).0 != key {
            assert forall|i: int| 0 <= i < rest.len() implies (#[trigger] rest[i]).0 != key by {
                assert(rest[i] == entries[i]);
            }
        }
    }
}

/// The bytes of a dotted IP address in text; see [`spec_ip_bytes`].
pub fn ip_bytes(ip: &[u8]) -> (res: Vec<u8>)
    ensures
        res@ == spec_ip_bytes(ip@),
{
    let mut out: Vec<u8> = Vec::new();
    let mut cur: Vec<u8> = Vec::new();
    let mut i: usize = 0;
    assert(ip@.skip(0) =~= ip@);
    while i < ip.len()
        invariant
            0 <= i <= ip@.len(),
            out@ + spec_ip_bytes_from(ip@.skip(i as int), cur@) == spec_ip_bytes(ip@),
        decreases ip@.len() - i,
    {
        let c = ip[i];
        let ghost rest = ip@.skip(i as int);
        assert(rest[0] == c);
        assert(rest.drop_first() =~= ip@.skip(i + 1));
        let ghost old_cur = cur@;
        if c == 46u8 {
            let ghost before = out@;
            match parse_unsigned(cur.as_slice(), 255) {
                Some(v) => {
                    out.push(v as u8);
                },
                None => {},
            }
            assert(out@ =~= before + spec_ip_part(cur@));
            cur = Vec::new();
            assert(spec_ip_bytes_from(rest, old_cur) == spec_ip_part(old_cur) + spec_ip_bytes_from(
                ip@.skip(i + 1),
                cur@,
            ));
            assert(out@ + spec_ip_bytes_from(ip@.skip(i + 1), cur@) =~= before + spec_ip_bytes_from(rest, old_cur));
        } else {
            cur.push(c);
            assert(spec_ip_bytes_from(rest, old_cur) == spec_ip_bytes_from(ip@.skip(i + 1), cur@));
        }
        i = i + 1;
    }
    assert(ip@.skip(i as int) =~= Seq::<u8>::empty());
    let ghost before = out@;
    match parse_unsigned(cur.as_slice(), 255) {
        Some(v) => {
            out.push(v as u8);
        },
        None => {},
    }
    assert(out@ =~= before + spec_ip_part(cur@));
    out
}

impl TorrentInfo {
    /// The peers, each with its peer id, in the order they first announced.
    pub closed spec fn entries(&self) -> Seq<(Seq<u8>, PeerModel)> {
        self.peers@.map_values(|e: (Vec<u8>, PeerInfo)| (e.0@, e.1@))
    }

    /// The info hash of the torrent.
    pub closed spec fn spec_info_hash(&self) -> Seq<u8> {
        self.info_hash@
    }

    /// The interval between announces that the tracker asks for.
    pub closed spec fn spec_interval(&self) -> int {
        self.interval as int
    }

    /// Whether no peer id occurs twice.
    pub open spec fn well_formed(&self) -> bool {
        spec_distinct_keys(self.entries())
    }

    /// The peer stored under `peer_id`.
    pub open spec fn peer(&self, peer_id: Seq<u8>) -> Option<PeerModel> {
        spec_find_peer(self.entries(), peer_id)
    }

    /// A torrent with no peers yet.
    pub fn new(info_hash: Vec<u8>) -> (res: TorrentInfo)
        ensures
            res.well_formed(),
            res.entries() == Seq::<(Seq<u8>, PeerModel)>::empty(),
            res.spec_info_hash() == info_hash@,
            res.spec_interval() == 0,
    {
        let res = TorrentInfo { info_hash, interval: 0, peers: Vec::new() };
        assert(res.entries() =~= Seq::<(Seq<u8>, PeerModel)>::empty());
        res
    }

    /// The info hash of the torrent.
    pub fn get_info_hash(&self) -> (res: Vec<u8>)
        ensures
            res@ == self.spec_info_hash(),
    {
        self.info_hash.clone()
    }

    /// Stores the peer under its peer id, in place of what was stored there; tells whether the
    /// peer is new to the torrent.
    pub fn add_peer(&mut self, peer_id: Vec<u8>, peer_info: PeerInfo) -> (res: bool)
        requires
            old(self).well_formed(),
        ensures
            final(self).well_formed(),
            res == (old(self).peer(peer_id@) is None),
            final(self).peer(peer_id@) == Some(peer_info@),
            forall|k: Seq<u8>| k != peer_id@ ==> #[trigger] final(self).peer(k) == old(self).peer(k),
            res ==> final(self).entries() == old(self).entries().push((peer_id@, peer_info@)),
            !res ==> exists|i: int|
                0 <= i < old(self).entries().len() && old(self).entries()[i].0 == peer_id@
                    && final(self).entries() == old(self).entries().update(i, (peer_id@, peer_info@)),
            final(self).spec_info_hash() == old(self).spec_info_hash(),
            final(self).spec_interval() == old(self).spec_interval(),
    {
        let ghost before = self.entries();
        let ghost entry = (peer_id@, peer_info@);
        let ghost new_item = (peer_id, peer_info);
        proof {
            lemma_find_peer(before, peer_id@);
        }
        let mut i: usize = 0;
        while i < self.peers.len()
            invariant
                before == self.entries(),
                self.well_formed(),
                self.info_hash@ == old(self).info_hash@,
                self.interval == old(self).interval,
                self.peers@ == old(self).peers@,
                entry == (peer_id@, peer_info@),
                new_item == (peer_id, peer_info),
                0 <= i <= self.peers@.len(),
                forall|k: int| 0 <= k < i ==> (#[trigger] before[k]).0 != peer_id@,
            decreases self.peers@.len() - i,
        {
            assert(before[i as int].0 == self.peers@[i as int].0@);
            if bytes_equal(self.peers[i].0.as_slice(), peer_id.as_slice()) {
                self.peers.set(i, (peer_id, peer_info));
                proof {
                    lemma_find_peer(before, entry.0);
                    let after = self.entries();
                    assert(self.peers@ == old(self).peers@.update(i as int, new_item));
                    assert forall|j: int| 0 <= j < after.len() implies after[j] == before.update(i as int, entry)[j] by {
                        if j != i {
                            assert(self.peers@[j] == old(self).peers@[j]);
                        }
                    }
                    assert(after =~= before.update(i as int, entry));
                    assert forall|a: int, b: int| 0 <= a < b < after.len() implies (#[trigger] after[a]).0 != (#[trigger] after[b]).0 by {
                        if a != i && b != i {
                            assert(after[a] == before[a] && after[b] == before[b]);
                        } else if a == i {
                            assert(after[b] == before[b]);
                        } else {
                            assert(after[a] == before[a]);
                        }
                    }
                    lemma_find_peer(after, entry.0);
                    assert(after[i as int].0 == entry.0);
                    assert forall|k: Seq<u8>| k != entry.0 implies #[trigger] spec_find_peer(after, k) == spec_find_peer(before, k) by {
                        lemma_find_peer(after, k);
                        lemma_find_peer(before, k);
                        if exists|j: int| 0 <= j < before.len() && (#[trigger] before[j]).0 == k {
                            let j = choose|j: int| 0 <= j < before.len() && (#[trigger] before[j]).0 == k;
                            assert(after[j] == before[j]);
                        } else {
                            assert forall|j: int| 0 <= j < after.len() implies (#[trigger] after[j]).0 != k by {
                                if j != i {
                                    assert(after[j] == before[j]);
                                }
                            }
                        }
                    }
                }
                return false;
            }
            i = i + 1;
        }
        self.peers.push((peer_id, peer_info));
        proof {
            let after = self.entries();
            assert(after =~= before.push(entry));
            assert forall|a: int, b: int| 0 <= a < b < after.len() implies (#[trigger] after[a]).0 != (#[trigger] after[b]).0 by {
                assert(after[a] == before[a]);
                if b < before.len() {
                    assert(after[b] == before[b]);
                }
            }
            assert(after.drop_last() =~= before);
        }
        true
    }

    /// The numbers of peers with and without the whole torrent.
    fn get_number_of_complete_and_incomplete_peers(&self) -> (res: (i64, i64))
        requires
            self.entries().len() <= i64::MAX,
        ensures
            res.0 == spec_count_complete(self.entries()),
            res.1 == self.entries().len() - spec_count_complete(self.entries()),
    {
        let ghost all = self.entries();
        let mut complete: i64 = 0;
        let mut incomplete: i64 = 0;
        let mut i: usize = 0;
        while i < self.peers.len()
            invariant
                all == self.entries(),
                all.len() <= i64::MAX,
                0 <= i <= all.len(),
                complete == spec_count_complete(all.take(i as int)),
                complete + incomplete == i,
                0 <= complete,
                0 <= incomplete,
            decreases all.len() - i,
        {
            assert(all.take(i + 1).drop_last() =~= all.take(i as int));
            assert(all[i as int].1 == self.peers@[i as int].1@);
            if self.peers[i].1.is_complete() {
                complete = complete + 1;
            } else {
                incomplete = incomplete + 1;
            }
            i = i + 1;
        }
        assert(all.take(i as int) =~= all);
        (complete, incomplete)
    }

    /// The answer to an announce of `peer_id` with the full list of peers.
    fn get_response_no_compact(&self, peer_id: Vec<u8>) -> (res: Vec<u8>)
        requires
            self.entries().len() <= i64::MAX,
        ensures
            res@ == spec_encode_value(spec_announce_response(self.entries(), self.spec_interval(), peer_id@, false)),
    {
        let (complete, incomplete) = self.get_number_of_complete_and_incomplete_peers();
        let ghost all = self.entries();
        let mut list_peers: Vec<ValuesBencoding> = Vec::new();
        let mut i: usize = 0;
        while i < self.peers.len()
            invariant
                all == self.entries(),
                0 <= i <= all.len(),
                spec_values(list_peers@) == spec_peer_dicts(all.take(i as int), peer_id@),
            decreases all.len() - i,
        {
            let ghost before = spec_values(list_peers@);
            assert(all.take(i + 1).drop_last() =~= all.take(i as int));
            assert(all.take(i + 1).last() == all[i as int]);
            assert(all[i as int] == (self.peers@[i as int].0@, self.peers@[i as int].1@));
            let key = &self.peers[i].0;
            let peer_info = &self.peers[i].1;
            if !bytes_equal(key.as_slice(), peer_id.as_slice()) && !peer_info.is_stopped() {
                let sock_addr = peer_info.get_sock_addr();
                let dic_peer = DicValues {
                    entries: vec![
                        (vstd::slice::slice_to_vec(IP_KEY.as_bytes()), ValuesBencoding::String(sock_addr.ip)),
                        (vstd::slice::slice_to_vec(PEER_ID_KEY.as_bytes()), ValuesBencoding::String(key.clone())),
                        (vstd::slice::slice_to_vec(PORT_KEY.as_bytes()), ValuesBencoding::Integer(sock_addr.port as i64)),
                    ],
                };
                let item = ValuesBencoding::Dic(dic_peer);
                assert(item@ == spec_peer_dict(all[i as int].0, all[i as int].1)) by {
                    assert(dic_peer@ =~= spec_peer_dict(all[i as int].0, all[i as int].1)->Dict_0);
                }
                list_peers.push(item);
                assert(spec_values(list_peers@) =~= before.push(item@));
            } else {
                assert(spec_values(list_peers@) =~= before + Seq::<Bencode>::empty());
            }
            i = i + 1;
        }
        assert(all.take(i as int) =~= all);
        let peers_value = ValuesBencoding::List(list_peers);
        let dic_to_bencode = DicValues {
            entries: vec![
                (vstd::slice::slice_to_vec(COMPLETE.as_bytes()), ValuesBencoding::Integer(complete)),
                (vstd::slice::slice_to_vec(INCOMPLETE.as_bytes()), ValuesBencoding::Integer(incomplete)),
                (vstd::slice::slice_to_vec(INTERVAL.as_bytes()), ValuesBencoding::Integer(self.interval)),
                (vstd::slice::slice_to_vec(PEERS.as_bytes()), peers_value),
            ],
        };
        assert(dic_to_bencode@ =~= spec_announce_response(all, self.spec_interval(), peer_id@, false)->Dict_0) by {
            assert(peers_value@->List_0 =~= spec_values(list_peers@));
        }
        from_dic(dic_to_bencode)
    }

    /// The answer to an announce of `peer_id` with the compact list of peers.
    fn get_response_compact(&self, peer_id: Vec<u8>) -> (res: Vec<u8>)
        requires
            self.entries().len() <= i64::MAX,
        ensures
            res@ == spec_encode_value(spec_announce_response(self.entries(), self.spec_interval(), peer_id@, true)),
    {
        let (complete, incomplete) = self.get_number_of_complete_and_incomplete_peers();
        let ghost all = self.entries();
        let mut vec_u8_peers: Vec<u8> = Vec::new();
        let mut i: usize = 0;
        while i < self.peers.len()
            invariant
                all == self.entries(),
                0 <= i <= all.len(),
                vec_u8_peers@ == spec_compact_peers(all.take(i as int), peer_id@),
            decreases all.len() - i,
        {
            let ghost before = vec_u8_peers@;
            assert(all.take(i + 1).drop_last() =~= all.take(i as int));
            assert(all.take(i + 1).last() == all[i as int]);
            assert(all[i as int] == (self.peers@[i as int].0@, self.peers@[i as int].1@));
            let key = &self.peers[i].0;
            let peer_info = &self.peers[i].1;
            if !bytes_equal(key.as_slice(), peer_id.as_slice()) && !peer_info.is_stopped() {
                let sock_addr = peer_info.get_sock_addr();
                let mut ip = ip_bytes(sock_addr.ip.as_slice());
                vec_u8_peers.append(&mut ip);
                let port_num = sock_addr.port;
                vec_u8_peers.push((port_num / 256) as u8);
                vec_u8_peers.push((port_num % 256) as u8);
                assert(vec_u8_peers@ =~= before + spec_compact_peer(all[i as int].1));
            } else {
                assert(vec_u8_peers@ =~= before + Seq::<u8>::empty());
            }
            i = i + 1;
        }
        assert(all.take(i as int) =~= all);
        let dic_to_bencode = DicValues {
            entries: vec![
                (vstd::slice::slice_to_vec(COMPLETE.as_bytes()), ValuesBencoding::Integer(complete)),
                (vstd::slice::slice_to_vec(INCOMPLETE.as_bytes()), ValuesBencoding::Integer(incomplete)),
                (vstd::slice::slice_to_vec(INTERVAL.as_bytes()), ValuesBencoding::Integer(self.interval)),
                (vstd::slice::slice_to_vec(PEERS.as_bytes()), ValuesBencoding::String(vec_u8_peers)),
            ],
        };
        assert(dic_to_bencode@ =~= spec_announce_response(all, self.spec_interval(), peer_id@, true)->Dict_0);
        from_dic(dic_to_bencode)
    }

    /// The bencoded answer to an announce of `peer_id`: the counts of complete and incomplete
    /// peers, the interval, and the other peers that did not stop, in the compact form of six
    /// bytes each where `is_compact` holds and as a list of dictionaries otherwise.
    pub fn get_bencoded_response_for_announce(&self, peer_id: Vec<u8>, is_compact: bool) -> (res: Vec<u8>)
        requires
            self.entries().len() <= i64::MAX,
        ensures
            res@ == spec_encode_value(spec_announce_response(self.entries(), self.spec_interval(), peer_id@, is_compact)),
    {
        if is_compact {
            self.get_response_compact(peer_id)
        } else {
            self.get_response_no_compact(peer_id)
        }
    }
}

/// Every peer in the full list given to `requester` is a peer of the torrent other than the
/// requester that did not stop, and every such peer is in the list.
pub proof fn lemma_peer_list_members(entries: Seq<(Seq<u8>, PeerModel)>, requester: Seq<u8>)
    ensures
        forall|k: int| 0 <= k < spec_peer_dicts(entries, requester).len() ==> exists|j: int|
            0 <= j < entries.len() && spec_is_listed(#[trigger] entries[j], requester)
                && #[trigger] spec_peer_dicts(entries, requester)[k] == spec_peer_dict(entries[j].0, entries[j].1),
        forall|j: int| 0 <= j < entries.len() && spec_is_listed(#[trigger] entries[j], requester) ==>
            spec_peer_dicts(entries, requester).contains(spec_peer_dict(entries[j].0, entries[j].1)),
    decreases entries.len(),
{
    if entries.len() > 0 {
        let rest = entries.drop_last();
        lemma_peer_list_members(rest, requester);
        let head = spec_peer_dicts(rest, requester);
        let all = spec_peer_dicts(entries, requester);
        assert forall|k: int| 0 <= k < all.len() implies exists|j: int|
            0 <= j < entries.len() && spec_is_listed(#[trigger] entries[j], requester)
                && #[trigger] all[k] == spec_peer_dict(entries[j].0, entries[j].1) by {
            if k < head.len() {
                assert(all[k] == head[k]);
                let j = choose|j: int| 0 <= j < rest.len() && spec_is_listed(#[trigger] rest[j], requester)
                    && head[k] == spec_peer_dict(rest[j].0, rest[j].1);
                assert(rest[j] == entries[j]);
            } else {
                assert(entries[entries.len() - 1] == entries.last());
            }
        }
        assert forall|j: int| 0 <= j < entries.len() && spec_is_listed(#[trigger] entries[j], requester) implies
            all.contains(spec_peer_dict(entries[j].0, entries[j].1)) by {
            if j < rest.len() {
                assert(rest[j] == entries[j]);
                let k = choose|k: int| 0 <= k < head.len() && head[k] == spec_peer_dict(rest[j].0, rest[j].1);
                assert(all[k] == head[k]);
            } else {
                assert(entries[j] == entries.last());
                assert(all[all.len() - 1] == spec_peer_dict(entries[j].0, entries[j].1));
            }
        }
    }
}

/// A peer found under a key is stored at some position under that key.
pub proof fn lemma_found_peer_stored(entries: Seq<(Seq<u8>, PeerModel)>, key: Seq<u8>)
    requires
        spec_find_peer(entries, key) is Some,
    ensures
        exists|j: int| 0 <= j < entries.len() && #[trigger] entries[j] == (key, spec_find_peer(entries, key)->0),
    decreases entries.len(),
{
    let rest = entries.drop_last();
    if entries.last().0 == key {
        assert(entries[entries.len() - 1] == (key, spec_find_peer(entries, key)->0));
    } else {
        lemma_found_peer_stored(rest, key);
        let j = choose|j: int| 0 <= j < rest.len() && #[trigger] rest[j] == (key, spec_find_peer(rest, key)->0);
        assert(entries[j] == rest[j]);
    }
}

/// A peer that announced and did not stop is in the full list that the tracker gives any other
/// peer of the torrent.
pub proof fn lemma_announced_peer_is_listed(t: &TorrentInfo, peer_id: Seq<u8>, requester: Seq<u8>)
    requires
        t.peer(peer_id) is Some,
        !spec_is_stopped(t.peer(peer_id)->0),
        requester != peer_id,
    ensures
        spec_peer_dicts(t.entries(), requester).contains(spec_peer_dict(peer_id, t.peer(peer_id)->0)),
        (spec_announce_response(t.entries(), t.spec_interval(), requester, false)->Dict_0)[3].1
            == Bencode::List(spec_peer_dicts(t.entries(), requester)),
{
    lemma_found_peer_stored(t.entries(), peer_id);
    lemma_peer_list_members(t.entries(), requester);
    let j = choose|j: int| 0 <= j < t.entries().len() && #[trigger] t.entries()[j] == (peer_id, t.peer(peer_id)->0);
    assert(spec_is_listed(t.entries()[j], requester));
}

} // verus!
