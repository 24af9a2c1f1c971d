//! A tracker's answer to the client's announce, read from its bencoded dictionary: the
//! interval, the numbers of seeders and leechers, and the peers, in full or compact form.

use vstd::prelude::*;
use vstd::string::*;
use crate::bencoding::values::{bytes_equal, spec_lookup, Bencode, DicValues, ValuesBencoding};
use super::torrent_file_data::{spec_list_values, spec_utf8_text, vec_u8_to_string};

verus! {

/// The key of the interval between announces.
pub const INTERVAL: &'static str = "interval";

/// The key of the number of seeders.
pub const COMPLETE: &'static str = "complete";

/// The key of the number of leechers.
pub const INCOMPLETE: &'static str = "incomplete";

/// The key of the peers.
pub const PEERS: &'static str = "peers";

/// The key of a peer's id.
pub const PEER_ID: &'static str = "peer id";

/// The key of a peer's IP address.
pub const IP: &'static str = "ip";

/// The key of a peer's port.
pub const PORT: &'static str = "port";

/// The length of a peer in the compact form: four bytes of IPv4 address and two of port.
pub const COMPACT_PEER_LENGTH: usize = 6;

/// The part of a tracker's answer where something went wrong.
#[derive(Debug, PartialEq, Eq, Clone, Copy, Structural)]
pub enum Section {
    Interval,
    Complete,
    Incomplete,
    Peers,
    PeerId,
    Ip,
    Port,
}

/// What can go wrong reading a tracker's answer.
#[derive(Debug, PartialEq, Eq, Clone, Copy, Structural)]
pub enum ResponseError {
    NotFound(Section),
    Format(Section),
    ConvertIp(Section),
}

/// The IP address of a peer: as the tracker wrote it, or the four bytes of an IPv4 address.
#[derive(Debug, PartialEq, Eq, Clone)]
pub enum PeerIp {
    Text(String),
    V4(u8, u8, u8, u8),
}

/// A peer in a tracker's answer.
#[derive(Debug, PartialEq, Eq, Clone)]
pub struct PeerDataFromTrackerResponse {
    pub peer_id: Option<Vec<u8>>,
    pub ip: PeerIp,
    pub port: u16,
}

/// A tracker's answer.
#[derive(Debug, PartialEq, Eq, Clone)]
pub struct TrackerResponseData {
    pub interval: u64,
    pub complete: u64,
    pub incomplete: u64,
    pub peers: Vec<PeerDataFromTrackerResponse>,
}

/// The value of a peer's IP address.
pub enum IpModel {
    Text(Seq<char>),
    V4(u8, u8, u8, u8),
}

/// The value of a peer: its id where the tracker gave one, its address and its port.
pub struct PeerModel {
    pub peer_id: Option<Seq<u8>>,
    pub ip: IpModel,
    pub port: int,
}

/// The value of a [`PeerDataFromTrackerResponse`].
pub open spec fn spec_peer_model(p: PeerDataFromTrackerResponse) -> PeerModel {
    PeerModel {
        peer_id: match p.peer_id {
            Some(id) => Some(id@),
            None => None,
        },
        ip: match p.ip {
            PeerIp::Text(t) => IpModel::Text(t@),
            PeerIp::V4(a, b, c, d) => IpModel::V4(a, b, c, d),
        },
        port: p.port as int,
    }
}

/// The values of peers.
pub open spec fn spec_peer_models(v: Seq<PeerDataFromTrackerResponse>) -> Seq<PeerModel> {
    Seq::new(v.len(), |i: int| spec_peer_model(v[i]))
}

/// A number stored under a key given as text, read as a `u64`.
pub open spec fn spec_dic_u64(d: Seq<(Seq<u8>, Bencode)>, key: &str, section: Section) -> Result<int, ResponseError> {
    match spec_lookup(d, key.spec_bytes()) {
        Some(Bencode::Int(n)) => Ok(n as u64 as int),
        Some(_) => Err(ResponseError::Format(section)),
        None => Err(ResponseError::NotFound(section)),
    }
}

/// A byte string stored under a key given as text.
pub open spec fn spec_dic_string(d: Seq<(Seq<u8>, Bencode)>, key: &str, section: Section) -> Result<Seq<u8>, ResponseError> {
    match spec_lookup(d, key.spec_bytes()) {
        Some(Bencode::Str(s)) => Ok(s),
        Some(_) => Err(ResponseError::Format(section)),
        None => Err(ResponseError::NotFound(section)),
    }
}

/// A count of peers: zero where the answer has none.
pub open spec fn spec_count(d: Seq<(Seq<u8>, Bencode)>, key: &str, section: Section) -> Result<int, ResponseError> {
    match spec_dic_u64(d, key, section) {
        Err(ResponseError::NotFound(_)) => Ok(0),
        r => r,
    }
}

/// A peer of the full form: its IP address, its port as a `u16`, and its id where it has
/// one.
pub open spec fn spec_full_peer(d: Seq<(Seq<u8>, Bencode)>) -> Result<PeerModel, ResponseError> {
    match spec_dic_string(d, IP, Section::Ip) {
        Err(e) => Err(e),
        Ok(ip) => match spec_dic_u64(d, PORT, Section::Port) {
            Err(e) => Err(e),
            Ok(port) => match spec_dic_string(d, PEER_ID, Section::PeerId) {
                Err(ResponseError::NotFound(_)) => Ok(
                    PeerModel { peer_id: None, ip: IpModel::Text(spec_utf8_text(ip)), port: port as u16 as int },
                ),
                Err(e) => Err(e),
                Ok(id) => Ok(PeerModel { peer_id: Some(id), ip: IpModel::Text(spec_utf8_text(ip)), port: port as u16 as int }),
            },
        },
    }
}

/// The peers of the full form: a list of dictionaries.
pub open spec fn spec_full_peers(l: Seq<Bencode>) -> Result<Seq<PeerModel>, ResponseError>
    decreases l.len(),
{
    if l.len() == 0 {
        Ok(Seq::empty())
    } else {
        match spec_full_peers(l.drop_last()) {
            Err(e) => Err(e),
            Ok(prefix) => match l.last() {
                Bencode::Dict(d) => match spec_full_peer(d) {
                    Ok(p) => Ok(prefix.push(p)),
                    Err(e) => Err(e),
                },
                _ => Err(ResponseError::Format(Section::Peers)),
            },
        }
    }
}

/// The peers of the compact form: each whole group of six bytes is a peer; bytes left over
/// at the end are no peer.
pub open spec fn spec_compact_peers(s: Seq<u8>) -> Seq<PeerModel> {
    Seq::new(
        s.len() / 6,
        |i: int|
            PeerModel {
                peer_id: None,
                ip: IpModel::V4(s[6 * i], s[6 * i + 1], s[6 * i + 2], s[6 * i + 3]),
                port: s[6 * i + 4] * 256 + s[6 * i + 5],
            },
    )
}

/// The peers of an answer, in full or compact form.
pub open spec fn spec_peers(d: Seq<(Seq<u8>, Bencode)>) -> Result<Seq<PeerModel>, ResponseError> {
    match spec_lookup(d, PEERS.spec_bytes()) {
        Some(Bencode::List(l)) => spec_full_peers(l),
        Some(Bencode::Str(s)) => Ok(spec_compact_peers(s)),
        Some(_) => Err(ResponseError::Format(Section::Peers)),
        None => Err(ResponseError::NotFound(Section::Peers)),
    }
}

/// A tracker's answer: the interval, which must be there, the numbers of seeders and
/// leechers, zero where missing, and the peers, in that order of checking.
pub open spec fn spec_response(d: Seq<(Seq<u8>, Bencode)>) -> Result<(int, int, int, Seq<PeerModel>), ResponseError> {
    match spec_dic_u64(d, INTERVAL, Section::Interval) {
        Err(e) => Err(e),
        Ok(interval) => match spec_count(d, COMPLETE, Section::Complete) {
            Err(e) => Err(e),
            Ok(complete) => match spec_count(d, INCOMPLETE, Section::Incomplete) {
                Err(e) => Err(e),
                Ok(incomplete) => match spec_peers(d) {
                    Err(e) => Err(e),
                    Ok(peers) => Ok((interval, complete, incomplete, peers)),
                },
            },
        },
    }
}

/// A number stored under `value`, read as a `u64`; the error of `section` where it is missing
/// or not a number.
pub fn get_dic_u64(dic_res: &DicValues, value: &str, section: Section) -> (res: Result<u64, ResponseError>)
    ensures
        match spec_dic_u64(dic_res@, value, section) {
            Ok(n) => res matches Ok(r) && r == n,
            Err(e) => res == Err::<u64, ResponseError>(e),
        },
{
    match dic_res.get(value.as_bytes()) {
        Some(ValuesBencoding::Integer(num_value)) => Ok(*num_value as u64),
        Some(_) => Err(ResponseError::Format(section)),
        None => Err(ResponseError::NotFound(section)),
    }
}

/// A byte string stored under `value`; the error of `section` where it is missing or not a
/// byte string.
pub fn get_dic_string(dic_res: &DicValues, value: &str, section: Section) -> (res: Result<Vec<u8>, ResponseError>)
    ensures
        match spec_dic_string(dic_res@, value, section) {
            Ok(s) => res matches Ok(r) && r@ == s,
            Err(e) => res == Err::<Vec<u8>, ResponseError>(e),
        },
{
    match dic_res.get(value.as_bytes()) {
        Some(ValuesBencoding::String(str_value)) => Ok(str_value.clone()),
        Some(_) => Err(ResponseError::Format(section)),
        None => Err(ResponseError::NotFound(section)),
    }
}

/// A count of peers: zero where the answer has none.
fn get_count(dic_res: &DicValues, value: &str, section: Section) -> (res: Result<u64, ResponseError>)
    ensures
        match spec_count(dic_res@, value, section) {
            Ok(n) => res matches Ok(r) && r == n,
            Err(e) => res == Err::<u64, ResponseError>(e),
        },
{
    match get_dic_u64(dic_res, value, section) {
        Ok(v) => Ok(v),
        Err(ResponseError::NotFound(_)) => Ok(0),
        Err(error) => Err(error),
    }
}

impl PeerDataFromTrackerResponse {
    /// A peer with the given id, IP address as text, and port.
    pub fn new(id: Option<Vec<u8>>, ip: String, port: u16) -> (res: Result<PeerDataFromTrackerResponse, ResponseError>)
        ensures
            res matches Ok(p) && p.peer_id == id && p.ip == PeerIp::Text(ip) && p.port == port,
    {
        Ok(PeerDataFromTrackerResponse { peer_id: id, ip: PeerIp::Text(ip), port })
    }

    /// A peer of the compact form: four bytes of IPv4 address and two of port, big endian; an
    /// error for any other length.
    pub fn new_from_compact(compact_peer: Vec<u8>) -> (res: Result<PeerDataFromTrackerResponse, ResponseError>)
        ensures
            compact_peer@.len() == 6 ==> (res matches Ok(p) && spec_peer_model(p) == spec_compact_peers(compact_peer@)[0]),
            compact_peer@.len() != 6 ==> res == Err::<PeerDataFromTrackerResponse, ResponseError>(ResponseError::ConvertIp(Section::Ip)),
    {
        if compact_peer.len() != COMPACT_PEER_LENGTH {
            return Err(ResponseError::ConvertIp(Section::Ip));
        }
        let port = (compact_peer[4] as u16) * 256 + compact_peer[5] as u16;
        Ok(
            PeerDataFromTrackerResponse {
                peer_id: None,
                ip: PeerIp::V4(compact_peer[0], compact_peer[1], compact_peer[2], compact_peer[3]),
                port,
            },
        )
    }
}

/// A peer of the full form.
fn full_peer(dic_peer: &DicValues) -> (res: Result<PeerDataFromTrackerResponse, ResponseError>)
    ensures
        match spec_full_peer(dic_peer@) {
            Ok(p) => res matches Ok(r) && spec_peer_model(r) == p,
            Err(e) => res == Err::<PeerDataFromTrackerResponse, ResponseError>(e),
        },
{
    let ip = get_dic_string(dic_peer, IP, Section::Ip)?;
    let ip = vec_u8_to_string(ip.as_slice());
    let port = get_dic_u64(dic_peer, PORT, Section::Port)?;
    let peer_id = match get_dic_string(dic_peer, PEER_ID, Section::PeerId) {
        Ok(id) => Some(id),
        Err(ResponseError::NotFound(_)) => None,
        Err(error) => return Err(error),
    };
    PeerDataFromTrackerResponse::new(peer_id, ip, port as u16)
}

/// Once a prefix of the list fails, the whole list fails with the same error.
pub proof fn lemma_full_peers_err_stays(l: Seq<Bencode>, k: int)
    requires
        0 <= k <= l.len(),
        spec_full_peers(l.take(k)) is Err,
    ensures
        spec_full_peers(l) == spec_full_peers(l.take(k)),
    decreases l.len() - k,
{
    if k == l.len() {
        assert(l.take(k) =~= l);
    } else {
        assert(l.take(k + 1).drop_last() =~= l.take(k));
        lemma_full_peers_err_stays(l, k + 1);
    }
}

/// The peers of an answer, in full or compact form; see [`spec_peers`].
pub fn init_peers(dic_response: &DicValues) -> (res: Result<Vec<PeerDataFromTrackerResponse>, ResponseError>)
    ensures
        match spec_peers(dic_response@) {
            Ok(p) => res matches Ok(r) && spec_peer_models(r@) == p,
            Err(e) => res == Err::<Vec<PeerDataFromTrackerResponse>, ResponseError>(e),
        },
{
    let mut vector_peers: Vec<PeerDataFromTrackerResponse> = Vec::new();
    let found = dic_response.get(PEERS.as_bytes());
    match found {
        Some(ValuesBencoding::List(list_peers)) => {
            let ghost l = spec_list_values(list_peers@);
            assert(l =~= found->0@->List_0);
            let mut i: usize = 0;
            assert(l.take(0) =~= Seq::<Bencode>::empty());
            assert(spec_peer_models(vector_peers@) =~= Seq::<PeerModel>::empty());
            while i < list_peers.len()
                invariant
                    l == spec_list_values(list_peers@),
                    spec_lookup(dic_response@, PEERS.spec_bytes()) == Some(Bencode::List(l)),
                    0 <= i <= list_peers@.len(),
                    spec_full_peers(l.take(i as int)) == Ok::<Seq<PeerModel>, ResponseError>(spec_peer_models(vector_peers@)),
                decreases list_peers@.len() - i,
            {
                assert(l.take(i + 1).drop_last() =~= l.take(i as int));
                assert(l.take(i + 1).last() == list_peers@[i as int]@);
                match &list_peers[i] {
                    ValuesBencoding::Dic(dic_peer) => {
                        match full_peer(dic_peer) {
                            Ok(peer_struct) => {
                                let ghost before = spec_peer_models(vector_peers@);
                                vector_peers.push(peer_struct);
                                assert(spec_peer_models(vector_peers@) =~= before.push(spec_peer_model(peer_struct)));
                            },
                            Err(e) => {
                                proof {
                                    lemma_full_peers_err_stays(l, i + 1);
                                }
                                return Err(e);
                            },
                        }
                    },
                    _ => {
                        proof {
                            lemma_full_peers_err_stays(l, i + 1);
                        }
                        return Err(ResponseError::Format(Section::Peers));
                    },
                }
                i = i + 1;
            }
            assert(l.take(i as int) =~= l);
            Ok(vector_peers)
        },
        Some(ValuesBencoding::String(peers_compact)) => {
            let n = peers_compact.len() / COMPACT_PEER_LENGTH;
            let mut k: usize = 0;
            while k < n
                invariant
                    n == peers_compact@.len() / 6,
                    peers_compact@.len() <= usize::MAX,
                    0 <= k <= n,
                    spec_peer_models(vector_peers@) == spec_compact_peers(peers_compact@).take(k as int),
                decreases n - k,
            {
                assert(k * 6 + 6 <= peers_compact@.len()) by (nonlinear_arith)
                    requires k < n, n == peers_compact@.len() / 6;
                let base = k * COMPACT_PEER_LENGTH;
                let chunk = vstd::slice::slice_to_vec(vstd::slice::slice_subrange(peers_compact.as_slice(), base, base + 6));
                let ghost before = spec_peer_models(vector_peers@);
                match PeerDataFromTrackerResponse::new_from_compact(chunk) {
                    Ok(peer_struct) => {
                        let ghost ps = peer_struct;
                        vector_peers.push(peer_struct);
                        assert(spec_peer_models(vector_peers@) =~= before.push(spec_peer_model(ps)));
                        let ghost all = spec_compact_peers(peers_compact@);
                        assert(chunk@ == peers_compact@.subrange(base as int, base + 6));
                        assert(spec_compact_peers(chunk@)[0] == all[k as int]) by {
                            assert(chunk@[0] == peers_compact@[6 * k]);
                            assert(chunk@[1] == peers_compact@[6 * k + 1]);
                            assert(chunk@[2] == peers_compact@[6 * k + 2]);
                            assert(chunk@[3] == peers_compact@[6 * k + 3]);
                            assert(chunk@[4] == peers_compact@[6 * k + 4]);
                            assert(chunk@[5] == peers_compact@[6 * k + 5]);
                        }
                        assert(spec_peer_models(vector_peers@) =~= all.take(k + 1));
                    },
                    Err(_) => {},
                }
                k = k + 1;
            }
            Ok(vector_peers)
        },
        Some(_) => Err(ResponseError::Format(Section::Peers)),
        None => Err(ResponseError::NotFound(Section::Peers)),
    }
}

impl TrackerResponseData {
    /// A tracker's answer from its bencoded dictionary; see [`spec_response`].
    pub fn new(dic_response: DicValues) -> (res: Result<TrackerResponseData, ResponseError>)
        ensures
            match spec_response(dic_response@) {
                Ok((interval, complete, incomplete, peers)) => res matches Ok(r) && r.interval == interval && r.complete
                    == complete && r.incomplete == incomplete && spec_peer_models(r.peers@) == peers,
                Err(e) => res == Err::<TrackerResponseData, ResponseError>(e),
            },
    {
        let interval = get_dic_u64(&dic_response, INTERVAL, Section::Interval)?;
        let complete = get_count(&dic_response, COMPLETE, Section::Complete)?;
        let incomplete = get_count(&dic_response, INCOMPLETE, Section::Incomplete)?;
        let peers = init_peers(&dic_response)?;
        Ok(TrackerResponseData { interval, complete, incomplete, peers })
    }

    /// The address of the peer at `peer_index`: its IP address and port.
    pub fn get_peer_address(&self, peer_index: usize) -> (res: Option<(PeerIp, u16)>)
        ensures
            peer_index < self.peers@.len() ==> res == Some((self.peers@[peer_index as int].ip, self.peers@[peer_index as int].port)),
            peer_index >= self.peers@.len() ==> res is None,
    {
        if peer_index < self.peers.len() {
            let ip = match &self.peers[peer_index].ip {
                PeerIp::Text(t) => PeerIp::Text(t.clone()),
                PeerIp::V4(a, b, c, d) => PeerIp::V4(*a, *b, *c, *d),
            };
            Some((ip, self.peers[peer_index].port))
        } else {
            None
        }
    }

    /// Whether the peer at `peer_index` may have the given id: its id is that one, or the
    /// tracker gave none.
    pub fn has_expected_peer_id(&self, peer_index: usize, peer_id: &[u8]) -> (res: bool)
        ensures
            res == (peer_index < self.peers@.len() && match self.peers@[peer_index as int].peer_id {
                Some(id) => id@ == peer_id@,
                None => true,
            }),
    {
        if peer_index < self.peers.len() {
            match &self.peers[peer_index].peer_id {
                Some(expected_peer_id) => bytes_equal(expected_peer_id.as_slice(), peer_id),
                None => true,
            }
        } else {
            false
        }
    }

    /// The number of peers.
    pub fn get_total_amount_peers(&self) -> (res: usize)
        ensures
            res == self.peers@.len(),
    {
        self.peers.len()
    }

    /// The number of leechers.
    pub fn get_total_amount_leechers(&self) -> (res: u64)
        ensures
            res == self.incomplete,
    {
        self.incomplete
    }

    /// The number of seeders.
    pub fn get_total_amount_seeders(&self) -> (res: u64)
        ensures
            res == self.complete,
    {
        self.complete
    }
}

} // verus!
