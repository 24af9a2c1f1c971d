//! What a peer tells the tracker in an announce: the query string of its request, read into
//! the peer's data.

use vstd::prelude::*;
use vstd::string::*;
use crate::numbers::{parse_unsigned, spec_parse_unsigned};
use crate::urlencoding::{from_url, spec_url_decode};

verus! {

/// The query key of the info hash.
pub const INFO_HASH: &'static str = "info_hash=";

/// The query key of the peer id.
pub const PEER_ID: &'static str = "peer_id=";

/// The query key of the port.
pub const PORT: &'static str = "port=";

/// The query key of the bytes uploaded.
pub const UPLOADED: &'static str = "uploaded=";

/// The query key of the bytes downloaded.
pub const DOWNLOADED: &'static str = "downloaded=";

/// The query key of the bytes left.
pub const LEFT: &'static str = "left=";

/// The query key of the event.
pub const EVENT: &'static str = "event=";

/// The query key of the compact flag.
pub const COMPACT: &'static str = "compact=";

/// The event of a peer that starts.
pub const STARTED: &'static str = "started";

/// The event of a peer that completed its download.
pub const COMPLETED: &'static str = "completed";

/// The event of a peer that stops.
pub const STOPPED: &'static str = "stopped";

/// The lowest port a peer may announce.
pub const MIN_PORT: u64 = 1;

/// The highest port a peer may announce.
pub const MAX_PORT: u64 = 65535;

/// The length of an info hash and of a peer id.
pub const ID_LENGTH: usize = 20;

/// The event that a peer announces.
#[derive(PartialEq, Eq, Debug, Clone, Copy, Structural)]
pub enum Event {
    Started,
    Completed,
    Stopped,
}

/// Why an announce was refused.
#[derive(PartialEq, Eq, Debug, Clone, Copy, Structural)]
pub enum PeerInfoError {
    InfoHashNotFound,
    InfoHashInvalid,
    PeerIdNotFoundOrInvalid,
    PortNotFound,
    PortInvalid,
    StatNotFound,
    StatInvalid,
    PoissonedLock,
}

/// The address of a peer: its IP address as text, and its port.
#[derive(PartialEq, Eq, Debug)]
pub struct PeerAddress {
    pub ip: Vec<u8>,
    pub port: u16,
}

impl PeerAddress {
    /// A copy of this address.
    pub fn copy(&self) -> (res: PeerAddress)
        ensures
            res.ip@ == self.ip@,
            res.port == self.port,
    {
        PeerAddress { ip: self.ip.clone(), port: self.port }
    }
}

/// A peer as the tracker knows it from its last announce.
#[derive(PartialEq, Eq, Debug)]
pub struct PeerInfo {
    sock_addr: PeerAddress,
    info_hash: Vec<u8>,
    peer_id: Vec<u8>,
    port: u64,
    downloaded: u64,
    uploaded: u64,
    left: u64,
    compact: Option<Vec<u8>>,
    event: Option<Event>,
}

/// The value of a [`PeerInfo`].
pub struct PeerModel {
    pub ip: Seq<u8>,
    pub addr_port: u16,
    pub info_hash: Seq<u8>,
    pub peer_id: Seq<u8>,
    pub port: int,
    pub downloaded: int,
    pub uploaded: int,
    pub left: int,
    pub compact: Option<Seq<u8>>,
    pub event: Option<Event>,
}

impl View for PeerInfo {
    type V = PeerModel;

    closed spec fn view(&self) -> PeerModel {
        PeerModel {
            ip: self.sock_addr.ip@,
            addr_port: self.sock_addr.port,
            info_hash: self.info_hash@,
            peer_id: self.peer_id@,
            port: self.port as int,
            downloaded: self.downloaded as int,
            uploaded: self.uploaded as int,
            left: self.left as int,
            compact: match self.compact {
                Some(c) => Some(c@),
                None => None,
            },
            event: self.event,
        }
    }
}

/// Whether `pat` stands in `s` at position `p`.
pub open spec fn spec_match_at(s: Seq<u8>, pat: Seq<u8>, p: int) -> bool {
    0 <= p && p + pat.len() <= s.len() && s.subrange(p, p + pat.len()) == pat
}

/// The first position at or after `p` where `pat` stands in `s`.
pub open spec fn spec_find_from(s: Seq<u8>, pat: Seq<u8>, p: int) -> Option<int>
    decreases s.len() + 1 - p,
{
    if p < 0 || p + pat.len() > s.len() {
        None
    } else if spec_match_at(s, pat, p) {
        Some(p)
    } else {
        spec_find_from(s, pat, p + 1)
    }
}

/// Whether a byte ends a value of a query string: `&` or a space.
pub open spec fn spec_is_value_end(c: u8) -> bool {
    c == 38 || c == 32
}

/// What comes before the first `&` or space.
pub open spec fn spec_take_value(s: Seq<u8>) -> Seq<u8>
    decreases s.len(),
{
    if s.len() == 0 || spec_is_value_end(s[0]) {
        Seq::empty()
    } else {
        seq![s[0]] + spec_take_value(s.drop_first())
    }
}

/// The value that follows the first occurrence of `key` in an announce.
pub open spec fn spec_query_value(announce: Seq<u8>, key: Seq<u8>) -> Option<Seq<u8>> {
    match spec_find_from(announce, key, 0) {
        Some(p) => Some(spec_take_value(announce.skip(p + key.len()))),
        None => None,
    }
}

/// The info hash, or the peer id, of an announce: the value of `key`, percent decoded,
/// which must be 20 bytes long.
pub open spec fn spec_id(announce: Seq<u8>, key: Seq<u8>) -> Option<Option<Seq<u8>>> {
    match spec_query_value(announce, key) {
        None => None,
        Some(v) => if spec_url_decode(v).len() == 20 {
            Some(Some(spec_url_decode(v)))
        } else {
            Some(None)
        },
    }
}

/// The port of an announce.
pub open spec fn spec_port(announce: Seq<u8>) -> Result<int, PeerInfoError> {
    match spec_query_value(announce, PORT.spec_bytes()) {
        None => Err(PeerInfoError::PortNotFound),
        Some(v) => match spec_parse_unsigned(v, u64::MAX as int) {
            Some(p) => if MIN_PORT <= p <= MAX_PORT {
                Ok(p)
            } else {
                Err(PeerInfoError::PortInvalid)
            },
            None => Err(PeerInfoError::PortInvalid),
        },
    }
}

/// One of the byte counts of an announce.
pub open spec fn spec_stat(announce: Seq<u8>, key: Seq<u8>) -> Result<int, PeerInfoError> {
    match spec_query_value(announce, key) {
        None => Err(PeerInfoError::StatNotFound),
        Some(v) => match spec_parse_unsigned(v, u64::MAX as int) {
            Some(n) => Ok(n),
            None => Err(PeerInfoError::StatInvalid),
        },
    }
}

/// The event of an announce, where it names one.
pub open spec fn spec_event(announce: Seq<u8>) -> Option<Event> {
    match spec_query_value(announce, EVENT.spec_bytes()) {
        Some(v) => if v == STARTED.spec_bytes() {
            Some(Event::Started)
        } else if v == COMPLETED.spec_bytes() {
            Some(Event::Completed)
        } else if v == STOPPED.spec_bytes() {
            Some(Event::Stopped)
        } else {
            None
        },
        None => None,
    }
}

/// The peer that an announce describes, coming from an address with the given IP address:
/// the info hash, peer id, port and the three byte counts must all be there, in that order of
/// checking; the compact flag and the event may be missing.
#[verifier::opaque]
pub open spec fn spec_peer_info(announce: Seq<u8>, ip: Seq<u8>) -> Result<PeerModel, PeerInfoError> {
    match spec_id(announce, INFO_HASH.spec_bytes()) {
        None => Err(PeerInfoError::InfoHashNotFound),
        Some(None) => Err(PeerInfoError::InfoHashInvalid),
        Some(Some(info_hash)) => match spec_id(announce, PEER_ID.spec_bytes()) {
            None => Err(PeerInfoError::PeerIdNotFoundOrInvalid),
            Some(None) => Err(PeerInfoError::PeerIdNotFoundOrInvalid),
            Some(Some(peer_id)) => match spec_port(announce) {
                Err(e) => Err(e),
                Ok(port) => match spec_stat(announce, DOWNLOADED.spec_bytes()) {
                    Err(e) => Err(e),
                    Ok(downloaded) => match spec_stat(announce, UPLOADED.spec_bytes()) {
                        Err(e) => Err(e),
                        Ok(uploaded) => match spec_stat(announce, LEFT.spec_bytes()) {
                            Err(e) => Err(e),
                            Ok(left) => Ok(
                                PeerModel {
                                    ip,
                                    addr_port: port as u16,
                                    info_hash,
                                    peer_id,
                                    port,
                                    downloaded,
                                    uploaded,
                                    left,
                                    compact: spec_query_value(announce, COMPACT.spec_bytes()),
                                    event: spec_event(announce),
                                },
                            ),
                        },
                    },
                },
            },
        },
    }
}

/// The query keys are ASCII text of at least one byte.
pub proof fn lemma_query_keys_not_empty()
    ensures
        0 < INFO_HASH.spec_bytes().len() < 16,
        0 < PEER_ID.spec_bytes().len() < 16,
        0 < PORT.spec_bytes().len() < 16,
        0 < UPLOADED.spec_bytes().len() < 16,
        0 < DOWNLOADED.spec_bytes().len() < 16,
        0 < LEFT.spec_bytes().len() < 16,
        0 < EVENT.spec_bytes().len() < 16,
        0 < COMPACT.spec_bytes().len() < 16,
{
    broadcast use is_ascii_spec_bytes;

    reveal_strlit("info_hash=");
    reveal_strlit("peer_id=");
    reveal_strlit("port=");
    reveal_strlit("uploaded=");
    reveal_strlit("downloaded=");
    reveal_strlit("left=");
    reveal_strlit("event=");
    reveal_strlit("compact=");
    assert(is_ascii(INFO_HASH));
    assert(is_ascii(PEER_ID));
    assert(is_ascii(PORT));
    assert(is_ascii(UPLOADED));
    assert(is_ascii(DOWNLOADED));
    assert(is_ascii(LEFT));
    assert(is_ascii(EVENT));
    assert(is_ascii(COMPACT));
}

/// A position found by [`spec_find_from`] is one where the pattern stands.
pub proof fn lemma_find_from_matches(s: Seq<u8>, pat: Seq<u8>, p: int)
    ensures
        spec_find_from(s, pat, p) matches Some(q) ==> spec_match_at(s, pat, q),
    decreases s.len() + 1 - p,
{
    if !(p < 0 || p + pat.len() > s.len()) && !spec_match_at(s, pat, p) {
        lemma_find_from_matches(s, pat, p + 1);
    }
}

/// Whether `end_line` stands in `response` at position `p`.
fn matches_at(response: &[u8], end_line: &[u8], p: usize) -> (res: bool)
    requires
        p + end_line@.len() <= response@.len(),
    ensures
        res == spec_match_at(response@, end_line@, p as int),
{
    let n = response.len();
    let mut j: usize = 0;
    while j < end_line.len()
        invariant
            n == response@.len(),
            p + end_line@.len() <= response@.len(),
            0 <= j <= end_line@.len(),
            forall|k: int| 0 <= k < j ==> response@[p + k] == end_line@[k],
        decreases end_line@.len() - j,
    {
        assert(p + j < response@.len());
        if response[p + j] != end_line[j] {
            assert(response@.subrange(p as int, p + end_line@.len())[j as int] != end_line@[j as int]);
            return false;
        }
        j = j + 1;
    }
    assert(response@.subrange(p as int, p + end_line@.len()) =~= end_line@);
    true
}

/// The position just after the first occurrence of `end_line`, which is `size` bytes long,
/// in `response`.
pub fn find_index_msg(response: &[u8], size: usize, end_line: &[u8]) -> (res: Option<usize>)
    requires
        size == end_line@.len(),
        size > 0,
    ensures
        match spec_find_from(response@, end_line@, 0) {
            Some(p) => res == Some((p + size) as usize),
            None => res is None,
        },
{
    if size > response.len() {
        return None;
    }
    let mut p: usize = 0;
    let last = response.len() - size;
    while p <= last
        invariant
            size == end_line@.len(),
            size <= response@.len(),
            last == response@.len() - size,
            response@.len() <= usize::MAX,
            size > 0,
            0 <= p <= last + 1,
            spec_find_from(response@, end_line@, 0) == spec_find_from(response@, end_line@, p as int),
        decreases response@.len() - p,
    {
        if matches_at(response, end_line, p) {
            return Some(p + size);
        }
        p = p + 1;
    }
    None
}

/// The bytes before the first `&` or space.
pub fn take_result(announce: &[u8]) -> (res: Vec<u8>)
    ensures
        res@ == spec_take_value(announce@),
{
    let mut result: Vec<u8> = Vec::new();
    let mut i: usize = 0;
    assert(announce@.skip(0) =~= announce@);
    assert(result@ + spec_take_value(announce@) =~= spec_take_value(announce@));
    while i < announce.len()
        invariant
            0 <= i <= announce@.len(),
            result@ + spec_take_value(announce@.skip(i as int)) == spec_take_value(announce@),
        decreases announce@.len() - i,
    {
        let c = announce[i];
        assert(announce@.skip(i as int)[0] == c);
        if c == 38u8 || c == 32u8 {
            assert(result@ + Seq::<u8>::empty() =~= result@);
            return result;
        }
        let ghost before = result@;
        assert(announce@.skip(i as int).drop_first() =~= announce@.skip(i + 1));
        result.push(c);
        assert(before + spec_take_value(announce@.skip(i as int)) =~= result@ + spec_take_value(
            announce@.skip(i + 1),
        ));
        i = i + 1;
    }
    assert(announce@.skip(i as int) =~= Seq::<u8>::empty());
    assert(result@ + Seq::<u8>::empty() =~= result@);
    result
}

/// The value that follows `command` in an announce.
pub fn obtain_value_from_querystring(announce: &[u8], size_command: usize, command: &str) -> (res: Option<Vec<u8>>)
    requires
        size_command == command.spec_bytes().len(),
        command.spec_bytes().len() > 0,
    ensures
        match spec_query_value(announce@, command.spec_bytes()) {
            Some(v) => res matches Some(r) && r@ == v,
            None => res is None,
        },
{
    let pattern = command.as_bytes();
    match find_index_msg(announce, size_command, pattern) {
        Some(pos) => {
            proof {
                lemma_find_from_matches(announce@, pattern@, 0);
            }
            let rest = vstd::slice::slice_subrange(announce, pos, announce.len());
            assert(rest@ =~= announce@.skip(pos as int));
            Some(take_result(rest))
        },
        None => None,
    }
}

/// Whether two byte strings are equal.
fn same_bytes(a: &[u8], b: &[u8]) -> (res: bool)
    ensures
        res == (a@ == b@),
{
    if a.len() != b.len() {
        return false;
    }
    let mut i: usize = 0;
    while i < a.len()
        invariant
            a@.len() == b@.len(),
            0 <= i <= a@.len(),
            forall|k: int| 0 <= k < i ==> a@[k] == b@[k],
        decreases a@.len() - i,
    {
        if a[i] != b[i] {
            return false;
        }
        i = i + 1;
    }
    assert(a@ =~= b@);
    true
}

/// The port of an announce, from the value given for it.
pub fn from_vec_to_port(result: Option<Vec<u8>>) -> (res: Result<u64, PeerInfoError>)
    ensures
        match result {
            None => res == Err::<u64, PeerInfoError>(PeerInfoError::PortNotFound),
            Some(v) => match spec_parse_unsigned(v@, u64::MAX as int) {
                Some(p) => if MIN_PORT <= p <= MAX_PORT {
                    res == Ok::<u64, PeerInfoError>(p as u64)
                } else {
                    res == Err::<u64, PeerInfoError>(PeerInfoError::PortInvalid)
                },
                None => res == Err::<u64, PeerInfoError>(PeerInfoError::PortInvalid),
            },
        },
{
    match result {
        Some(vec) => match parse_unsigned(vec.as_slice(), u64::MAX) {
            Some(port_num) => {
                if MIN_PORT <= port_num && port_num <= MAX_PORT {
                    Ok(port_num)
                } else {
                    Err(PeerInfoError::PortInvalid)
                }
            },
            None => Err(PeerInfoError::PortInvalid),
        },
        None => Err(PeerInfoError::PortNotFound),
    }
}

/// The event that a value names: `started`, `completed` or `stopped`.
pub fn get_event(name_event: &[u8]) -> (res: Option<Event>)
    ensures
        res == (if name_event@ == STARTED.spec_bytes() {
            Some(Event::Started)
        } else if name_event@ == COMPLETED.spec_bytes() {
            Some(Event::Completed)
        } else if name_event@ == STOPPED.spec_bytes() {
            Some(Event::Stopped)
        } else {
            None
        }),
{
    if same_bytes(name_event, STARTED.as_bytes()) {
        Some(Event::Started)
    } else if same_bytes(name_event, COMPLETED.as_bytes()) {
        Some(Event::Completed)
    } else if same_bytes(name_event, STOPPED.as_bytes()) {
        Some(Event::Stopped)
    } else {
        None
    }
}

/// The info hash of an announce, percent decoded.
pub fn obtain_info_hash_from_querystring(announce: &[u8]) -> (res: Result<Vec<u8>, PeerInfoError>)
    ensures
        match spec_id(announce@, INFO_HASH.spec_bytes()) {
            None => res == Err::<Vec<u8>, PeerInfoError>(PeerInfoError::InfoHashNotFound),
            Some(None) => res == Err::<Vec<u8>, PeerInfoError>(PeerInfoError::InfoHashInvalid),
            Some(Some(h)) => res matches Ok(r) && r@ == h,
        },
{
    match {
        proof {
            lemma_query_keys_not_empty();
        }
        obtain_value_from_querystring(announce, INFO_HASH.len(), INFO_HASH)
    } {
        Some(info_hash_url) => {
            let url_decoded = from_url(info_hash_url);
            if url_decoded.len() != ID_LENGTH {
                Err(PeerInfoError::InfoHashInvalid)
            } else {
                Ok(url_decoded)
            }
        },
        None => Err(PeerInfoError::InfoHashNotFound),
    }
}

/// The peer id of an announce, percent decoded.
pub fn obtain_peer_id_from_querystring(announce: &[u8]) -> (res: Result<Vec<u8>, PeerInfoError>)
    ensures
        match spec_id(announce@, PEER_ID.spec_bytes()) {
            None => res == Err::<Vec<u8>, PeerInfoError>(PeerInfoError::PeerIdNotFoundOrInvalid),
            Some(None) => res == Err::<Vec<u8>, PeerInfoError>(PeerInfoError::PeerIdNotFoundOrInvalid),
            Some(Some(h)) => res matches Ok(r) && r@ == h,
        },
{
    match {
        proof {
            lemma_query_keys_not_empty();
        }
        obtain_value_from_querystring(announce, PEER_ID.len(), PEER_ID)
    } {
        Some(peer_id_url) => {
            let url_decoded = from_url(peer_id_url);
            if url_decoded.len() != ID_LENGTH {
                Err(PeerInfoError::PeerIdNotFoundOrInvalid)
            } else {
                Ok(url_decoded)
            }
        },
        None => Err(PeerInfoError::PeerIdNotFoundOrInvalid),
    }
}

/// The port of an announce.
pub fn obtain_port_from_querystring(announce: &[u8]) -> (res: Result<u64, PeerInfoError>)
    ensures
        match spec_port(announce@) {
            Ok(p) => res matches Ok(r) && r == p,
            Err(e) => res == Err::<u64, PeerInfoError>(e),
        },
{
    let port = {
        proof {
            lemma_query_keys_not_empty();
        }
        obtain_value_from_querystring(announce, PORT.len(), PORT)
    };
    from_vec_to_port(port)
}

/// One of the byte counts of an announce, under the key `stat_type`.
pub fn obtain_stat_from_querystring(announce: &[u8], stat_type: &str) -> (res: Result<u64, PeerInfoError>)
    requires
        0 < stat_type.spec_bytes().len() <= usize::MAX,
    ensures
        match spec_stat(announce@, stat_type.spec_bytes()) {
            Ok(n) => res matches Ok(r) && r == n,
            Err(e) => res == Err::<u64, PeerInfoError>(e),
        },
{
    let stat = obtain_value_from_querystring(announce, stat_type.len(), stat_type);
    match stat {
        Some(vec) => match parse_unsigned(vec.as_slice(), u64::MAX) {
            Some(number_res) => Ok(number_res),
            None => Err(PeerInfoError::StatInvalid),
        },
        None => Err(PeerInfoError::StatNotFound),
    }
}

/// The event of an announce.
pub fn obtain_event_from_querystring(announce: &[u8]) -> (res: Option<Event>)
    ensures
        res == spec_event(announce@),
{
    match {
        proof {
            lemma_query_keys_not_empty();
        }
        obtain_value_from_querystring(announce, EVENT.len(), EVENT)
    } {
        Some(vector_event) => get_event(vector_event.as_slice()),
        None => None,
    }
}

/// The compact flag of an announce.
pub fn obtain_compact_from_querystring(announce: &[u8]) -> (res: Option<Vec<u8>>)
    ensures
        match spec_query_value(announce@, COMPACT.spec_bytes()) {
            Some(v) => res matches Some(r) && r@ == v,
            None => res is None,
        },
{
    {
        proof {
            lemma_query_keys_not_empty();
        }
        obtain_value_from_querystring(announce, COMPACT.len(), COMPACT)
    }
}

impl PeerInfo {
    /// The peer's data from its announce, sent from `sock_addr`: the address keeps its IP
    /// address and takes the announced port.
    pub fn new(announce: Vec<u8>, sock_addr: PeerAddress) -> (res: Result<PeerInfo, PeerInfoError>)
        ensures
            match spec_peer_info(announce@, sock_addr.ip@) {
                Ok(m) => res matches Ok(p) && p@ == m,
                Err(e) => res matches Err(r) && r == e,
            },
    {
        reveal(spec_peer_info);
        let info_hash = match obtain_info_hash_from_querystring(announce.as_slice()) {
            Ok(result) => result,
            Err(error) => return Err(error),
        };
        let peer_id = match obtain_peer_id_from_querystring(announce.as_slice()) {
            Ok(result) => result,
            Err(error) => return Err(error),
        };
        let port = match obtain_port_from_querystring(announce.as_slice()) {
            Ok(result) => result,
            Err(error) => return Err(error),
        };
        proof {
            lemma_query_keys_not_empty();
        }
        let downloaded = match obtain_stat_from_querystring(announce.as_slice(), DOWNLOADED) {
            Ok(result) => result,
            Err(error) => return Err(error),
        };
        let uploaded = match obtain_stat_from_querystring(announce.as_slice(), UPLOADED) {
            Ok(result) => result,
            Err(error) => return Err(error),
        };
        let left = match obtain_stat_from_querystring(announce.as_slice(), LEFT) {
            Ok(result) => result,
            Err(error) => return Err(error),
        };
        let compact = obtain_compact_from_querystring(announce.as_slice());
        let event = obtain_event_from_querystring(announce.as_slice());
        let sock_addr = PeerAddress { ip: sock_addr.ip, port: port as u16 };
        let res = PeerInfo {
            sock_addr,
            info_hash,
            peer_id,
            port,
            downloaded,
            uploaded,
            left,
            compact,
            event,
        };
        Ok(res)
    }

    /// The info hash of the torrent the peer announced.
    pub fn get_info_hash(&self) -> (res: Vec<u8>)
        ensures
            res@ == self@.info_hash,
    {
        self.info_hash.clone()
    }

    /// The peer's id.
    pub fn get_peer_id(&self) -> (res: Vec<u8>)
        ensures
            res@ == self@.peer_id,
    {
        self.peer_id.clone()
    }

    /// The port the peer announced.
    pub fn get_port(&self) -> (res: u64)
        ensures
            res == self@.port,
    {
        self.port
    }

    /// The peer's address.
    pub fn get_sock_addr(&self) -> (res: PeerAddress)
        ensures
            res.ip@ == self@.ip,
            res.port == self@.addr_port,
    {
        self.sock_addr.copy()
    }

    /// The bytes the peer downloaded and uploaded.
    pub fn get_downloaded_uploaded(&self) -> (res: (u64, u64))
        ensures
            res.0 == self@.downloaded,
            res.1 == self@.uploaded,
    {
        (self.downloaded, self.uploaded)
    }

    /// Whether the peer has the whole torrent: it announced `completed`, or nothing is left.
    pub fn is_complete(&self) -> (res: bool)
        ensures
            res == spec_is_complete(self@),
    {
        if let Some(Event::Completed) = self.event {
            return true;
        }
        self.left == 0
    }

    /// Whether the peer announced that it stops.
    pub fn is_stopped(&self) -> (res: bool)
        ensures
            res == spec_is_stopped(self@),
    {
        matches!(self.event, Some(Event::Stopped))
    }

    /// Whether the peer asked for the compact list of peers: its compact flag ends in `1`.
    pub fn is_compact(&self) -> (res: bool)
        ensures
            res == spec_is_compact(self@),
    {
        match &self.compact {
            Some(value) => {
                if value.len() == 0 {
                    false
                } else {
                    value[value.len() - 1] == 49u8
                }
            },
            None => false,
        }
    }
}

/// Whether a peer has the whole torrent.
pub open spec fn spec_is_complete(p: PeerModel) -> bool {
    p.event == Some(Event::Completed) || p.left == 0
}

/// Whether a peer stopped.
pub open spec fn spec_is_stopped(p: PeerModel) -> bool {
    p.event == Some(Event::Stopped)
}

/// Whether a peer asked for the compact list of peers.
pub open spec fn spec_is_compact(p: PeerModel) -> bool {
    match p.compact {
        Some(c) => c.len() > 0 && c.last() == 49,
        None => false,
    }
}

/// The failure reason the tracker answers to a refused announce, bencoded.
pub open spec fn spec_error_response(error: PeerInfoError) -> Seq<char> {
    match error {
        PeerInfoError::InfoHashNotFound => ERROR_INFO_HASH_NOT_FOUND@,
        PeerInfoError::InfoHashInvalid => ERROR_INFO_HASH_INVALID@,
        PeerInfoError::PeerIdNotFoundOrInvalid => ERROR_PEER_ID_INVALID@,
        PeerInfoError::StatNotFound => ERROR_STAT_NOT_FOUND@,
        PeerInfoError::StatInvalid => ERROR_STAT_INVALID@,
        PeerInfoError::PortNotFound => ERROR_STAT_NOT_FOUND@,
        PeerInfoError::PortInvalid => ERROR_PORT_INVALID@,
        PeerInfoError::PoissonedLock => ERROR_500@,
    }
}

/// The answer to an announce without an info hash.
pub const ERROR_INFO_HASH_NOT_FOUND: &'static str = "d14:failure reason22:info_hash is not founde";

/// The answer to an announce whose info hash is not a torrent of this tracker, or not 20 bytes.
pub const ERROR_INFO_HASH_INVALID: &'static str = "d14:failure reason20:info_hash is invalide";

/// The answer to an announce without a valid peer id.
pub const ERROR_PEER_ID_INVALID: &'static str = "d14:failure reason18:peer_id is invalide";

/// The answer to an announce that misses its port or one of its byte counts.
pub const ERROR_STAT_NOT_FOUND: &'static str = "d14:failure reason25:a required key is missinge";

/// The answer to an announce with a byte count that is not a number.
pub const ERROR_STAT_INVALID: &'static str = "d14:failure reason23:a byte count is invalide";

/// The answer to an announce with a port that is not a number between 1 and 65535.
pub const ERROR_PORT_INVALID: &'static str = "d14:failure reason15:port is invalide";

/// The answer when the tracker's own state could not be used.
pub const ERROR_500: &'static str = "HTTP/1.1 500 Internal Server Error";

/// The bencoded failure reason the tracker answers to a refused announce.
pub fn get_error_response_for_announce(error: PeerInfoError) -> (res: String)
    ensures
        res@ == spec_error_response(error),
{
    let text = match error {
        PeerInfoError::InfoHashNotFound => ERROR_INFO_HASH_NOT_FOUND,
        PeerInfoError::InfoHashInvalid => ERROR_INFO_HASH_INVALID,
        PeerInfoError::PeerIdNotFoundOrInvalid => ERROR_PEER_ID_INVALID,
        PeerInfoError::StatNotFound => ERROR_STAT_NOT_FOUND,
        PeerInfoError::StatInvalid => ERROR_STAT_INVALID,
        PeerInfoError::PortNotFound => ERROR_STAT_NOT_FOUND,
        PeerInfoError::PortInvalid => ERROR_PORT_INVALID,
        PeerInfoError::PoissonedLock => ERROR_500,
    };
    String::from_str(text)
}

} // verus!
