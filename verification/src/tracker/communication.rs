//! What the tracker answers to a request: the resource a request asks for, the answer to an
//! announce, and the HTTP response around an answer.

use std::sync::Arc;
use vstd::prelude::*;
use vstd::string::*;
use crate::bencoding::encoder::{push_bytes, push_decimal, spec_digits, spec_encode_value};
use crate::bencoding::values::bytes_equal;
use super::json::{spec_can_count, spec_next_completed, spec_next_connections, Json};
use super::peer_info::{
    get_error_response_for_announce, spec_error_response, spec_is_compact, spec_is_complete,
    spec_peer_info, PeerAddress, PeerInfo, PeerInfoError,
};
use super::torrent_info::{spec_announce_response, TorrentInfo};

verus! {

/// What can go wrong while the tracker serves a connection.
#[derive(Debug, Eq, PartialEq)]
pub enum CommunicationError {
    PoolExecutionError(String),
    ShutdownSettingError(String),
    ReadingFilesToFillResponseContentError(String),
    WritingResponse(String),
    UnlockingMutexOfTorrents,
    ReadingPeerSocket(String),
}

/// The request line of the index page.
pub const GET_URL: &'static str = "GET / ";

/// The request line of the statistics page.
pub const STATS_URL: &'static str = "GET /stats ";

/// The request line of the style sheet.
pub const STYLE_URL: &'static str = "GET /style.css ";

/// The request line of the documentation page.
pub const DOCS_URL: &'static str = "GET /docs ";

/// The request line of the page's script.
pub const CODE_URL: &'static str = "GET /code.js ";

/// The request line of the statistics as JSON.
pub const JSON_URL: &'static str = "GET /stats.json ";

/// The start of the request line of an announce.
pub const ANNOUNCE_URL: &'static str = "GET /announce";

/// The status line of a response with content.
pub const OK_URL: &'static str = "HTTP/1.1 200 OK";

/// The status line of a response to an unknown request.
pub const ERR_URL: &'static str = "HTTP/1.1 404 NOT FOUND";

/// What a request asks the tracker for.
#[derive(PartialEq, Eq, Debug, Clone, Copy, Structural)]
pub enum Resource {
    Index,
    Stats,
    Style,
    Docs,
    Code,
    Json,
    Announce,
    NotFound,
}

/// The resource a request asks for: the first whose request line the request starts with, in
/// the order index, statistics, style, documentation, script, JSON statistics, announce.
pub open spec fn spec_route(buffer: Seq<u8>) -> Resource {
    if spec_starts_with(buffer, GET_URL.spec_bytes()) {
        Resource::Index
    } else if spec_starts_with(buffer, STATS_URL.spec_bytes()) {
        Resource::Stats
    } else if spec_starts_with(buffer, STYLE_URL.spec_bytes()) {
        Resource::Style
    } else if spec_starts_with(buffer, DOCS_URL.spec_bytes()) {
        Resource::Docs
    } else if spec_starts_with(buffer, CODE_URL.spec_bytes()) {
        Resource::Code
    } else if spec_starts_with(buffer, JSON_URL.spec_bytes()) {
        Resource::Json
    } else if spec_starts_with(buffer, ANNOUNCE_URL.spec_bytes()) {
        Resource::Announce
    } else {
        Resource::NotFound
    }
}

/// Whether `s` starts with `prefix`.
pub open spec fn spec_starts_with(s: Seq<u8>, prefix: Seq<u8>) -> bool {
    prefix.len() <= s.len() && s.take(prefix.len() as int) == prefix
}

/// Whether `s` starts with `prefix`.
pub fn starts_with(s: &[u8], prefix: &[u8]) -> (res: bool)
    ensures
        res == spec_starts_with(s@, prefix@),
{
    if prefix.len() > s.len() {
        return false;
    }
    let mut i: usize = 0;
    while i < prefix.len()
        invariant
            prefix@.len() <= s@.len(),
            0 <= i <= prefix@.len(),
            forall|k: int| 0 <= k < i ==> s@[k] == prefix@[k],
        decreases prefix@.len() - i,
    {
        if s[i] != prefix[i] {
            assert(s@.take(prefix@.len() as int)[i as int] != prefix@[i as int]);
            return false;
        }
        i = i + 1;
    }
    assert(s@.take(prefix@.len() as int) =~= prefix@);
    true
}

/// The resource a request asks for; see [`spec_route`].
pub fn route(buffer: &[u8]) -> (res: Resource)
    ensures
        res == spec_route(buffer@),
{
    if starts_with(buffer, GET_URL.as_bytes()) {
        Resource::Index
    } else if starts_with(buffer, STATS_URL.as_bytes()) {
        Resource::Stats
    } else if starts_with(buffer, STYLE_URL.as_bytes()) {
        Resource::Style
    } else if starts_with(buffer, DOCS_URL.as_bytes()) {
        Resource::Docs
    } else if starts_with(buffer, CODE_URL.as_bytes()) {
        Resource::Code
    } else if starts_with(buffer, JSON_URL.as_bytes()) {
        Resource::Json
    } else if starts_with(buffer, ANNOUNCE_URL.as_bytes()) {
        Resource::Announce
    } else {
        Resource::NotFound
    }
}

/// An HTTP response: the status line, the length of the content, an empty line and the
/// content.
pub open spec fn spec_http_response(status_line: Seq<u8>, contents: Seq<u8>) -> Seq<u8> {
    status_line + CONTENT_LENGTH.spec_bytes() + spec_digits(contents.len()) + seq![13u8, 10u8, 13u8, 10u8]
        + contents
}

/// What stands between the status line and the length of the content.
pub const CONTENT_LENGTH: &'static str = "\r\nContent-Length: ";

/// Frames content into an HTTP response under a status line.
pub fn frame_response(status_line: &str, contents: &[u8]) -> (res: Vec<u8>)
    requires
        contents@.len() <= u64::MAX,
    ensures
        res@ == spec_http_response(status_line.spec_bytes(), contents@),
{
    let mut response: Vec<u8> = Vec::new();
    push_bytes(&mut response, status_line.as_bytes());
    push_bytes(&mut response, CONTENT_LENGTH.as_bytes());
    push_decimal(&mut response, contents.len() as u64);
    response.push(13u8);
    response.push(10u8);
    response.push(13u8);
    response.push(10u8);
    push_bytes(&mut response, contents);
    assert(response@ =~= spec_http_response(status_line.spec_bytes(), contents@));
    response
}

/// The position of the first torrent with the given info hash.
pub open spec fn spec_torrent_index(torrents: Seq<TorrentInfo>, info_hash: Seq<u8>) -> Option<int>
    decreases torrents.len(),
{
    if torrents.len() == 0 {
        None
    } else if torrents[0].spec_info_hash() == info_hash {
        Some(0)
    } else {
        match spec_torrent_index(torrents.drop_first(), info_hash) {
            Some(k) => Some(k + 1),
            None => None,
        }
    }
}

/// The position of the first torrent with the given info hash.
pub fn find_torrent(torrents: &Vec<TorrentInfo>, info_hash: &[u8]) -> (res: Option<usize>)
    ensures
        match spec_torrent_index(torrents@, info_hash@) {
            Some(k) => res matches Some(r) && r == k && 0 <= k < torrents@.len(),
            None => res is None,
        },
{
    let mut i: usize = 0;
    assert(torrents@.skip(0) =~= torrents@);
    while i < torrents.len()
        invariant
            0 <= i <= torrents@.len(),
            match spec_torrent_index(torrents@.skip(i as int), info_hash@) {
                Some(k) => spec_torrent_index(torrents@, info_hash@) == Some(k + i),
                None => spec_torrent_index(torrents@, info_hash@) is None,
            },
        decreases torrents@.len() - i,
    {
        let ghost rest = torrents@.skip(i as int);
        assert(rest[0] == torrents@[i as int]);
        assert(rest.drop_first() =~= torrents@.skip(i + 1));
        let hash = torrents[i].get_info_hash();
        if bytes_equal(hash.as_slice(), info_hash) {
            return Some(i);
        }
        i = i + 1;
    }
    assert(torrents@.skip(i as int) =~= Seq::<TorrentInfo>::empty());
    None
}

/// Whether every torrent is well formed and can take one more peer with its answers' counts
/// still fitting an `i64`.
pub open spec fn spec_torrents_ready(torrents: Seq<TorrentInfo>) -> bool {
    forall|j: int|
        0 <= j < torrents.len() ==> (#[trigger] torrents[j]).well_formed() && torrents[j].entries().len()
            < i64::MAX
}

/// The bytes of a refused announce's answer.
pub open spec fn spec_error_bytes(error: PeerInfoError) -> Seq<u8> {
    vstd::utf8::encode_utf8(spec_error_response(error))
}

/// The bytes of a refused announce's answer.
fn error_bytes(error: PeerInfoError) -> (res: Vec<u8>)
    ensures
        res@ == spec_error_bytes(error),
{
    let text = get_error_response_for_announce(error);
    vstd::slice::slice_to_vec(text.as_str().as_bytes())
}

/// The answer of one torrent to an announce of `info`: the torrent's answer before the
/// announce, after which the torrent stores the peer, and a peer new to the torrent is counted.
fn answer_for_torrent(torrent: &mut TorrentInfo, info: PeerInfo, is_completed: bool, json: &mut Json) -> (res: Vec<u8>)
    requires
        old(torrent).well_formed(),
        old(torrent).entries().len() < i64::MAX,
        spec_can_count(*old(json), true),
        is_completed == spec_is_complete(info@),
    ensures
        final(torrent).well_formed(),
        final(torrent).entries().len() <= old(torrent).entries().len() + 1,
        res@ == spec_encode_value(
            spec_announce_response(old(torrent).entries(), old(torrent).spec_interval(), info@.peer_id, spec_is_compact(info@)),
        ),
        final(torrent).peer(info@.peer_id) == Some(info@),
        forall|key: Seq<u8>| key != info@.peer_id ==> #[trigger] final(torrent).peer(key) == old(torrent).peer(key),
        final(torrent).spec_info_hash() == old(torrent).spec_info_hash(),
        final(torrent).spec_interval() == old(torrent).spec_interval(),
        final(json).torrents == old(json).torrents,
        old(torrent).peer(info@.peer_id) is None ==> final(json).connections@ == old(json).connections@.push(
            spec_next_connections(old(json).connections@) as u32,
        ) && final(json).completed@ == old(json).completed@.push(
            spec_next_completed(old(json).completed@, is_completed) as u32,
        ) && final(json).times@.len() == old(json).times@.len() + 1,
        !(old(torrent).peer(info@.peer_id) is None) ==> *final(json) == *old(json),
{
    let response = torrent.get_bencoded_response_for_announce(info.get_peer_id(), info.is_compact());
    let peer_id = info.get_peer_id();
    if torrent.add_peer(peer_id, info) {
        json.add_new_connection(is_completed);
    }
    response
}

/// The answer to an announce sent from `ip_port`: the peer's data is read from the request;
/// a refused announce is answered with its failure reason; otherwise the torrent with the
/// announced info hash answers with its peers as they were before the announce, then stores
/// the peer, and a peer new to the torrent is counted in the statistics.
pub fn get_response_details(
    buffer: &[u8],
    torrents: &mut Vec<TorrentInfo>,
    json: &mut Json,
    ip_port: PeerAddress,
) -> (res: Vec<u8>)
    requires
        spec_torrents_ready(old(torrents)@),
        spec_can_count(*old(json), true),
    ensures
        forall|j: int| 0 <= j < final(torrents)@.len() ==> (#[trigger] final(torrents)@[j]).well_formed(),
        forall|j: int|
            0 <= j < final(torrents)@.len() ==> (#[trigger] final(torrents)@[j]).entries().len()
                <= old(torrents)@[j].entries().len() + 1,
        final(torrents)@.len() == old(torrents)@.len(),
        match spec_peer_info(buffer@, ip_port.ip@) {
            Err(e) => res@ == spec_error_bytes(e) && final(torrents)@ == old(torrents)@ && *final(json)
                == *old(json),
            Ok(p) => match spec_torrent_index(old(torrents)@, p.info_hash) {
                None => res@ == spec_error_bytes(PeerInfoError::InfoHashInvalid) && final(torrents)@
                    == old(torrents)@ && *final(json) == *old(json),
                Some(k) => {
                    let before = old(torrents)@[k];
                    let after = final(torrents)@[k];
                    let is_new = before.peer(p.peer_id) is None;
                    &&& res@ == spec_encode_value(
                        spec_announce_response(before.entries(), before.spec_interval(), p.peer_id, spec_is_compact(p)),
                    )
                    &&& after.peer(p.peer_id) == Some(p)
                    &&& forall|key: Seq<u8>| key != p.peer_id ==> #[trigger] after.peer(key) == before.peer(key)
                    &&& after.spec_info_hash() == before.spec_info_hash()
                    &&& after.spec_interval() == before.spec_interval()
                    &&& forall|j: int| 0 <= j < old(torrents)@.len() && j != k ==> final(torrents)@[j] == old(torrents)@[j]
                    &&& final(json).torrents == old(json).torrents
                    &&& is_new ==> final(json).connections@ == old(json).connections@.push(
                        spec_next_connections(old(json).connections@) as u32,
                    ) && final(json).completed@ == old(json).completed@.push(
                        spec_next_completed(old(json).completed@, spec_is_complete(p)) as u32,
                    ) && final(json).times@.len() == old(json).times@.len() + 1
                    &&& !is_new ==> *final(json) == *old(json)
                },
            },
        },
{
    let info_of_announced_peer = PeerInfo::new(vstd::slice::slice_to_vec(buffer), ip_port);
    match info_of_announced_peer {
        Ok(info_of_announced_peer) => {
            let info_hash = info_of_announced_peer.get_info_hash();
            let peer_is_completed = info_of_announced_peer.is_complete();
            match find_torrent(torrents, info_hash.as_slice()) {
                Some(k) => {
                    let mut torrent = TorrentInfo::new(Vec::new());
                    torrents.set_and_swap(k, &mut torrent);
                    let response = answer_for_torrent(&mut torrent, info_of_announced_peer, peer_is_completed, json);
                    let ghost updated = torrent;
                    torrents.set_and_swap(k, &mut torrent);
                    assert(torrents@ == old(torrents)@.update(k as int, updated));
                    response
                },
                None => error_bytes(PeerInfoError::InfoHashInvalid),
            }
        },
        Err(error) => error_bytes(error),
    }
}

/// The flag that every thread of the tracker reads to know whether to stop.
#[verifier::external_type_specification]
#[verifier::external_body]
#[verifier::reject_recursive_types(T)]
pub struct ExRwLock<T: ?Sized>(std::sync::RwLock<T>);

/// Reads the flag through `std::sync::RwLock::read`: `None` where the lock is poisoned. What
/// comes back depends on what the other threads did, so nothing is stated of it.
#[verifier::external_body]
fn read_flag(flag: &Arc<std::sync::RwLock<bool>>) -> (res: Option<bool>) {
    match flag.read() {
        Ok(guard) => Some(*guard),
        Err(_) => None,
    }
}

/// Sets the flag through `std::sync::RwLock::write`; the error is the text of the poisoned
/// lock's error. Whether the lock is poisoned depends on the other threads, so nothing is stated.
#[verifier::external_body]
fn write_flag(flag: &Arc<std::sync::RwLock<bool>>) -> (res: Result<(), String>) {
    match flag.write() {
        Ok(mut guard) => {
            *guard = true;
            Ok(())
        },
        Err(err) => Err(err.to_string()),
    }
}

/// Whether to shut down, given what was read of the flag: its value, or `true` where the lock
/// was poisoned, since then everything must stop anyway.
pub fn shutdown_from_flag(read: Option<bool>) -> (res: bool)
    ensures
        res == match read {
            Some(b) => b,
            None => true,
        },
{
    match read {
        Some(b) => b,
        None => true,
    }
}

/// Whether the tracker is shutting down: the flag, or `true` where its lock is poisoned.
pub fn is_global_shutdown_set(global_shutdown: &Arc<std::sync::RwLock<bool>>) -> (res: bool) {
    shutdown_from_flag(read_flag(global_shutdown))
}

/// The outcome of setting the flag, given the outcome of the write: the error of a poisoned lock
/// becomes a `ShutdownSettingError` with its text.
pub fn shutdown_setting_result(written: Result<(), String>) -> (res: Result<(), CommunicationError>)
    ensures
        match written {
            Ok(()) => res == Ok::<(), CommunicationError>(()),
            Err(text) => res == Err::<(), CommunicationError>(CommunicationError::ShutdownSettingError(text)),
        },
{
    match written {
        Ok(()) => Ok(()),
        Err(text) => Err(CommunicationError::ShutdownSettingError(text)),
    }
}

/// Tells every thread of the tracker to stop; fails where the flag's lock is poisoned.
pub fn set_global_shutdown(global_shutdown: &Arc<std::sync::RwLock<bool>>) -> (res: Result<(), CommunicationError>)
    ensures
        res is Err ==> res->Err_0 is ShutdownSettingError,
{
    shutdown_setting_result(write_flag(global_shutdown))
}

} // verus!
