//! The client's side of the tracker's HTTP protocol: the announce request it sends, and the
//! reading of the tracker's response into a bencoded dictionary.

use vstd::prelude::*;
use vstd::string::*;
use crate::bencoding::decoder::{from_torrent_to_dic, spec_decode_dic};
use crate::bencoding::values::{Bencode, DicValues};
use crate::numbers::{decimal_text, parse_number_text, spec_decimal_text, spec_parse_unsigned_text};
use crate::tracker::peer_info::{find_index_msg, spec_find_from};
use crate::urlencoding::{from_string, spec_url_encode};
use super::torrent_file_data::{spec_utf8_text, vec_u8_to_string, TorrentFileData};

verus! {

/// The start of an announce request.
pub const INIT_MSG: &'static str = "GET /announce";

/// The query key of the info hash.
pub const INFO_HASH: &'static str = "?info_hash=";

/// The query key of the peer id.
pub const PEER_ID: &'static str = "&peer_id=";

/// The query key of the client's IP address.
pub const IP: &'static str = "&ip=";

/// The query key of the client's port.
pub const PORT: &'static str = "&port=";

/// The query key of the bytes uploaded.
pub const UPLOADED: &'static str = "&uploaded=";

/// The query key of the bytes downloaded.
pub const DOWNLOADED: &'static str = "&downloaded=";

/// The query key of the bytes left.
pub const LEFT: &'static str = "&left=";

/// The query key of the event.
pub const EVENT: &'static str = "&event=";

/// What ends the request line.
pub const HTTP: &'static str = " HTTP/1.0\r\n";

/// The name of the host header.
pub const HOST: &'static str = "Host:";

/// What ends the request.
pub const MSG_ENDING: &'static str = "\r\n\r\n";

/// The client's IP address in its announces.
pub const IP_CLIENT: &'static str = "127.0.0.1";

/// The event of the first announce.
pub const STARTED: &'static str = "started";

/// The first port the client announces.
pub const INIT_PORT: u32 = 6881;

/// The last port the client announces.
pub const LAST_PORT: u32 = 6889;

/// The version at the start of a response's status line.
pub const HTTP_VERSION: &'static str = "HTTP/1.1";

/// What can go wrong talking to a tracker.
#[derive(Debug, PartialEq, Eq)]
pub enum ErrorMsgHttp {
    NoAnnounce,
    NoInfoHash,
    ToDicError,
    FormatResponseError,
    CreateTls,
    ConnectTcp,
    ConnectTls,
    NoConection,
    NoMorePorts,
    HttpDescription(String),
    SendingGetMessage,
    ReadingResponse,
}

/// The data of the client's announce request.
pub struct MsgDescriptor {
    info_hash: String,
    peer_id: String,
    ip: String,
    port: u32,
    uploaded: u64,
    downloaded: u64,
    left: u64,
    event: String,
    host: String,
}

/// The value of a [`MsgDescriptor`].
pub struct MsgModel {
    pub info_hash: Seq<char>,
    pub peer_id: Seq<char>,
    pub ip: Seq<char>,
    pub port: int,
    pub uploaded: int,
    pub downloaded: int,
    pub left: int,
    pub event: Seq<char>,
    pub host: Seq<char>,
}

impl View for MsgDescriptor {
    type V = MsgModel;

    closed spec fn view(&self) -> MsgModel {
        MsgModel {
            info_hash: self.info_hash@,
            peer_id: self.peer_id@,
            ip: self.ip@,
            port: self.port as int,
            uploaded: self.uploaded as int,
            downloaded: self.downloaded as int,
            left: self.left as int,
            event: self.event@,
            host: self.host@,
        }
    }
}

/// The host of a tracker's URL: what follows the first `//`, up to the first `:` after it,
/// or where there is none up to the first `/` after it.
pub open spec fn spec_host(url: Seq<u8>) -> Option<Seq<u8>> {
    match spec_find_from(url, seq![47u8, 47u8], 0) {
        None => None,
        Some(p) => {
            let rest = url.skip(p + 2);
            match spec_find_from(rest, seq![58u8], 0) {
                Some(q) => Some(rest.take(q)),
                None => match spec_find_from(rest, seq![47u8], 0) {
                    Some(q) => Some(rest.take(q)),
                    None => None,
                },
            }
        },
    }
}

/// The announce request of a descriptor.
pub open spec fn spec_send_msg(m: MsgModel) -> Seq<char> {
    INIT_MSG@ + INFO_HASH@ + m.info_hash + PEER_ID@ + m.peer_id + IP@ + m.ip + PORT@ + spec_decimal_text(
        m.port as nat,
    ) + UPLOADED@ + spec_decimal_text(m.uploaded as nat) + DOWNLOADED@ + spec_decimal_text(m.downloaded as nat)
        + LEFT@ + spec_decimal_text(m.left as nat) + EVENT@ + m.event + HTTP@ + HOST@ + m.host + MSG_ENDING@
}

/// The position of the first `' '` at or after `i`.
pub open spec fn spec_space_from(s: Seq<char>, i: int) -> Option<int>
    decreases s.len() - i,
{
    if i < 0 || i >= s.len() {
        None
    } else if s[i] == ' ' {
        Some(i)
    } else {
        spec_space_from(s, i + 1)
    }
}

/// What a status line says: an error for a line that does not start with `HTTP/1.1`, a
/// space, a code and another space; no error for a code from 200 to 299; for any other
/// number, the code, `": "` and the rest of the line; an error where the code is no number.
pub open spec fn spec_http_code(line: Seq<char>) -> Result<(), Option<Seq<char>>> {
    match spec_space_from(line, 0) {
        None => Err(None),
        Some(p1) => if line.take(p1) != HTTP_VERSION@ {
            Err(None)
        } else {
            match spec_space_from(line, p1 + 1) {
                None => Err(None),
                Some(p2) => {
                    let code = line.subrange(p1 + 1, p2);
                    match spec_parse_unsigned_text(code, u32::MAX as int) {
                        None => Err(None),
                        Some(c) => if 200 <= c <= 299 {
                            Ok(())
                        } else {
                            Err(Some(code + seq![':', ' '] + line.skip(p2 + 1)))
                        },
                    }
                },
            }
        },
    }
}

/// What went wrong with a tracker's response, as a value.
pub enum ResponseFailure {
    Format,
    Description(Seq<char>),
    ToDic,
    Other,
}

/// The failure an error stands for.
pub open spec fn spec_failure(e: ErrorMsgHttp) -> ResponseFailure {
    match e {
        ErrorMsgHttp::FormatResponseError => ResponseFailure::Format,
        ErrorMsgHttp::HttpDescription(m) => ResponseFailure::Description(m@),
        ErrorMsgHttp::ToDicError => ResponseFailure::ToDic,
        _ => ResponseFailure::Other,
    }
}

/// What a tracker's response holds: the status line, up to the first `\r\n`, must give no
/// error; the dictionary is what follows the first `\r\n\r\n`, decoded.
pub open spec fn spec_response_dic(response: Seq<u8>) -> Result<Seq<(Seq<u8>, Bencode)>, ResponseFailure> {
    match spec_find_from(response, seq![13u8, 10u8], 0) {
        None => Err(ResponseFailure::Format),
        Some(p) => match spec_http_code(spec_utf8_text(response.take(p))) {
            Err(None) => Err(ResponseFailure::Format),
            Err(Some(m)) => Err(ResponseFailure::Description(m)),
            Ok(_) => match spec_find_from(response, seq![13u8, 10u8, 13u8, 10u8], 0) {
                None => Err(ResponseFailure::Format),
                Some(q) => match spec_decode_dic(response.skip(q + 4)) {
                    Ok(d) => Ok(d),
                    Err(_) => Err(ResponseFailure::ToDic),
                },
            },
        },
    }
}

/// The host of a tracker's URL; see [`spec_host`].
pub fn init_host(tracker: String) -> (res: Result<String, ErrorMsgHttp>)
    ensures
        match spec_host(vstd::utf8::encode_utf8(tracker@)) {
            Some(h) => res matches Ok(r) && r@ == spec_utf8_text(h),
            None => res == Err::<String, ErrorMsgHttp>(ErrorMsgHttp::NoAnnounce),
        },
{
    let u8_tracker = tracker.as_str().as_bytes();
    let two_slash: [u8; 2] = [47u8, 47u8];
    let colon: [u8; 1] = [58u8];
    let slash: [u8; 1] = [47u8];
    assert(two_slash@ =~= seq![47u8, 47u8]);
    assert(colon@ =~= seq![58u8]);
    assert(slash@ =~= seq![47u8]);
    match find_index_msg(u8_tracker, 2, &two_slash) {
        Some(after) => {
            proof {
                crate::tracker::peer_info::lemma_find_from_matches(u8_tracker@, two_slash@, 0);
            }
            let rest = vstd::slice::slice_subrange(u8_tracker, after, u8_tracker.len());
            assert(rest@ =~= u8_tracker@.skip(after as int));
            proof {
                crate::tracker::peer_info::lemma_find_from_matches(rest@, colon@, 0);
                crate::tracker::peer_info::lemma_find_from_matches(rest@, slash@, 0);
            }
            let end = match find_index_msg(rest, 1, &colon) {
                Some(pos) => pos - 1,
                None => match find_index_msg(rest, 1, &slash) {
                    Some(pos) => pos - 1,
                    None => return Err(ErrorMsgHttp::NoAnnounce),
                },
            };
            let host = vstd::slice::slice_subrange(rest, 0, end);
            assert(host@ =~= rest@.take(end as int));
            Ok(vec_u8_to_string(host))
        },
        None => Err(ErrorMsgHttp::NoAnnounce),
    }
}

/// The info hash as the query string sends it: percent encoded, as text.
pub fn init_info_hash(vec_sha1: Vec<u8>) -> (res: String)
    ensures
        res@ == spec_utf8_text(spec_url_encode(vec_sha1@)),
{
    let info_hash = from_string(vec_sha1);
    vec_u8_to_string(info_hash.as_slice())
}

/// Appends a query key and its value to a request.
fn add_description_msg(msg: &mut String, type_msg: &str, value: &str)
    ensures
        final(msg)@ == old(msg)@ + type_msg@ + value@,
{
    msg.append(type_msg);
    msg.append(value);
}

impl MsgDescriptor {
    /// The descriptor of the client's first announce for a torrent: its info hash, the peer id,
    /// the client's address and first port, nothing uploaded or downloaded, the whole torrent
    /// left, the event `started`, and the tracker's host.
    pub fn new(torrent: TorrentFileData, peer_id: String) -> (res: Result<MsgDescriptor, ErrorMsgHttp>)
        ensures
            match spec_host(vstd::utf8::encode_utf8(torrent.url_tracker_main@)) {
                Some(h) => res matches Ok(m) && m@ == (MsgModel {
                    info_hash: spec_utf8_text(spec_url_encode(torrent.sha1_info_hash@)),
                    peer_id: peer_id@,
                    ip: IP_CLIENT@,
                    port: INIT_PORT as int,
                    uploaded: 0,
                    downloaded: 0,
                    left: torrent.total_length as int,
                    event: STARTED@,
                    host: spec_utf8_text(h),
                }),
                None => res == Err::<MsgDescriptor, ErrorMsgHttp>(ErrorMsgHttp::NoAnnounce),
            },
    {
        let info_hash = init_info_hash(torrent.get_info_hash());
        let ip = String::from_str(IP_CLIENT);
        let left = torrent.get_total_length();
        let event = String::from_str(STARTED);
        let host = init_host(torrent.get_tracker_main())?;
        Ok(MsgDescriptor { info_hash, peer_id, ip, port: INIT_PORT, uploaded: 0, downloaded: 0, left, event, host })
    }

    /// The info hash, percent encoded.
    pub fn get_info_hash(&self) -> (res: String)
        ensures
            res@ == self@.info_hash,
    {
        self.info_hash.clone()
    }

    /// The peer id.
    pub fn get_peer_id(&self) -> (res: String)
        ensures
            res@ == self@.peer_id,
    {
        self.peer_id.clone()
    }

    /// The client's IP address.
    pub fn get_ip(&self) -> (res: String)
        ensures
            res@ == self@.ip,
    {
        self.ip.clone()
    }

    /// The port, as text.
    pub fn get_port(&self) -> (res: String)
        ensures
            res@ == spec_decimal_text(self@.port as nat),
    {
        decimal_text(self.port as u64)
    }

    /// The bytes uploaded, as text.
    pub fn get_uploaded(&self) -> (res: String)
        ensures
            res@ == spec_decimal_text(self@.uploaded as nat),
    {
        decimal_text(self.uploaded)
    }

    /// The bytes downloaded, as text.
    pub fn get_downloaded(&self) -> (res: String)
        ensures
            res@ == spec_decimal_text(self@.downloaded as nat),
    {
        decimal_text(self.downloaded)
    }

    /// The bytes left, as text.
    pub fn get_left(&self) -> (res: String)
        ensures
            res@ == spec_decimal_text(self@.left as nat),
    {
        decimal_text(self.left)
    }

    /// The event.
    pub fn get_event(&self) -> (res: String)
        ensures
            res@ == self@.event,
    {
        self.event.clone()
    }

    /// The tracker's host.
    pub fn get_host(&self) -> (res: String)
        ensures
            res@ == self@.host,
    {
        self.host.clone()
    }

    /// Moves to the next port from 6881 to 6889; after the last one, goes back to the first
    /// and tells that there are no more ports.
    pub fn change_port(&mut self) -> (res: Result<(), ErrorMsgHttp>)
        requires
            old(self)@.port < u32::MAX,
        ensures
            old(self)@.port == LAST_PORT ==> res == Err::<(), ErrorMsgHttp>(ErrorMsgHttp::NoMorePorts) && final(self)@.port
                == INIT_PORT,
            old(self)@.port != LAST_PORT ==> res is Ok && final(self)@.port == old(self)@.port + 1,
            final(self)@.info_hash == old(self)@.info_hash,
            final(self)@.peer_id == old(self)@.peer_id,
            final(self)@.ip == old(self)@.ip,
            final(self)@.uploaded == old(self)@.uploaded,
            final(self)@.downloaded == old(self)@.downloaded,
            final(self)@.left == old(self)@.left,
            final(self)@.event == old(self)@.event,
            final(self)@.host == old(self)@.host,
    {
        if self.port == LAST_PORT {
            self.port = INIT_PORT;
            Err(ErrorMsgHttp::NoMorePorts)
        } else {
            self.port = self.port + 1;
            Ok(())
        }
    }

    /// Counts `more_down` more bytes downloaded, as many fewer left, and `more_up` more
    /// uploaded.
    pub fn update_download_stats(&mut self, more_down: u64, more_up: u64)
        requires
            old(self)@.downloaded + more_down <= u64::MAX,
            old(self)@.uploaded + more_up <= u64::MAX,
            more_down <= old(self)@.left,
        ensures
            final(self)@ == (MsgModel {
                downloaded: old(self)@.downloaded + more_down,
                uploaded: old(self)@.uploaded + more_up,
                left: old(self)@.left - more_down,
                ..old(self)@
            }),
    {
        self.downloaded = self.downloaded + more_down;
        self.uploaded = self.uploaded + more_up;
        self.left = self.left - more_down;
    }

    /// The announce request to send to the tracker; see [`spec_send_msg`].
    pub fn get_send_msg(&self) -> (res: Result<String, ErrorMsgHttp>)
        ensures
            res matches Ok(m) && m@ == spec_send_msg(self@),
    {
        let mut result = String::from_str(INIT_MSG);
        add_description_msg(&mut result, INFO_HASH, self.get_info_hash().as_str());
        add_description_msg(&mut result, PEER_ID, self.get_peer_id().as_str());
        add_description_msg(&mut result, IP, self.get_ip().as_str());
        add_description_msg(&mut result, PORT, self.get_port().as_str());
        add_description_msg(&mut result, UPLOADED, self.get_uploaded().as_str());
        add_description_msg(&mut result, DOWNLOADED, self.get_downloaded().as_str());
        add_description_msg(&mut result, LEFT, self.get_left().as_str());
        add_description_msg(&mut result, EVENT, self.get_event().as_str());
        add_description_msg(&mut result, HTTP, "");
        add_description_msg(&mut result, HOST, self.get_host().as_str());
        add_description_msg(&mut result, MSG_ENDING, "");
        proof {
            reveal_strlit("");
        }
        assert(result@ =~= spec_send_msg(self@));
        Ok(result)
    }
}

/// The client's connection to a tracker: the data of its announce request.
pub struct HttpHandler {
    pub msg_get: MsgDescriptor,
}

impl HttpHandler {
    /// The data of the announce request.
    pub closed spec fn msg(&self) -> MsgModel {
        self.msg_get@
    }

    /// A handler for a torrent's tracker; see [`MsgDescriptor::new`].
    pub fn new(torrent: TorrentFileData, peer_id: String) -> (res: Result<HttpHandler, ErrorMsgHttp>)
        ensures
            match spec_host(vstd::utf8::encode_utf8(torrent.url_tracker_main@)) {
                Some(h) => res matches Ok(m) && m.msg() == (MsgModel {
                    info_hash: spec_utf8_text(spec_url_encode(torrent.sha1_info_hash@)),
                    peer_id: peer_id@,
                    ip: IP_CLIENT@,
                    port: INIT_PORT as int,
                    uploaded: 0,
                    downloaded: 0,
                    left: torrent.total_length as int,
                    event: STARTED@,
                    host: spec_utf8_text(h),
                }),
                None => res == Err::<HttpHandler, ErrorMsgHttp>(ErrorMsgHttp::NoAnnounce),
            },
    {
        Ok(HttpHandler { msg_get: MsgDescriptor::new(torrent, peer_id)? })
    }

    /// The tracker's host.
    pub fn get_host(&self) -> (res: String)
        ensures
            res@ == self.msg().host,
    {
        self.msg_get.get_host()
    }

    /// The announce request to send to the tracker.
    pub fn get_send_msg(&self) -> (res: Result<String, ErrorMsgHttp>)
        ensures
            res matches Ok(m) && m@ == spec_send_msg(self.msg()),
    {
        self.msg_get.get_send_msg()
    }

    /// Counts `more_down` more bytes downloaded, as many fewer left, and `more_up` more
    /// uploaded.
    pub fn update_download_stats(&mut self, more_down: u64, more_up: u64)
        requires
            old(self).msg().downloaded + more_down <= u64::MAX,
            old(self).msg().uploaded + more_up <= u64::MAX,
            more_down <= old(self).msg().left,
        ensures
            final(self).msg() == (MsgModel {
                downloaded: old(self).msg().downloaded + more_down,
                uploaded: old(self).msg().uploaded + more_up,
                left: old(self).msg().left - more_down,
                ..old(self).msg()
            }),
    {
        self.msg_get.update_download_stats(more_down, more_up)
    }
}

/// The position of the first `' '` at or after `i`.
fn space_from(text: &str, i: usize) -> (res: Option<usize>)
    ensures
        match spec_space_from(text@, i as int) {
            Some(p) => res == Some(p as usize) && i <= p < text@.len(),
            None => res is None,
        },
{
    let n = text.unicode_len();
    let mut j: usize = i;
    while j < n
        invariant
            n == text@.len(),
            i <= j,
            spec_space_from(text@, i as int) == spec_space_from(text@, j as int),
        decreases n - j,
    {
        if text.get_char(j) == ' ' {
            return Some(j);
        }
        j = j + 1;
    }
    None
}

/// What a status line says; see [`spec_http_code`].
pub fn check_status_line(response: &[u8]) -> (res: Result<(), ErrorMsgHttp>)
    ensures
        match spec_http_code(spec_utf8_text(response@)) {
            Ok(_) => res is Ok,
            Err(None) => res == Err::<(), ErrorMsgHttp>(ErrorMsgHttp::FormatResponseError),
            Err(Some(m)) => res matches Err(ErrorMsgHttp::HttpDescription(r)) && r@ == m,
        },
{
    let string_response = vec_u8_to_string(response);
    let text = string_response.as_str();
    let n = text.unicode_len();
    let p1 = match space_from(text, 0) {
        Some(p) => p,
        None => return Err(ErrorMsgHttp::FormatResponseError),
    };
    let first = String::from_str(text.substring_char(0, p1));
    let version = String::from_str(HTTP_VERSION);
    if !(first == version) {
        return Err(ErrorMsgHttp::FormatResponseError);
    }
    let p2 = match space_from(text, p1 + 1) {
        Some(p) => p,
        None => return Err(ErrorMsgHttp::FormatResponseError),
    };
    let str_code = String::from_str(text.substring_char(p1 + 1, p2));
    let mut message = str_code.clone();
    proof {
        reveal_strlit(": ");
    }
    message.append(": ");
    message.append(text.substring_char(p2 + 1, n));
    assert(text@.subrange(p2 + 1, n as int) =~= text@.skip(p2 + 1));
    assert(text@.subrange(0, p1 as int) =~= text@.take(p1 as int));
    match parse_number_text(&str_code, 4294967295u64) {
        Some(code) => {
            if 200 <= code && code <= 299 {
                Ok(())
            } else {
                Err(ErrorMsgHttp::HttpDescription(message))
            }
        },
        None => Err(ErrorMsgHttp::FormatResponseError),
    }
}

impl HttpHandler {
    /// What the status line of a tracker's response says: no error for a code from 200 to
    /// 299, the code and its description for another code, and a format error for a line that
    /// is not `HTTP/1.1`, a code and a description.
    pub fn check_http_code(&self, response: &[u8]) -> (res: Result<(), ErrorMsgHttp>)
        ensures
            match spec_http_code(spec_utf8_text(response@)) {
                Ok(_) => res is Ok,
                Err(None) => res == Err::<(), ErrorMsgHttp>(ErrorMsgHttp::FormatResponseError),
                Err(Some(m)) => res matches Err(ErrorMsgHttp::HttpDescription(r)) && r@ == m,
            },
    {
        check_status_line(response)
    }

    /// The dictionary of a tracker's response: the status line must give no error, and the
    /// body, after the first empty line, must be a bencoded dictionary.
    pub fn tracker_response_to_dic(&self, response: Vec<u8>) -> (res: Result<DicValues, ErrorMsgHttp>)
        ensures
            match spec_response_dic(response@) {
                Ok(d) => res matches Ok(r) && r@ == d,
                Err(f) => res matches Err(e) && spec_failure(e) == f,
            },
    {
        let end_line: [u8; 2] = [13u8, 10u8];
        let double_end_line: [u8; 4] = [13u8, 10u8, 13u8, 10u8];
        assert(end_line@ =~= seq![13u8, 10u8]);
        assert(double_end_line@ =~= seq![13u8, 10u8, 13u8, 10u8]);
        proof {
            crate::tracker::peer_info::lemma_find_from_matches(response@, end_line@, 0);
            crate::tracker::peer_info::lemma_find_from_matches(response@, double_end_line@, 0);
        }
        let n = response.len();
        match find_index_msg(response.as_slice(), 2, &end_line) {
            Some(after) => {
                assert(after >= 2 && after <= n);
                let line = vstd::slice::slice_subrange(response.as_slice(), 0, after - 2);
                assert(line@ =~= response@.take(after - 2));
                self.check_http_code(line)?;
            },
            None => return Err(ErrorMsgHttp::FormatResponseError),
        }
        match find_index_msg(response.as_slice(), 4, &double_end_line) {
            Some(after) => {
                let body = vstd::slice::slice_to_vec(vstd::slice::slice_subrange(response.as_slice(), after, response.len()));
                assert(body@ =~= response@.skip(after as int));
                match from_torrent_to_dic(body) {
                    Ok(dic_response) => Ok(dic_response),
                    Err(_) => Err(ErrorMsgHttp::ToDicError),
                }
            },
            None => Err(ErrorMsgHttp::FormatResponseError),
        }
    }
}

} // verus!
