use ferris_torrent::bencoding::values::DicValues;
use ferris_torrent::torrent::http_handler::HttpHandler;
use ferris_torrent::torrent::torrent_file_data::TorrentFileData;
use ferris_torrent::tracker::communication::OK_URL;
use ferris_torrent::torrent::tracker_response_data::{PeerIp, TrackerResponseData};
use ferris_torrent::tracker::communication::{is_global_shutdown_set, set_global_shutdown, shutdown_from_flag, shutdown_setting_result, CommunicationError};
use std::sync::{Arc, RwLock};
use ferris_torrent::bencoding::decoder::to_dic;
use ferris_torrent::bencoding::values::ValuesBencoding;
use ferris_torrent::tracker::communication::{frame_response, get_response_details, route, Resource};
use ferris_torrent::tracker::json::Json;
use ferris_torrent::tracker::peer_info::{
    get_error_response_for_announce, get_event, Event, PeerAddress, PeerInfo, PeerInfoError,
};
use ferris_torrent::tracker::torrent_info::{ip_bytes, TorrentInfo};

fn addr() -> PeerAddress {
    PeerAddress { ip: b"127.0.0.1".to_vec(), port: 9999 }
}

fn announce(query: &str) -> Vec<u8> {
    format!("GET /announce?{} HTTP/1.0\r\nHost:torrent.ubuntu.com\r\n\r\n", query).into_bytes()
}

fn full_query(peer_id: &str, port: &str, downloaded: &str, left: &str, event: &str, compact: &str) -> String {
    format!(
        "info_hash=abcdefghijklmn123456&peer_id={}&ip=127.0.0.1&port={}&uploaded=0&downloaded={}&left={}&event={}&compact={}",
        peer_id, port, downloaded, left, event, compact
    )
}

#[test]
fn obtaining_peer_info_without_info_hash_returns_err() {
    let msg = announce("peer_id=ABCDEFGHIJKLMNOPQRST&ip=127.0.0.1&port=6881&uploaded=0&downloaded=0&left=128&event=started&compact=1");
    assert_eq!(PeerInfo::new(msg, addr()), Err(PeerInfoError::InfoHashNotFound));
}

#[test]
fn obtaining_peer_info_without_peer_id_returns_err() {
    let msg = announce("info_hash=abcdefghijklmn123456&ip=127.0.0.1&port=6881&uploaded=0&downloaded=0&left=128&event=started&compact=1");
    assert_eq!(PeerInfo::new(msg, addr()), Err(PeerInfoError::PeerIdNotFoundOrInvalid));
}

#[test]
fn obtaining_peer_info_without_port_returns_err() {
    let msg = announce("info_hash=abcdefghijklmn123456&peer_id=ABCDEFGHIJKLMNOPQRST&ip=127.0.0.1&uploaded=0&downloaded=0&left=128&event=started&compact=1");
    assert_eq!(PeerInfo::new(msg, addr()), Err(PeerInfoError::PortNotFound));
}

#[test]
fn obtaining_peer_info_without_stats_returns_err() {
    let msg = announce("info_hash=abcdefghijklmn123456&peer_id=ABCDEFGHIJKLMNOPQRST&ip=127.0.0.1&port=6881&downloaded=0&left=128&event=started&compact=1");
    assert_eq!(PeerInfo::new(msg, addr()), Err(PeerInfoError::StatNotFound));
    let msg = announce("info_hash=abcdefghijklmn123456&peer_id=ABCDEFGHIJKLMNOPQRST&ip=127.0.0.1&port=6881&uploaded=0&left=128&event=started&compact=1");
    assert_eq!(PeerInfo::new(msg, addr()), Err(PeerInfoError::StatNotFound));
    let msg = announce("info_hash=abcdefghijklmn123456&peer_id=ABCDEFGHIJKLMNOPQRST&ip=127.0.0.1&port=6881&uploaded=0&downloaded=0&event=started&compact=1");
    assert_eq!(PeerInfo::new(msg, addr()), Err(PeerInfoError::StatNotFound));
}

#[test]
fn obtaining_peer_info_with_invalid_values_returns_err() {
    let msg = announce("info_hash=abc&peer_id=ABCDEFGHIJKLMNOPQRST&port=6881&uploaded=0&downloaded=0&left=1");
    assert_eq!(PeerInfo::new(msg, addr()), Err(PeerInfoError::InfoHashInvalid));
    let msg = announce("info_hash=abcdefghijklmn123456&peer_id=ABC&port=6881&uploaded=0&downloaded=0&left=1");
    assert_eq!(PeerInfo::new(msg, addr()), Err(PeerInfoError::PeerIdNotFoundOrInvalid));
    let msg = announce("info_hash=abcdefghijklmn123456&peer_id=ABCDEFGHIJKLMNOPQRST&port=70000&uploaded=0&downloaded=0&left=1");
    assert_eq!(PeerInfo::new(msg, addr()), Err(PeerInfoError::PortInvalid));
    let msg = announce("info_hash=abcdefghijklmn123456&peer_id=ABCDEFGHIJKLMNOPQRST&port=x&uploaded=0&downloaded=0&left=1");
    assert_eq!(PeerInfo::new(msg, addr()), Err(PeerInfoError::PortInvalid));
    let msg = announce("info_hash=abcdefghijklmn123456&peer_id=ABCDEFGHIJKLMNOPQRST&port=6881&uploaded=-1&downloaded=0&left=1");
    assert_eq!(PeerInfo::new(msg, addr()), Err(PeerInfoError::StatInvalid));
}

#[test]
fn obtaining_peer_info_from_valid_announce_ok() {
    let msg = announce(&full_query("ABCDEFGHIJKLMNOPQRST", "6881", "0", "128", "started", "1"));
    let peer = PeerInfo::new(msg, addr()).unwrap();
    assert_eq!(peer.get_info_hash(), b"abcdefghijklmn123456".to_vec());
    assert_eq!(peer.get_peer_id(), b"ABCDEFGHIJKLMNOPQRST".to_vec());
    assert_eq!(peer.get_port(), 6881);
    assert_eq!(peer.get_downloaded_uploaded(), (0, 0));
    assert_eq!(peer.get_sock_addr(), PeerAddress { ip: b"127.0.0.1".to_vec(), port: 6881 });
    assert!(peer.is_compact());
    assert!(!peer.is_complete());
    assert!(!peer.is_stopped());

    let msg = announce("compact=1&peer_id=ABCDEFGHIJKLMNOPQRST&ip=127.0.0.1&uploaded=0&event=started&downloaded=0&left=128&port=6881&info_hash=abcdefghijklmn123456");
    assert_eq!(PeerInfo::new(msg, addr()), Ok(peer));
}

#[test]
fn obtaining_peer_info_percent_decodes_ids() {
    let msg = announce("info_hash=%00%01%02defghijklmn12345%ff&peer_id=ABCDEFGHIJKLMNOPQRST&port=1&uploaded=0&downloaded=0&left=0&event=stopped");
    let peer = PeerInfo::new(msg, addr()).unwrap();
    let mut expected = vec![0u8, 1, 2];
    expected.extend_from_slice(b"defghijklmn12345");
    expected.push(255);
    assert_eq!(peer.get_info_hash(), expected);
    assert!(peer.is_complete());
    assert!(peer.is_stopped());
    assert!(!peer.is_compact());
}

#[test]
fn events_are_named() {
    assert_eq!(get_event(b"started"), Some(Event::Started));
    assert_eq!(get_event(b"completed"), Some(Event::Completed));
    assert_eq!(get_event(b"stopped"), Some(Event::Stopped));
    assert_eq!(get_event(b"paused"), None);
}

#[test]
fn refused_announces_get_their_failure_reason() {
    assert_eq!(
        get_error_response_for_announce(PeerInfoError::PortInvalid),
        "d14:failure reason15:port is invalide"
    );
    assert_eq!(
        get_error_response_for_announce(PeerInfoError::PortNotFound),
        get_error_response_for_announce(PeerInfoError::StatNotFound)
    );
}

fn default_torrent() -> TorrentInfo {
    let mut torrent = TorrentInfo::new(b"abcdefghijklmn123456".to_vec());
    let peers = [
        full_query("ABCDEFGHIJKLMNOPQRS0", "6881", "0", "128", "started", "1"),
        full_query("ABCDEFGHIJKLMNOPQRS1", "6881", "64", "64", "started", "1"),
        full_query("ABCDEFGHIJKLMNOPQRS2", "6881", "64", "64", "stopped", "0"),
        full_query("ABCDEFGHIJKLMNOPQRS3", "6883", "128", "0", "completed", "0"),
    ];
    for query in peers.iter() {
        let peer = PeerInfo::new(announce(query), addr()).unwrap();
        assert!(torrent.add_peer(peer.get_peer_id(), peer));
    }
    torrent
}

#[test]
fn getting_response_to_peer_that_requires_compact_ok() {
    let torrent = default_torrent();
    let response = torrent.get_bencoded_response_for_announce(b"ABCDEFGHIJKLMNOPQRS1".to_vec(), true);
    let dic = to_dic(&response).unwrap();
    assert_eq!(dic.get(b"complete"), Some(&ValuesBencoding::Integer(1)));
    assert_eq!(dic.get(b"incomplete"), Some(&ValuesBencoding::Integer(3)));
    assert_eq!(dic.get(b"interval"), Some(&ValuesBencoding::Integer(0)));
    assert_eq!(
        dic.get(b"peers"),
        Some(&ValuesBencoding::String(vec![127, 0, 0, 1, 26, 225, 127, 0, 0, 1, 26, 227]))
    );
}

#[test]
fn getting_response_to_peer_that_requires_no_compact_ok() {
    let torrent = default_torrent();
    let response = torrent.get_bencoded_response_for_announce(b"ABCDEFGHIJKLMNOPQRS3".to_vec(), false);
    let dic = to_dic(&response).unwrap();
    assert!(dic.get(b"complete").is_some());
    assert!(dic.get(b"incomplete").is_some());
    assert!(dic.get(b"interval").is_some());
    match dic.get(b"peers") {
        Some(ValuesBencoding::List(peers)) => {
            assert_eq!(peers.len(), 2);
            match &peers[1] {
                ValuesBencoding::Dic(peer) => {
                    assert_eq!(peer.get(b"peer id"), Some(&ValuesBencoding::String(b"ABCDEFGHIJKLMNOPQRS1".to_vec())));
                    assert_eq!(peer.get(b"ip"), Some(&ValuesBencoding::String(b"127.0.0.1".to_vec())));
                    assert_eq!(peer.get(b"port"), Some(&ValuesBencoding::Integer(6881)));
                }
                _ => panic!("a peer is a dictionary"),
            }
        }
        _ => panic!("peers is a list"),
    }
}

#[test]
fn adding_a_known_peer_replaces_it() {
    let mut torrent = default_torrent();
    let peer = PeerInfo::new(announce(&full_query("ABCDEFGHIJKLMNOPQRS2", "6882", "64", "64", "started", "0")), addr()).unwrap();
    assert!(!torrent.add_peer(peer.get_peer_id(), peer));
    let response = torrent.get_bencoded_response_for_announce(b"nobody".to_vec(), true);
    let dic = to_dic(&response).unwrap();
    match dic.get(b"peers") {
        Some(ValuesBencoding::String(peers)) => assert_eq!(peers.len(), 24),
        _ => panic!("peers is a byte string"),
    }
}

#[test]
fn ip_text_gives_its_bytes() {
    assert_eq!(ip_bytes(b"192.168.0.255"), vec![192, 168, 0, 255]);
    assert_eq!(ip_bytes(b"::1"), Vec::<u8>::new());
    assert_eq!(ip_bytes(b"1.300.2"), vec![1, 2]);
}

#[test]
fn test_new_json() {
    let torrents_expected = 3;
    let json = Json::new(torrents_expected);
    assert_eq!(json.torrents, torrents_expected);
    assert!(json.times.is_empty());
    assert!(json.connections.is_empty());
    assert!(json.completed.is_empty());
}

#[test]
fn test_new_connections_json() {
    let mut json = Json::new(2);
    let connections_expected = vec![1, 2, 3, 4, 5];
    let completed_expected = vec![0, 0, 1, 2, 2];

    json.add_new_connection(false);
    json.add_new_connection(false);
    json.add_new_connection(true);
    json.add_new_connection(true);
    json.add_new_connection(false);

    assert_eq!(json.connections, connections_expected);
    assert_eq!(json.completed, completed_expected);
    assert_eq!(json.times.len(), 5);
}

#[test]
fn requests_are_routed() {
    assert_eq!(route(b"GET / HTTP/1.1\r\n"), Resource::Index);
    assert_eq!(route(b"GET /stats HTTP/1.1\r\n"), Resource::Stats);
    assert_eq!(route(b"GET /announce?info_hash=a HTTP/1.1\r\n"), Resource::Announce);
    assert_eq!(route(b"GET /other HTTP/1.1\r\n"), Resource::NotFound);
}

#[test]
fn responses_are_framed() {
    assert_eq!(
        frame_response("HTTP/1.1 200 OK", b"hello"),
        b"HTTP/1.1 200 OK\r\nContent-Length: 5\r\n\r\nhello".to_vec()
    );
}

#[test]
fn announces_are_answered_and_counted() {
    let mut torrents = vec![default_torrent()];
    let mut json = Json::new(1);
    let query = full_query("ABCDEFGHIJKLMNOPQRS9", "7000", "0", "0", "completed", "1");
    let response = get_response_details(&announce(&query), &mut torrents, &mut json, addr());
    let dic = to_dic(&response).unwrap();
    assert_eq!(dic.get(b"complete"), Some(&ValuesBencoding::Integer(1)));
    assert_eq!(json.connections, vec![1]);
    assert_eq!(json.completed, vec![1]);
    let response = get_response_details(&announce(&query), &mut torrents, &mut json, addr());
    let dic = to_dic(&response).unwrap();
    assert_eq!(dic.get(b"complete"), Some(&ValuesBencoding::Integer(2)));
    assert_eq!(json.connections, vec![1]);

    let unknown = "info_hash=zzzzzzzzzzzzzzzzzzzz&peer_id=ABCDEFGHIJKLMNOPQRST&port=1&uploaded=0&downloaded=0&left=0";
    let response = get_response_details(&announce(unknown), &mut torrents, &mut json, addr());
    assert_eq!(response, get_error_response_for_announce(PeerInfoError::InfoHashInvalid).into_bytes());
    let response = get_response_details(b"GET /announce?port=1", &mut torrents, &mut json, addr());
    assert_eq!(response, get_error_response_for_announce(PeerInfoError::InfoHashNotFound).into_bytes());
}

#[test]
fn an_announced_peer_is_listed_to_the_others() {
    let torrent = default_torrent();
    let answer = torrent.get_bencoded_response_for_announce(b"ABCDEFGHIJKLMNOPQRSX".to_vec(), false);
    let dic = to_dic(&answer).unwrap();
    let peers = match dic.get(b"peers") {
        Some(ValuesBencoding::List(list)) => list,
        _ => panic!("no list of peers"),
    };
    let ids: Vec<Vec<u8>> = peers
        .iter()
        .map(|p| match p {
            ValuesBencoding::Dic(d) => match d.get(b"peer id") {
                Some(ValuesBencoding::String(id)) => id.clone(),
                _ => panic!("no peer id"),
            },
            _ => panic!("not a dictionary"),
        })
        .collect();
    assert_eq!(
        ids,
        vec![
            b"ABCDEFGHIJKLMNOPQRS0".to_vec(),
            b"ABCDEFGHIJKLMNOPQRS1".to_vec(),
            b"ABCDEFGHIJKLMNOPQRS3".to_vec(),
        ]
    );
}

#[test]
fn the_shutdown_flag_is_read_and_set() {
    assert!(shutdown_from_flag(Some(true)));
    assert!(!shutdown_from_flag(Some(false)));
    assert!(shutdown_from_flag(None));
    assert_eq!(shutdown_setting_result(Ok(())), Ok(()));
    assert_eq!(
        shutdown_setting_result(Err("poisoned".to_string())),
        Err(CommunicationError::ShutdownSettingError("poisoned".to_string()))
    );
    let flag = Arc::new(RwLock::new(false));
    assert!(!is_global_shutdown_set(&flag));
    assert_eq!(set_global_shutdown(&flag), Ok(()));
    assert!(is_global_shutdown_set(&flag));
}

#[test]
fn the_client_reads_back_the_tracker_answer() {
    let torrent = default_torrent();
    let full = to_dic(&torrent.get_bencoded_response_for_announce(b"ABCDEFGHIJKLMNOPQRSX".to_vec(), false)).unwrap();
    let read = TrackerResponseData::new(full).unwrap();
    assert_eq!((read.interval, read.complete, read.incomplete), (0, 1, 3));
    let ids: Vec<Option<Vec<u8>>> = read.peers.iter().map(|p| p.peer_id.clone()).collect();
    assert_eq!(
        ids,
        vec![
            Some(b"ABCDEFGHIJKLMNOPQRS0".to_vec()),
            Some(b"ABCDEFGHIJKLMNOPQRS1".to_vec()),
            Some(b"ABCDEFGHIJKLMNOPQRS3".to_vec()),
        ]
    );
    assert_eq!(read.peers[0].ip, PeerIp::Text("127.0.0.1".to_string()));
    assert_eq!(read.peers[2].port, 6883);

    let compact = to_dic(&torrent.get_bencoded_response_for_announce(b"ABCDEFGHIJKLMNOPQRS0".to_vec(), true)).unwrap();
    let read = TrackerResponseData::new(compact).unwrap();
    assert_eq!((read.interval, read.complete, read.incomplete), (0, 1, 3));
    let addrs: Vec<(PeerIp, u16)> = read.peers.iter().map(|p| (p.ip.clone(), p.port)).collect();
    assert_eq!(addrs, vec![(PeerIp::V4(127, 0, 0, 1), 6881), (PeerIp::V4(127, 0, 0, 1), 6883)]);
    assert!(read.peers.iter().all(|p| p.peer_id.is_none()));
}

fn handler() -> HttpHandler {
    let mut info = DicValues::new();
    info.insert(b"length".to_vec(), ValuesBencoding::Integer(100));
    info.insert(b"name".to_vec(), ValuesBencoding::String(b"file.iso".to_vec()));
    info.insert(b"piece length".to_vec(), ValuesBencoding::Integer(64));
    info.insert(b"pieces".to_vec(), ValuesBencoding::String(vec![0; 40]));
    let mut dic = DicValues::new();
    dic.insert(b"announce".to_vec(), ValuesBencoding::String(b"https://tracker.org/announce".to_vec()));
    dic.insert(b"info".to_vec(), ValuesBencoding::Dic(info));
    HttpHandler::new(TorrentFileData::new(dic).unwrap(), "ABCDEFGHIJKLMNOPQRST".to_string()).unwrap()
}

#[test]
fn the_client_reads_the_framed_tracker_answer() {
    let torrent = default_torrent();
    let answer = torrent.get_bencoded_response_for_announce(b"ABCDEFGHIJKLMNOPQRS0".to_vec(), false);
    let framed = frame_response(OK_URL, &answer);
    let dic = handler().tracker_response_to_dic(framed).unwrap();
    let read = TrackerResponseData::new(dic).unwrap();
    assert_eq!((read.interval, read.complete, read.incomplete), (0, 1, 3));
    let ports: Vec<u16> = read.peers.iter().map(|p| p.port).collect();
    assert_eq!(ports, vec![6881, 6883]);
}

#[test]
fn the_tracker_reads_the_client_announce() {
    let h = handler();
    let msg = h.get_send_msg().unwrap();
    let peer = PeerInfo::new(msg.into_bytes(), addr()).unwrap();
    let mut info = DicValues::new();
    info.insert(b"length".to_vec(), ValuesBencoding::Integer(100));
    info.insert(b"name".to_vec(), ValuesBencoding::String(b"file.iso".to_vec()));
    info.insert(b"piece length".to_vec(), ValuesBencoding::Integer(64));
    info.insert(b"pieces".to_vec(), ValuesBencoding::String(vec![0; 40]));
    let mut dic = DicValues::new();
    dic.insert(b"announce".to_vec(), ValuesBencoding::String(b"https://tracker.org/announce".to_vec()));
    dic.insert(b"info".to_vec(), ValuesBencoding::Dic(info));
    let torrent = TorrentFileData::new(dic).unwrap();
    assert_eq!(peer.get_info_hash(), torrent.sha1_info_hash);
    assert_eq!(peer.get_peer_id(), b"ABCDEFGHIJKLMNOPQRST".to_vec());
    assert_eq!(peer.get_port(), 6881);
    assert_eq!(peer.get_downloaded_uploaded(), (0, 0));
    assert_eq!(peer.get_sock_addr(), PeerAddress { ip: b"127.0.0.1".to_vec(), port: 6881 });
    assert!(!peer.is_compact());
    assert!(!peer.is_complete());
    assert!(!peer.is_stopped());
}
