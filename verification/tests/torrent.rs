use ferris_torrent::torrent::errors::{assembly_target_name, PiecesAssemblerError};
use ferris_torrent::torrent::metadata::check_filename_extension_is_torrent;
use ferris_torrent::torrent::peer_id::generate_peer_id;
use ferris_torrent::bencoding::values::{DicValues, ValuesBencoding};
use ferris_torrent::p2p::message::PieceStatus;
use ferris_torrent::torrent::http_handler::{init_info_hash, ErrorMsgHttp, HttpHandler};
use ferris_torrent::torrent::metadata::{create_torrent, read_torrent_file_to_dic, torrent_dic_fits, ClientError, MetadataError};
use ferris_torrent::torrent::torrent_file_data::{
    Section, TargetFilesData, TorrentFileData, TorrentFileDataError,
};
use ferris_torrent::torrent::tracker_response_data::{
    get_dic_string, get_dic_u64, PeerIp, ResponseError, Section as ResponseSection, TrackerResponseData,
};
use ferris_torrent::bencoding::encoder::from_dic;

fn text(s: &str) -> ValuesBencoding {
    ValuesBencoding::String(s.as_bytes().to_vec())
}

fn dic(entries: Vec<(&str, ValuesBencoding)>) -> DicValues {
    let mut d = DicValues::new();
    for (k, v) in entries {
        d.insert(k.as_bytes().to_vec(), v);
    }
    d
}

fn pieces(n: usize) -> Vec<u8> {
    (0..n * 20).map(|i| (i % 251) as u8).collect()
}

fn single_file_dic() -> DicValues {
    dic(vec![
        ("announce", text("http://torrent.ubuntu.com:6969/announce")),
        (
            "info",
            ValuesBencoding::Dic(dic(vec![
                ("length", ValuesBencoding::Integer(600401920)),
                ("name", text("ubuntu-14.04.6-server-ppc64el.iso")),
                ("piece length", ValuesBencoding::Integer(524288)),
                ("pieces", ValuesBencoding::String(pieces(1146))),
            ])),
        ),
    ])
}

fn file_entry(length: i64, path: &[&str]) -> ValuesBencoding {
    ValuesBencoding::Dic(dic(vec![
        ("length", ValuesBencoding::Integer(length)),
        ("path", ValuesBencoding::List(path.iter().map(|p| text(p)).collect())),
    ]))
}

fn multiple_file_dic() -> DicValues {
    dic(vec![
        ("announce", text("udp://tracker.leechers-paradise.org:6969")),
        (
            "announce-list",
            ValuesBencoding::List(vec![
                ValuesBencoding::List(vec![text("udp://a.org:1"), text("udp://b.org:2")]),
                ValuesBencoding::List(vec![text("udp://c.org:3")]),
            ]),
        ),
        (
            "info",
            ValuesBencoding::Dic(dic(vec![
                (
                    "files",
                    ValuesBencoding::List(vec![
                        file_entry(140, &["Big Buck Bunny.en.srt"]),
                        file_entry(276134947, &["Big Buck Bunny.mp4"]),
                        file_entry(310380, &["extra", "poster.jpg"]),
                    ]),
                ),
                ("name", text("Big Buck Bunny")),
                ("piece length", ValuesBencoding::Integer(262144)),
                ("pieces", ValuesBencoding::String(pieces(1055))),
            ])),
        ),
    ])
}

fn desktop_dic() -> DicValues {
    dic(vec![
        ("announce", text("https://torrent.ubuntu.com/announce")),
        (
            "info",
            ValuesBencoding::Dic(dic(vec![
                ("length", ValuesBencoding::Integer(3654957056)),
                ("name", text("ubuntu-22.04-desktop-amd64.iso")),
                ("piece length", ValuesBencoding::Integer(262144)),
                ("pieces", ValuesBencoding::String(pieces(13943))),
            ])),
        ),
    ])
}

#[test]
fn test_torrent_single_file_ok() -> Result<(), TorrentFileDataError> {
    let torrent = TorrentFileData::new(single_file_dic())?;
    let tracker_main = String::from("http://torrent.ubuntu.com:6969/announce");

    let pieces_length_expected = 524288;
    let total_size_expected = 600401920;
    let total_pieces_expected = 1146;

    assert_eq!(torrent.get_tracker_main(), tracker_main);
    assert_eq!(torrent.get_piece_length(), pieces_length_expected);
    assert_eq!(torrent.get_total_length(), total_size_expected);
    assert_eq!(torrent.get_total_amount_pieces(), total_pieces_expected);

    let first_id = 0;
    let last_id = torrent.get_total_amount_pieces() - 1;

    let first_piece = torrent.get_piece_sha1(first_id);
    let last_piece = torrent.get_piece_sha1(last_id);

    let long_sha1 = 20;
    let pos_last_piece = torrent.sha1_pieces.len() - long_sha1;

    assert_eq!(first_piece, torrent.sha1_pieces[..long_sha1]);
    assert_eq!(last_piece, torrent.sha1_pieces[pos_last_piece..]);
    Ok(())
}

#[test]
fn test_torrent_multiple_file_ok() -> Result<(), TorrentFileDataError> {
    let torrent = TorrentFileData::new(multiple_file_dic())?;

    let tracker_main = String::from("udp://tracker.leechers-paradise.org:6969");
    let pieces_length_expected = 262144;
    let total_size_expected = 140 + 276134947 + 310380;
    let total_pieces_expected = 1055;

    assert_eq!(torrent.get_tracker_main(), tracker_main);
    assert_eq!(torrent.get_piece_length(), pieces_length_expected);
    assert_eq!(torrent.get_total_length(), total_size_expected);
    assert_eq!(torrent.get_total_amount_pieces(), total_pieces_expected);

    let first_id = 0;
    let last_id = torrent.get_total_amount_pieces() - 1;

    let first_piece = torrent.get_piece_sha1(first_id);
    let last_piece = torrent.get_piece_sha1(last_id);

    let long_sha1 = 20;
    let pos_last_piece = torrent.sha1_pieces.len() - long_sha1;

    assert_eq!(first_piece, torrent.sha1_pieces[..long_sha1]);
    assert_eq!(last_piece, torrent.sha1_pieces[pos_last_piece..]);
    Ok(())
}

#[test]
fn torrent_with_directory_keeps_its_files_and_trackers() {
    let torrent = TorrentFileData::new(multiple_file_dic()).unwrap();
    match &torrent.target_files_data {
        TargetFilesData::MultipleFiles { dir_name, list_of_files_data } => {
            assert_eq!(dir_name, "Big Buck Bunny");
            assert_eq!(list_of_files_data.len(), 3);
            assert_eq!(list_of_files_data[0].path, "/Big Buck Bunny.en.srt");
            assert_eq!(list_of_files_data[2].path, "/extra/poster.jpg");
            assert_eq!(list_of_files_data[1].file_length, 276134947);
        }
        _ => panic!("a torrent with files is a directory"),
    }
    let mut first_tier: Vec<String> = torrent.url_tracker_list[..2].to_vec();
    first_tier.sort();
    assert_eq!(first_tier, vec!["udp://a.org:1".to_string(), "udp://b.org:2".to_string()]);
    assert_eq!(torrent.url_tracker_list[2], "udp://c.org:3");
    assert_eq!(torrent.get_info_hash().len(), 20);
}

#[test]
fn info_hash_is_the_sha1_of_the_bencoded_info() {
    let torrent = TorrentFileData::new(single_file_dic()).unwrap();
    let again = TorrentFileData::new(single_file_dic()).unwrap();
    assert_eq!(torrent.get_info_hash(), again.get_info_hash());
    let other = TorrentFileData::new(desktop_dic()).unwrap();
    assert_ne!(torrent.get_info_hash(), other.get_info_hash());
    assert!(torrent.has_expected_info_hash(&again.get_info_hash()));
    assert!(!torrent.has_expected_info_hash(&other.get_info_hash()));
}

#[test]
fn torrent_errors_name_their_section() {
    let d = dic(vec![("announce", text("x"))]);
    assert_eq!(TorrentFileData::new(d), Err(TorrentFileDataError::NotFound(Section::Info)));
    let d = dic(vec![("announce", text("x")), ("info", text("y"))]);
    assert_eq!(TorrentFileData::new(d), Err(TorrentFileDataError::Format(Section::Info)));
    let d = dic(vec![(
        "info",
        ValuesBencoding::Dic(dic(vec![
            ("length", ValuesBencoding::Integer(10)),
            ("name", text("n")),
            ("piece length", ValuesBencoding::Integer(-1)),
        ])),
    )]);
    assert_eq!(TorrentFileData::new(d), Err(TorrentFileDataError::Creation(Section::Length)));
    let d = dic(vec![(
        "info",
        ValuesBencoding::Dic(dic(vec![
            ("length", ValuesBencoding::Integer(10)),
            ("name", text("n")),
            ("piece length", ValuesBencoding::Integer(4)),
            ("pieces", ValuesBencoding::String(pieces(3))),
        ])),
    )]);
    assert_eq!(TorrentFileData::new(d), Err(TorrentFileDataError::NotFound(Section::Announce)));
    let d = dic(vec![
        ("announce", text("x")),
        ("announce-list", ValuesBencoding::List(vec![text("not a list")])),
        (
            "info",
            ValuesBencoding::Dic(dic(vec![
                ("length", ValuesBencoding::Integer(10)),
                ("name", text("n")),
                ("piece length", ValuesBencoding::Integer(4)),
                ("pieces", ValuesBencoding::String(pieces(3))),
            ])),
        ),
    ]);
    assert_eq!(TorrentFileData::new(d), Err(TorrentFileDataError::Format(Section::TrackerList)));
}

#[test]
fn piece_lengths_and_requests_are_checked() {
    let torrent = TorrentFileData::new(single_file_dic()).unwrap();
    assert_eq!(torrent.calculate_piece_lenght(0), Ok(524288));
    assert_eq!(torrent.calculate_piece_lenght(1145), Ok(600401920 - 524288 * 1145));
    assert!(torrent.check_requested_block(0, 0, 16384).is_ok());
    assert!(torrent.check_requested_block(0, 0, 16385).is_err());
    assert!(torrent.check_requested_block(1145, 86016, 16384).is_err());
    let mut bitfield = vec![PieceStatus::MissingPiece { was_requested: false }; 1152];
    assert!(torrent.check_bitfield(&bitfield).is_ok());
    bitfield[1150] = PieceStatus::ValidAndAvailablePiece;
    assert!(matches!(torrent.check_bitfield(&bitfield), Err(TorrentFileDataError::CheckingBitfield(_))));
    assert!(torrent.check_bitfield(&bitfield[..1000]).is_err());
    assert_eq!(torrent.get_piece_sha1(1146), Vec::<u8>::new());
}

fn expected_message(torrent: &TorrentFileData, ip: &str, port: &str, host: &str) -> String {
    let info_hash = init_info_hash(torrent.get_info_hash());
    let mut msg_get_expected = String::from("GET /announce");
    msg_get_expected.push_str("?info_hash=");
    msg_get_expected.push_str(&info_hash);
    msg_get_expected.push_str("&peer_id=ABCDEFGHIJKLMNOPQRST");
    msg_get_expected.push_str("&ip=");
    msg_get_expected.push_str(ip);
    msg_get_expected.push_str("&port=");
    msg_get_expected.push_str(port);
    msg_get_expected.push_str("&uploaded=0&downloaded=0&left=");
    msg_get_expected.push_str(&torrent.get_total_length().to_string());
    msg_get_expected.push_str("&event=started HTTP/1.0\r\nHost:");
    msg_get_expected.push_str(host);
    msg_get_expected.push_str("\r\n\r\n");
    msg_get_expected
}

#[test]
fn test_creation_file1_ok() {
    let torrent = TorrentFileData::new(desktop_dic()).unwrap();
    let http_handler = HttpHandler::new(TorrentFileData::new(desktop_dic()).unwrap(), "ABCDEFGHIJKLMNOPQRST".to_string()).unwrap();
    let msg_get_expected = expected_message(&torrent, "127.0.0.1", "6881", "torrent.ubuntu.com");
    assert_eq!(http_handler.get_send_msg(), Ok(msg_get_expected))
}

#[test]
fn test_creation_file2_ok() {
    let torrent = TorrentFileData::new(multiple_file_dic()).unwrap();
    let http_handler = HttpHandler::new(TorrentFileData::new(multiple_file_dic()).unwrap(), "ABCDEFGHIJKLMNOPQRST".to_string()).unwrap();
    let msg_get_expected = expected_message(
        &torrent,
        http_handler.msg_get.get_ip().as_str(),
        http_handler.msg_get.get_port().as_str(),
        http_handler.msg_get.get_host().as_str(),
    );
    assert_eq!(http_handler.msg_get.get_host(), "tracker.leechers-paradise.org");
    assert_eq!(http_handler.get_send_msg(), Ok(msg_get_expected))
}

#[test]
fn test_creation_file3_ok() {
    let torrent = TorrentFileData::new(single_file_dic()).unwrap();
    let http_handler = HttpHandler::new(TorrentFileData::new(single_file_dic()).unwrap(), "ABCDEFGHIJKLMNOPQRST".to_string()).unwrap();
    let msg_get_expected = expected_message(
        &torrent,
        http_handler.msg_get.get_ip().as_str(),
        http_handler.msg_get.get_port().as_str(),
        http_handler.msg_get.get_host().as_str(),
    );
    assert_eq!(http_handler.get_host(), "torrent.ubuntu.com");
    assert_eq!(http_handler.get_send_msg(), Ok(msg_get_expected))
}

#[test]
fn test_check_http_code() {
    let torrent = TorrentFileData::new(desktop_dic()).unwrap();
    let http_handler = HttpHandler::new(torrent, "ABCDEFGHIJKLMNOPQRST".to_string()).unwrap();

    let response = http_handler.check_http_code("HTTP/1.1 200 OK".as_bytes());
    assert_eq!(response, Ok(()));

    let response = http_handler.check_http_code("HTTP/1.1 400 NOT FOUND".as_bytes());
    assert_eq!(response, Err(ErrorMsgHttp::HttpDescription("400: NOT FOUND".to_owned())));

    assert_eq!(http_handler.check_http_code(b"HTTP/1.0 200 OK"), Err(ErrorMsgHttp::FormatResponseError));
    assert_eq!(http_handler.check_http_code(b"HTTP/1.1 200"), Err(ErrorMsgHttp::FormatResponseError));
    assert_eq!(http_handler.check_http_code(b"HTTP/1.1 abc OK"), Err(ErrorMsgHttp::FormatResponseError));
}

#[test]
fn tracker_responses_become_dictionaries() {
    let torrent = TorrentFileData::new(desktop_dic()).unwrap();
    let http_handler = HttpHandler::new(torrent, "ABCDEFGHIJKLMNOPQRST".to_string()).unwrap();
    let body = from_dic(dic(vec![("interval", ValuesBencoding::Integer(1800))]));
    let mut response = b"HTTP/1.1 200 OK\r\nContent-Type: text/plain\r\n\r\n".to_vec();
    response.extend_from_slice(&body);
    let d = http_handler.tracker_response_to_dic(response).unwrap();
    assert_eq!(d.get(b"interval"), Some(&ValuesBencoding::Integer(1800)));
    assert_eq!(
        http_handler.tracker_response_to_dic(b"HTTP/1.1 404 Not Found\r\n\r\n".to_vec()),
        Err(ErrorMsgHttp::HttpDescription("404: Not Found".to_string()))
    );
    assert_eq!(
        http_handler.tracker_response_to_dic(b"HTTP/1.1 200 OK\r\n\r\nxx".to_vec()),
        Err(ErrorMsgHttp::ToDicError)
    );
    assert_eq!(http_handler.tracker_response_to_dic(b"HTTP/1.1 200 OK".to_vec()), Err(ErrorMsgHttp::FormatResponseError));
}

#[test]
fn ports_cycle_and_stats_update() {
    let torrent = TorrentFileData::new(desktop_dic()).unwrap();
    let mut http_handler = HttpHandler::new(torrent, "ABCDEFGHIJKLMNOPQRST".to_string()).unwrap();
    for port in 6882..=6889 {
        assert_eq!(http_handler.msg_get.change_port(), Ok(()));
        assert_eq!(http_handler.msg_get.get_port(), port.to_string());
    }
    assert_eq!(http_handler.msg_get.change_port(), Err(ErrorMsgHttp::NoMorePorts));
    assert_eq!(http_handler.msg_get.get_port(), "6881");
    http_handler.update_download_stats(100, 7);
    assert_eq!(http_handler.msg_get.get_downloaded(), "100");
    assert_eq!(http_handler.msg_get.get_uploaded(), "7");
    assert_eq!(http_handler.msg_get.get_left(), (3654957056u64 - 100).to_string());
}

#[test]
fn hosts_need_a_scheme() {
    let d = dic(vec![
        ("announce", text("torrent.ubuntu.com")),
        (
            "info",
            ValuesBencoding::Dic(dic(vec![
                ("length", ValuesBencoding::Integer(10)),
                ("name", text("n")),
                ("piece length", ValuesBencoding::Integer(4)),
                ("pieces", ValuesBencoding::String(pieces(3))),
            ])),
        ),
    ]);
    let torrent = TorrentFileData::new(d).unwrap();
    assert!(matches!(HttpHandler::new(torrent, "p".to_string()), Err(ErrorMsgHttp::NoAnnounce)));
}

#[test]
fn torrents_are_created_from_bytes() {
    let bytes = from_dic(single_file_dic());
    let dic_back = read_torrent_file_to_dic(bytes.clone()).unwrap();
    assert!(torrent_dic_fits(&dic_back));
    let torrent = create_torrent(bytes).unwrap();
    assert_eq!(torrent.get_total_amount_pieces(), 1146);
    assert!(matches!(create_torrent(b"i3e".to_vec()), Err(ClientError::File(MetadataError::TransferToDic(_)))));
    let zero = dic(vec![(
        "info",
        ValuesBencoding::Dic(dic(vec![
            ("length", ValuesBencoding::Integer(10)),
            ("name", text("n")),
            ("piece length", ValuesBencoding::Integer(0)),
        ])),
    )]);
    assert!(!torrent_dic_fits(&zero));
}

#[test]
fn test_get_dic_u64_ok() {
    let dic = dic(vec![
        ("info", ValuesBencoding::Integer(125)),
        ("port", ValuesBencoding::Integer(5091)),
        ("interval", ValuesBencoding::Integer(999)),
        ("complete", ValuesBencoding::Integer(10123)),
        ("final", ValuesBencoding::Integer(6969)),
    ]);
    let interval = get_dic_u64(&dic, "interval", ResponseSection::Interval);
    let complete = get_dic_u64(&dic, "complete", ResponseSection::Complete);
    assert_eq!(interval, Ok(999));
    assert_eq!(complete, Ok(10123));
}

#[test]
fn test_get_dic_u64_error_format() {
    let dic = dic(vec![("port", text("8081"))]);
    let port = get_dic_u64(&dic, "port", ResponseSection::Port);
    assert_eq!(port, Err(ResponseError::Format(ResponseSection::Port)))
}

#[test]
fn test_get_dic_u64_error_not_found() {
    let dic = dic(vec![("port", text("8081"))]);
    let port = get_dic_u64(&dic, "interval", ResponseSection::Interval);
    assert_eq!(port, Err(ResponseError::NotFound(ResponseSection::Interval)))
}

#[test]
fn test_get_dic_string_ok() {
    let dic = dic(vec![
        ("info", text("information")),
        ("port", text("8080")),
        ("interval", text("an interval")),
        ("complete", text("19.99.129")),
        ("final", text("FIN")),
    ]);
    let port = get_dic_string(&dic, "port", ResponseSection::Port);
    let complete = get_dic_string(&dic, "complete", ResponseSection::Complete);
    assert_eq!(port, Ok("8080".as_bytes().to_vec()));
    assert_eq!(complete, Ok("19.99.129".as_bytes().to_vec()));
}

#[test]
fn test_get_dic_string_error_format() {
    let dic = dic(vec![("port", ValuesBencoding::Integer(8081))]);
    let port = get_dic_string(&dic, "port", ResponseSection::Port);
    assert_eq!(port, Err(ResponseError::Format(ResponseSection::Port)))
}

#[test]
fn test_get_dic_string_error_not_found() {
    let dic = dic(vec![("port", text("8081"))]);
    let port = get_dic_string(&dic, "interval", ResponseSection::Interval);
    assert_eq!(port, Err(ResponseError::NotFound(ResponseSection::Interval)))
}

#[test]
fn tracker_responses_are_read() {
    let full = dic(vec![
        ("interval", ValuesBencoding::Integer(1800)),
        ("complete", ValuesBencoding::Integer(3)),
        (
            "peers",
            ValuesBencoding::List(vec![
                ValuesBencoding::Dic(dic(vec![
                    ("ip", text("10.0.0.1")),
                    ("peer id", text("ABCDEFGHIJKLMNOPQRST")),
                    ("port", ValuesBencoding::Integer(6881)),
                ])),
                ValuesBencoding::Dic(dic(vec![("ip", text("10.0.0.2")), ("port", ValuesBencoding::Integer(70000))])),
            ]),
        ),
    ]);
    let response = TrackerResponseData::new(full).unwrap();
    assert_eq!(response.get_total_amount_seeders(), 3);
    assert_eq!(response.get_total_amount_leechers(), 0);
    assert_eq!(response.get_total_amount_peers(), 2);
    assert_eq!(response.get_peer_address(0), Some((PeerIp::Text("10.0.0.1".to_string()), 6881)));
    assert_eq!(response.get_peer_address(1), Some((PeerIp::Text("10.0.0.2".to_string()), 70000u32 as u16)));
    assert!(response.has_expected_peer_id(0, b"ABCDEFGHIJKLMNOPQRST"));
    assert!(!response.has_expected_peer_id(0, b"ZBCDEFGHIJKLMNOPQRST"));
    assert!(response.has_expected_peer_id(1, b"anything"));
    assert!(!response.has_expected_peer_id(2, b"anything"));

    let compact = dic(vec![
        ("interval", ValuesBencoding::Integer(900)),
        ("peers", ValuesBencoding::String(vec![127, 0, 0, 1, 26, 225, 10, 0, 0, 2, 0, 80, 9])),
    ]);
    let response = TrackerResponseData::new(compact).unwrap();
    assert_eq!(response.get_total_amount_peers(), 2);
    assert_eq!(response.get_peer_address(0), Some((PeerIp::V4(127, 0, 0, 1), 6881)));
    assert_eq!(response.get_peer_address(1), Some((PeerIp::V4(10, 0, 0, 2), 80)));

    assert_eq!(
        TrackerResponseData::new(dic(vec![("peers", ValuesBencoding::String(vec![]))])),
        Err(ResponseError::NotFound(ResponseSection::Interval))
    );
    assert_eq!(
        TrackerResponseData::new(dic(vec![("interval", ValuesBencoding::Integer(1)), ("peers", ValuesBencoding::Integer(1))])),
        Err(ResponseError::Format(ResponseSection::Peers))
    );
    assert_eq!(
        TrackerResponseData::new(dic(vec![("interval", ValuesBencoding::Integer(1))])),
        Err(ResponseError::NotFound(ResponseSection::Peers))
    );
    assert_eq!(
        TrackerResponseData::new(dic(vec![
            ("complete", text("x")),
            ("interval", ValuesBencoding::Integer(1)),
        ])),
        Err(ResponseError::Format(ResponseSection::Complete))
    );
}

#[test]
fn torrents_are_named_by_their_file_stem_or_directory() {
    let single = TorrentFileData::new(single_file_dic()).unwrap();
    assert_eq!(single.get_torrent_representative_name(), "ubuntu-14.04.6-server-ppc64el");
    let multiple = TorrentFileData::new(multiple_file_dic()).unwrap();
    assert_eq!(multiple.get_torrent_representative_name(), "Big Buck Bunny");
}

#[test]
fn only_torrent_files_are_read() {
    assert!(check_filename_extension_is_torrent("torrents/ubuntu.iso.torrent"));
    assert!(!check_filename_extension_is_torrent("torrents/ubuntu.iso"));
    assert!(!check_filename_extension_is_torrent("torrent"));
    assert!(!check_filename_extension_is_torrent(".torrent"));
}

#[test]
fn peer_ids_have_the_client_prefix() {
    let id = generate_peer_id();
    assert_eq!(id.len(), 20);
    assert_eq!(&id[..8], b"-FA0000-");
    assert!(id[8..].iter().all(|b| b.is_ascii_alphanumeric()));
}

#[test]
fn only_a_single_file_torrent_is_assembled() {
    let single = TorrentFileData::new(single_file_dic()).unwrap();
    let name = match &single.target_files_data {
        TargetFilesData::SingleFile { file_name, .. } => file_name.clone(),
        TargetFilesData::MultipleFiles { .. } => panic!("a single file torrent"),
    };
    assert_eq!(assembly_target_name(&single), Ok(name));
    let multiple = TorrentFileData::new(multiple_file_dic()).unwrap();
    assert!(matches!(assembly_target_name(&multiple), Err(PiecesAssemblerError::SetUpDownloadDirectory(_))));
}

#[test]
fn refused_bitfields_and_requests_say_why() {
    let torrent = TorrentFileData::new(dic(vec![
        ("announce", text("http://t.org:1/announce")),
        (
            "info",
            ValuesBencoding::Dic(dic(vec![
                ("length", ValuesBencoding::Integer(40000)),
                ("name", text("file")),
                ("piece length", ValuesBencoding::Integer(34000)),
                ("pieces", ValuesBencoding::String(pieces(2))),
            ])),
        ),
    ]))
    .unwrap();
    let past = Err(TorrentFileDataError::CheckingRequestBlock(
        "[TorrentFileDataError] The requested amount of bytes does not match with piece lenght.".to_string(),
    ));
    assert_eq!(torrent.check_requested_block(0, 34000, 1), past);
    assert_eq!(torrent.check_requested_block(0, 32768, 16384), past);
    assert_eq!(torrent.check_requested_block(0, u32::MAX, 1), past);
    assert_eq!(
        torrent.check_requested_block(0, 0, 16385),
        Err(TorrentFileDataError::CheckingRequestBlock(
            "[TorrentFileDataError] The requested amount of bytes is bigger than 2^14 bytes.".to_string()
        ))
    );
    assert_eq!(torrent.check_requested_block(0, 16384, 16384), Ok(()));
    let missing = PieceStatus::MissingPiece { was_requested: false };
    assert_eq!(
        torrent.check_bitfield(&[missing]),
        Err(TorrentFileDataError::CheckingBitfield("[TorrentFileDataError] The bitfield length is incorrect.".to_string()))
    );
    assert_eq!(
        torrent.check_bitfield(&[missing, missing, PieceStatus::ValidAndAvailablePiece]),
        Err(TorrentFileDataError::CheckingBitfield("[TorrentFileDataError] Some of the spare bits are set.".to_string()))
    );
    assert_eq!(torrent.check_bitfield(&[missing, missing, missing]), Ok(()));
    assert_eq!(torrent.get_piece_sha1(usize::MAX), Vec::<u8>::new());
}
