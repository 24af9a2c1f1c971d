//! The client's data of a torrent: its .torrent file and the state of its download.

pub mod torrent_file_data;
pub mod torrent_status;
pub mod data_of_download;
pub mod peer_data;
pub mod tracker_response_data;
pub mod http_handler;
pub mod metadata;
pub mod logger;
pub mod port;
pub mod messages;
pub mod block_handler;
pub mod peer_session;
pub mod peer_id;
pub mod coordination;
pub mod errors;
