//! A BitTorrent client and tracker library: the peer wire protocol, bencoding,
//! metainfo and tracker data, download bookkeeping and the tracker's announce logic.

pub mod p2p;
pub mod bencoding;
pub mod urlencoding;
pub mod numbers;
pub mod config;
pub mod tracker;
pub mod torrent;
