//! The tracker: what peers announce, the torrents it knows and the answers it gives.

pub mod peer_info;
pub mod torrent_info;
pub mod json;
pub mod communication;
pub mod laws;
pub mod announce_laws;

use vstd::prelude::*;
use communication::CommunicationError;

verus! {

/// What can stop the tracker.
#[derive(PartialEq, Eq, Debug)]
pub enum TrackerError {
    UnlockingMutexOfTorrents,
    JoiningQuitInput,
    CommsError(CommunicationError),
    NotFoundTorrents,
    NotFoundTorrentsDirectory,
    Folder(String),
    CreatingTorrent(String),
}

/// What can go wrong handing a job to a worker thread.
#[derive(Debug)]
pub enum ThreadPoolError {
    SendingJobToWorkerError(String),
}

} // verus!
