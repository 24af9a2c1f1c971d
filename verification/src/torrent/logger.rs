//! Where the client writes the log of a torrent.

use vstd::prelude::*;
use vstd::string::*;

verus! {

/// What can go wrong with the log.
#[derive(Debug, PartialEq, Eq, Clone)]
pub enum LogError {
    CanNotCreateFile,
    CanNotWrite,
    CanNotCloseFile,
    CanNotOpenFile(String),
    CanNotJoin,
}

/// The log of a torrent: the path of its file.
#[derive(Debug, PartialEq, Clone, Eq)]
pub struct Logger {
    log_path: String,
}

/// What follows the torrent's name in the name of its log file.
pub const LOG_SUFFIX: &'static str = "-logs.txt";

impl Logger {
    /// The path of the log file.
    pub closed spec fn path(&self) -> Seq<char> {
        self.log_path@
    }

    /// The log of a torrent, in the file `<log_path_dir>/<torrent_name>-logs.txt`.
    pub fn new(log_path_dir: String, torrent_name: String) -> (res: Result<Logger, LogError>)
        ensures
            res matches Ok(l) && l.path() == log_path_dir@ + seq!['/'] + torrent_name@ + LOG_SUFFIX@,
    {
        let mut log_path = log_path_dir;
        proof {
            reveal_strlit("/");
        }
        log_path.append("/");
        log_path.append(torrent_name.as_str());
        log_path.append(LOG_SUFFIX);
        Ok(Logger { log_path })
    }

    /// The path of the log file.
    pub fn get_log_path(&self) -> (res: String)
        ensures
            res@ == self.path(),
    {
        self.log_path.clone()
    }
}

} // verus!
