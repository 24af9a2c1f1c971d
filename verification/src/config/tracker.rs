//! The tracker's configuration: the number of worker threads and the directory of torrents.

use vstd::prelude::*;
use super::{
    parse_config_lines, lookup_entry, spec_entries, spec_lines_well_formed, spec_lookup,
    spec_texts, ConfigFailure,
};
use crate::numbers::{parse_number_text, spec_parse_unsigned_text};

verus! {

/// The key of the directory of torrents.
pub const TORRENTS_PATH: &'static str = "torrents_path";

/// The key of the number of threads.
pub const NUMBER_THREADS: &'static str = "number_of_threads";

/// The tracker's configuration.
#[derive(Debug, PartialEq, Eq, Clone)]
pub struct ConfigFileData {
    pub number_of_threads: usize,
    pub torrents_path: String,
}

/// What can go wrong with the tracker's configuration file.
#[derive(Debug, PartialEq, Eq)]
pub enum ConfigFileDataError {
    FileNotFound,
    BadSize,
    ThreadsNotANumber,
    MissingThreads,
    BadLine,
    InvalidFormat,
    MissingPath(String),
}

impl ConfigFileDataError {
    /// This error as a value.
    pub open spec fn failure(&self) -> ConfigFailure {
        match self {
            ConfigFileDataError::FileNotFound => ConfigFailure::FileNotFound,
            ConfigFileDataError::BadSize => ConfigFailure::BadSize,
            ConfigFileDataError::ThreadsNotANumber => ConfigFailure::NotANumber,
            ConfigFileDataError::MissingThreads => ConfigFailure::MissingNumber,
            ConfigFileDataError::BadLine => ConfigFailure::BadLine,
            ConfigFileDataError::InvalidFormat => ConfigFailure::InvalidFormat,
            ConfigFileDataError::MissingPath(p) => ConfigFailure::MissingPath(p@),
        }
    }
}

/// The tracker's configuration from the lines of its file, as number of threads and
/// directory of torrents: two `key value` lines with the keys `number_of_threads` and
/// `torrents_path`, the number of threads a number that fits a `usize`.
pub open spec fn spec_tracker_config(lines: Seq<Seq<char>>) -> Result<(int, Seq<char>), ConfigFailure> {
    if lines.len() != 2 {
        Err(ConfigFailure::BadSize)
    } else if !spec_lines_well_formed(lines) {
        Err(ConfigFailure::InvalidFormat)
    } else {
        let entries = spec_entries(lines);
        match spec_lookup(entries, NUMBER_THREADS@) {
            None => Err(ConfigFailure::MissingNumber),
            Some(t) => match spec_parse_unsigned_text(t, usize::MAX as int) {
                None => Err(ConfigFailure::NotANumber),
                Some(threads) => match spec_lookup(entries, TORRENTS_PATH@) {
                    None => Err(ConfigFailure::MissingPath(TORRENTS_PATH@)),
                    Some(path) => Ok((threads, path)),
                },
            },
        }
    }
}

impl ConfigFileData {
    /// The configuration from the lines of the tracker's configuration file: each line is
    /// `key value`, with the keys `number_of_threads` and `torrents_path`.
    pub fn new(lines: Vec<String>) -> (res: Result<ConfigFileData, ConfigFileDataError>)
        ensures
            match spec_tracker_config(spec_texts(lines@)) {
                Ok((threads, path)) => res matches Ok(c) && c.number_of_threads == threads
                    && c.torrents_path@ == path,
                Err(f) => res matches Err(e) && e.failure() == f,
            },
    {
        if lines.len() != 2 {
            return Err(ConfigFileDataError::BadSize);
        }
        let entries = match parse_config_lines(&lines) {
            Some(entries) => entries,
            None => return Err(ConfigFileDataError::InvalidFormat),
        };
        let ghost texts = spec_texts(lines@);
        assert(entries@.map_values(|e: (String, String)| (e.0@, e.1@)) =~= spec_entries(texts));
        let number_of_threads = match lookup_entry(&entries, NUMBER_THREADS) {
            None => return Err(ConfigFileDataError::MissingThreads),
            Some(t) => match parse_number_text(&t, usize::MAX as u64) {
                None => return Err(ConfigFileDataError::ThreadsNotANumber),
                Some(v) => v as usize,
            },
        };
        let torrents_path = match lookup_entry(&entries, TORRENTS_PATH) {
            None => return Err(ConfigFileDataError::MissingPath(String::from_str(TORRENTS_PATH))),
            Some(p) => p,
        };
        Ok(ConfigFileData { number_of_threads, torrents_path })
    }

    /// The number of worker threads.
    pub fn get_number_of_threads(&self) -> (res: usize)
        ensures
            res == self.number_of_threads,
    {
        self.number_of_threads
    }

    /// The directory of torrents.
    pub fn get_torrents_path(&self) -> (res: String)
        ensures
            res@ == self.torrents_path@,
    {
        self.torrents_path.clone()
    }
}

} // verus!
