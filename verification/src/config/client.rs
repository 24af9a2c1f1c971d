//! The client's configuration: the port it listens on and its download and log directories.

use vstd::prelude::*;
use super::{
    parse_config_lines, lookup_entry, spec_entries, spec_lines_well_formed, spec_lookup,
    spec_texts, ConfigFailure,
};
use crate::numbers::{parse_number_text, spec_parse_unsigned_text};

verus! {

/// The key of the port.
pub const PORT: &'static str = "port";

/// The key of the download directory.
pub const DOWNLOAD: &'static str = "download";

/// The key of the log directory.
pub const LOGS: &'static str = "logs";

/// The client's configuration.
#[derive(Debug, PartialEq, Eq, Clone)]
pub struct ConfigFileData {
    pub port: u32,
    pub log_path: String,
    pub download_path: String,
}

/// What can go wrong with the client's configuration file.
#[derive(Debug, PartialEq, Eq)]
pub enum ConfigFileDataError {
    FileNotFound,
    BadSize,
    PortNotANumber,
    BadLine,
    InvalidFormat,
    MissingPort,
    MissingPath(String),
}

impl ConfigFileDataError {
    /// This error as a value.
    pub open spec fn failure(&self) -> ConfigFailure {
        match self {
            ConfigFileDataError::FileNotFound => ConfigFailure::FileNotFound,
            ConfigFileDataError::BadSize => ConfigFailure::BadSize,
            ConfigFileDataError::PortNotANumber => ConfigFailure::NotANumber,
            ConfigFileDataError::BadLine => ConfigFailure::BadLine,
            ConfigFileDataError::InvalidFormat => ConfigFailure::InvalidFormat,
            ConfigFileDataError::MissingPort => ConfigFailure::MissingNumber,
            ConfigFileDataError::MissingPath(p) => ConfigFailure::MissingPath(p@),
        }
    }
}

/// The client's configuration from the lines of its file, as port, log directory and
/// download directory: three `key value` lines with the keys `port`, `logs` and `download`,
/// the port a number that fits a `u32`.
pub open spec fn spec_client_config(lines: Seq<Seq<char>>) -> Result<(int, Seq<char>, Seq<char>), ConfigFailure> {
    if lines.len() != 3 {
        Err(ConfigFailure::BadSize)
    } else if !spec_lines_well_formed(lines) {
        Err(ConfigFailure::InvalidFormat)
    } else {
        let entries = spec_entries(lines);
        match spec_lookup(entries, PORT@) {
            None => Err(ConfigFailure::MissingNumber),
            Some(p) => match spec_parse_unsigned_text(p, u32::MAX as int) {
                None => Err(ConfigFailure::NotANumber),
                Some(port) => match spec_lookup(entries, LOGS@) {
                    None => Err(ConfigFailure::MissingPath(LOGS@)),
                    Some(logs) => match spec_lookup(entries, DOWNLOAD@) {
                        None => Err(ConfigFailure::MissingPath(DOWNLOAD@)),
                        Some(download) => Ok((port, logs, download)),
                    },
                },
            },
        }
    }
}

impl ConfigFileData {
    /// The configuration from the lines of the client's configuration file: each line is
    /// `key value`, with the keys `port`, `download` and `logs`, for example
    /// `port 6881`.
    pub fn new(lines: Vec<String>) -> (res: Result<ConfigFileData, ConfigFileDataError>)
        ensures
            match spec_client_config(spec_texts(lines@)) {
                Ok((port, logs, download)) => res matches Ok(c) && c.port == port && c.log_path@
                    == logs && c.download_path@ == download,
                Err(f) => res matches Err(e) && e.failure() == f,
            },
    {
        if lines.len() != 3 {
            return Err(ConfigFileDataError::BadSize);
        }
        let entries = match parse_config_lines(&lines) {
            Some(entries) => entries,
            None => return Err(ConfigFileDataError::InvalidFormat),
        };
        let ghost texts = spec_texts(lines@);
        assert(entries@.map_values(|e: (String, String)| (e.0@, e.1@)) =~= spec_entries(texts));
        let port = match lookup_entry(&entries, PORT) {
            None => return Err(ConfigFileDataError::MissingPort),
            Some(p) => match parse_number_text(&p, 4294967295u64) {
                None => return Err(ConfigFileDataError::PortNotANumber),
                Some(v) => v as u32,
            },
        };
        let log_path = match lookup_entry(&entries, LOGS) {
            None => return Err(ConfigFileDataError::MissingPath(String::from_str(LOGS))),
            Some(p) => p,
        };
        let download_path = match lookup_entry(&entries, DOWNLOAD) {
            None => return Err(ConfigFileDataError::MissingPath(String::from_str(DOWNLOAD))),
            Some(p) => p,
        };
        Ok(ConfigFileData { port, log_path, download_path })
    }

    /// The port.
    pub fn get_port(&self) -> (res: u32)
        ensures
            res == self.port,
    {
        self.port
    }

    /// The log directory.
    pub fn get_log_path(&self) -> (res: String)
        ensures
            res@ == self.log_path@,
    {
        self.log_path.clone()
    }

    /// The download directory.
    pub fn get_download_path(&self) -> (res: String)
        ensures
            res@ == self.download_path@,
    {
        self.download_path.clone()
    }
}

} // verus!
