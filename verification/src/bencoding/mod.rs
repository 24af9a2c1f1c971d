//! Bencoding: the encoding of .torrent files and tracker responses.

pub mod values;
pub mod encoder;
pub mod decoder;
pub mod laws;
