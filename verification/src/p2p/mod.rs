//! The peer wire protocol: messages, their byte encoding and decoding.

pub mod constants;
pub mod message;
pub mod decoder;
pub mod encoder;
pub mod laws;
