//! The Redis serialization protocol (RESP): reading commands, writing replies.
pub mod parser;
pub mod writer;
pub mod round_trip;
