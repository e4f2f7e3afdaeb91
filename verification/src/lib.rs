//! Wire format, incremental frame reader and connection logic of the Orzatty
//! multiplexing protocol.

pub mod auth;
pub mod buffer;
pub mod error;
pub mod frame;
pub mod framer;
pub mod governor;
pub mod varint;
