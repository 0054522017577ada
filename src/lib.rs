//! Reader for the index of ARZ game database archives: a fixed header, a pool
//! of interned strings and a table of records that point into that pool.

pub mod cli;
pub mod format;
pub mod laws;
pub mod reader;
pub mod stream;

pub use format::{Entry, Error, Header};
pub use reader::Reader;
pub use stream::{ByteStream, IoError};
