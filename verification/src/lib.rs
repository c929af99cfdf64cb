//! A terminal text editor core: rows of text with incremental syntax
//! highlighting, cursor and viewport bookkeeping, raw-byte key decoding,
//! incremental search, and an atomic save protocol.
//!
//! Everything here is pure logic over byte sequences; the surrounding
//! binary supplies the terminal I/O and the file system.

pub mod editor;
pub mod keys;
pub mod messages;
pub mod prompt;
pub mod render;
pub mod row;
pub mod storage;
pub mod syntax;
