//! Random-access line retrieval for newline-delimited text.
//!
//! A source file is an ordered sequence of lines, each a maximal run of bytes
//! up to and including a newline byte, or a final unterminated run ending at
//! end of file.  An index for such a file is a sequence of fixed-width
//! records, one per line, in line order: record `i` holds the byte offset
//! just past the end of line `i`, as an unsigned 64-bit big-endian integer.
//!
//! The crate holds the verified core of the tool: the record codec
//! ([`records`]), the mathematical model of lines and offsets ([`lines`]),
//! the forward scan that builds an index ([`indexer`]), the seek arithmetic
//! and line retrieval ([`fetch`]), and the mode selection of the command
//! surface ([`args`]).  Opening, reading and writing the actual files is the
//! caller's business; every function here works on plain values.

pub mod args;
pub mod fetch;
pub mod indexer;
pub mod lines;
pub mod records;
