//! Socket ownership from a captured view of a Linux procfs.
//!
//! The library works on plain values: the names and link targets found under
//! the process directories and the bytes of the kernel's socket tables. From
//! them it builds an index of socket inodes, reads the table rows, decodes the
//! packed addresses and joins every row to the process that owns its socket.
//! The functions here are verified against contracts over byte sequences.
//! Two calls are trusted, not verified: the call into `data_encoding`'s
//! base-16 decoder in `address` and the call of `core::str::from_utf8` in
//! `text`. Each stands in a function of its own whose body is the call and
//! whose contract says what is believed of it.
//!
//! - `text` and `number` split bytes into lines and fields and read and
//!   render numbers.
//! - `address` decodes the packed `ADDRESS:PORT` fields.
//! - `inodes` builds the index from sockets to the descriptors that hold
//!   them.
//! - `table` reads the rows of a socket table.
//! - `connections` assembles the connections that a request asks for.
//! - `cpu` reads the processor times of the `stat` file.

pub mod address;
pub mod connections;
pub mod cpu;
pub mod inodes;
pub mod number;
pub mod table;
pub mod text;

pub use connections::{ConnType, Connections};
pub use cpu::CpuTime;
