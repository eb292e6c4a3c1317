//! Interchange layer for the `vcat` command line: schema-shaped parameter
//! records, a growable array container with an explicit ownership-transfer
//! discipline, and the exact parsers that fill the record from user input.

pub mod cli;
pub mod protocol;
pub mod shared;
pub mod text;
pub mod util;
