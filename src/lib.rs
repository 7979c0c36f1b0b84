//! A structural editor for PNG-style chunk streams: typed, checksummed
//! records behind a fixed signature, parsed, edited and written back.

pub mod chunk_type;
pub mod chunk;
pub mod png;
pub mod commands;
pub mod args;
mod text;
