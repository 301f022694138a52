//! Verified core of an rtorrent command-line client: SCGI framing, the
//! JSON-RPC calls and replies, reading torrents from multicall rows, list
//! filters, and how sizes, rates and table cells are written.

pub mod cli;
pub mod config;
pub mod error;
pub mod filter;
pub mod format;
pub mod json;
pub mod rpc;
pub mod scgi;
pub mod text;
pub mod torrent;
