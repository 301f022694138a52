//! The command line: global options and the subcommands.
use vstd::prelude::*;

verus! {

/// The parsed command line.
#[derive(Debug)]
pub struct Cli {
    /// rtorrent SCGI URL (Unix socket path or host:port).
    pub url: Option<String>,
    /// Maximum table width in columns; 0 means unlimited, none means the terminal's width.
    pub width: Option<u16>,
    pub command: Command,
}

/// What the user asked for.
#[derive(Debug)]
#[allow(inconsistent_fields)]
pub enum Command {
    /// List all torrents, optionally as JSON, filtered by name and by `KEY=VALUE` filters.
    List { json: bool, filter: Option<String>, filter_by: Vec<String> },
    /// Show one torrent's details, found by hash or hash prefix.
    Show { hash: String, json: bool },
    /// Add a torrent from a `.torrent` file.
    Add { torrent: String, download_location: Option<String>, start: bool, hash: bool },
    /// Start an existing torrent.
    Start { hash: String },
    /// Stop an existing torrent.
    Stop { hash: String },
    /// Remove a torrent from rtorrent.
    Rm { hash: String },
    /// Force a hash check of a torrent.
    Rehash { hash: String },
    /// Show global statistics.
    Stats { json: bool },
}

} // verus!
