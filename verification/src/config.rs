//! The configuration file's settings.
use vstd::prelude::*;

verus! {

/// Settings read from the configuration file.
#[derive(Debug)]
pub struct Config {
    pub url: Option<String>,
}

impl Config {
    /// The settings when there is no usable configuration file.
    pub fn empty() -> (c: Config)
        ensures
            c.url is None,
    {
        Config { url: None }
    }
}

/// The address to use: the one given on the command line (or in the
/// environment) wins over the configuration file's.
pub fn choose_url(cli_url: Option<String>, config: Config) -> (url: Option<String>)
    ensures
        url == (match cli_url {
            Some(u) => Some(u),
            None => config.url,
        }),
{
    match cli_url {
        Some(u) => Some(u),
        None => config.url,
    }
}

} // verus!
