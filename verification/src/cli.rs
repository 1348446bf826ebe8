//! The options of the command-line downloader.

use vstd::prelude::*;

verus! {

/// What the command line asks for: the URL to fetch, the directory to write
/// into (default `.`), an optional file name to use, the number of workers
/// (1 to 255, default 8) and the largest chunk in mebibytes (1 to 100,
/// default 10).
pub struct FurlCliArgs {
    pub url: String,
    pub out: String,
    pub filename: Option<String>,
    pub threads: u8,
    pub chunksize: u8,
}

} // verus!
