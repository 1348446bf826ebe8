//! Core of a parallel HTTP downloader: reading the file name and size out of
//! response headers, naming the output file, and cutting the download into
//! byte-range chunks for concurrent workers.

pub mod address;
pub mod chunks;
pub mod cli;
pub mod engine;
pub mod header_map;
pub mod headers;
pub mod text;

pub use address::{extract_filename_from_url, is_valid_url};
pub use chunks::Chunk;
pub use cli::FurlCliArgs;
pub use engine::Downloader;
pub use headers::{HeaderError, HeaderUtils};
