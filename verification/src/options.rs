//! Start-up configuration handed to every request.

use vstd::prelude::*;

verus! {

/// Where the server listens and where file-backed routes keep their files.
/// The core carries these values along and never interprets them.
#[derive(Debug, Clone)]
pub struct Options {
    pub host: String,
    pub port: u16,
    pub files_directory: String,
}

} // verus!
