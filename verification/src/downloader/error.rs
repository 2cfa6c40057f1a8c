//! The errors of the library.

use crate::downloader::headers::HeaderError;
use vstd::prelude::*;

verus! {

/// Why a client for a request could not be made.
#[derive(Debug)]
pub enum RequestError {
    /// A header could not be stored.
    Header(HeaderError),
    /// The proxy address was refused.
    Proxy(reqwest::Error),
    /// The client could not be built.
    Client(reqwest::Error),
}

} // verus!
