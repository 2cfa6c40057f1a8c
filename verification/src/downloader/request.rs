//! A request for a file built by chaining: each header is added by value,
//! and only the size of the file is read from a reply.

use reqwest::header::HeaderMap;
use vstd::prelude::*;
use vstd::string::*;

use crate::downloader::error::RequestError;
use crate::downloader::file_request::{self, client_config_for, size_info, with_user_agent, FileRequestView};
use crate::downloader::headers::{empty_headers, header_entries, header_name, header_room, header_value_ok, HeaderError, HEADER_LIMIT};
use crate::downloader::http_client::{proxy_accepted, HttpClient};

verus! {

/// The size that a reply's headers give for the file: 0 when they give no
/// length, `None` when the length is not a number.
pub open spec fn size_of(h: Map<Seq<u8>, Seq<Seq<u8>>>) -> Option<u64> {
    match size_info(h) {
        Some((n, _)) => Some(n),
        None => None,
    }
}

pub struct FileRequest {
    inner: file_request::FileRequest,
}

impl View for FileRequest {
    type V = FileRequestView;

    closed spec fn view(&self) -> FileRequestView {
        self.inner@
    }
}

impl FileRequest {
    /// A request for `url`, with no header and no proxy.
    pub fn new(url: &str) -> (r: Self)
        ensures
            r@.url == url@,
            r@.headers == empty_headers(),
            r@.headers.dom().finite(),
            r@.proxy is None,
    {
        FileRequest { inner: file_request::FileRequest::new(url) }
    }

    /// The address the request is for.
    pub fn url(&self) -> (u: &str)
        ensures
            u@ == self@.url,
    {
        self.inner.url()
    }

    /// The headers sent with the request.
    pub fn headers(&self) -> (h: &HeaderMap)
        ensures
            header_entries(*h) == self@.headers,
    {
        self.inner.headers()
    }

    /// The number of header names the request holds; it has room for one
    /// more exactly when the count is below `HEADER_LIMIT`.
    pub fn header_count(&self) -> (n: usize)
        ensures
            n == self@.headers.len(),
            header_room(self@.headers) <==> n < HEADER_LIMIT,
    {
        self.inner.header_count()
    }

    /// The request with the header `key` set to `value`; fails when the name
    /// or the value is not valid.
    pub fn insert_header(self, key: &str, value: &str) -> (r: Result<Self, HeaderError>)
        requires
            header_room(self@.headers),
        ensures
            header_name(key.spec_bytes()) is None ==> (r is Err && r->Err_0 == HeaderError::InvalidName),
            header_name(key.spec_bytes()) is Some && !header_value_ok(value.spec_bytes()) ==> (r is Err && r->Err_0 == HeaderError::InvalidValue),
            header_name(key.spec_bytes()) is Some && header_value_ok(value.spec_bytes()) ==> r is Ok,
            r matches Ok(q) ==> q@ == (FileRequestView {
                headers: self@.headers.insert(header_name(key.spec_bytes())->0, seq![value.spec_bytes()]),
                ..self@
            }),
    {
        let mut s = self;
        match s.inner.insert_header(key, value) {
            Ok(()) => Ok(s),
            Err(e) => Err(e),
        }
    }

    /// Makes the client that sends the request; as
    /// `file_request::FileRequest::create_client`.
    pub fn create_client(&mut self) -> (r: Result<HttpClient, RequestError>)
        requires
            header_room(old(self)@.headers),
        ensures
            final(self)@.url == old(self)@.url,
            final(self)@.proxy == old(self)@.proxy,
            final(self)@.headers == with_user_agent(old(self)@.headers),
            r matches Ok(c) ==> c@ == client_config_for(old(self)@),
            (old(self)@.proxy matches Some(p) && !proxy_accepted(p)) <==> (r matches Err(RequestError::Proxy(_))),
            r matches Err(e) ==> !(e is Header),
    {
        self.inner.create_client()
    }

    /// The size of the file that the headers of a reply give (0 when they
    /// give no length); `None` when the length is not a number.
    pub fn size_from_headers(headers: &HeaderMap) -> (r: Option<u64>)
        ensures
            r == size_of(header_entries(*headers)),
    {
        match file_request::FileRequest::size_from_headers(headers) {
            Some((n, _)) => Some(n),
            None => None,
        }
    }
}

} // verus!
