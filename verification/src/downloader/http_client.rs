//! The HTTP client that requests are sent through (`reqwest`), and the
//! settings it is built with.

use std::time::Duration;
use reqwest::header::HeaderMap;
use reqwest::{Client, Proxy};
use vstd::prelude::*;

use crate::downloader::error::RequestError;
use crate::downloader::file_request::opt_text;
use crate::downloader::headers::{header_entries, HEADER_LIMIT};

verus! {

#[verifier::external_type_specification]
#[verifier::external_body]
pub struct ExClient(Client);

#[verifier::external_type_specification]
#[verifier::external_body]
pub struct ExReqwestError(reqwest::Error);

/// Whether `reqwest` accepts the text as a proxy address (it parses it as a
/// URL, retrying with `http://` in front when the scheme is missing, and
/// accepts the schemes it can proxy through).
pub uninterp spec fn proxy_accepted(p: Seq<char>) -> bool;

pub struct ClientConfigView {
    pub headers: Map<Seq<u8>, Seq<Seq<u8>>>,
    pub proxy: Option<Seq<char>>,
    pub timeout_secs: u64,
}

/// What a client is built with: the headers sent with every request, the
/// proxy all traffic goes through (none when absent) and the time a request
/// may take, in seconds.
#[derive(Debug)]
pub struct ClientConfig {
    headers: HeaderMap,
    proxy: Option<String>,
    timeout_secs: u64,
}

impl View for ClientConfig {
    type V = ClientConfigView;

    closed spec fn view(&self) -> ClientConfigView {
        ClientConfigView { headers: header_entries(self.headers), proxy: opt_text(self.proxy), timeout_secs: self.timeout_secs }
    }
}

impl ClientConfig {
    pub fn new(headers: HeaderMap, proxy: Option<String>, timeout_secs: u64) -> (c: Self)
        ensures
            c@ == (ClientConfigView { headers: header_entries(headers), proxy: opt_text(proxy), timeout_secs }),
    {
        ClientConfig { headers, proxy, timeout_secs }
    }

    pub fn headers(&self) -> (h: &HeaderMap)
        ensures
            header_entries(*h) == self@.headers,
    {
        &self.headers
    }

    pub fn proxy(&self) -> (p: &Option<String>)
        ensures
            opt_text(*p) == self@.proxy,
    {
        &self.proxy
    }

    pub fn timeout_secs(&self) -> (t: u64)
        ensures
            t == self@.timeout_secs,
    {
        self.timeout_secs
    }
}

/// A client together with the settings it was built with.
#[derive(Debug)]
pub struct HttpClient {
    client: Client,
    config: ClientConfig,
}

impl View for HttpClient {
    type V = ClientConfigView;

    closed spec fn view(&self) -> ClientConfigView {
        self.config@
    }
}

impl HttpClient {
    /// The client, to send requests with.
    pub fn client(&self) -> &Client {
        &self.client
    }

    /// The settings the client was built with.
    pub fn config(&self) -> (c: &ClientConfig)
        ensures
            c@ == self@,
    {
        &self.config
    }
}

/// Builds a `reqwest` client from `config` (`Client::builder`, then
/// `Proxy::all` and `ClientBuilder::proxy` when a proxy is given,
/// `ClientBuilder::default_headers`, `ClientBuilder::timeout`,
/// `ClientBuilder::build`) and keeps the config beside it. The proxy is
/// refused exactly when `reqwest` does not accept its address. Whether the
/// build itself succeeds depends on the machine's TLS backend, so nothing
/// more is said of the other failures. The builder copies the headers one
/// by one into a map that already holds `accept`, so the config may hold at
/// most the names `http` finds room for.
#[verifier::external_body]
pub(crate) fn build_client(config: ClientConfig) -> (r: Result<HttpClient, RequestError>)
    requires
        config@.headers.dom().finite(),
        config@.headers.len() <= HEADER_LIMIT,
    ensures
        r matches Ok(c) ==> c@ == config@,
        (config@.proxy matches Some(p) && !proxy_accepted(p)) <==> (r matches Err(RequestError::Proxy(_))),
        r matches Err(e) ==> !(e is Header),
{
    let mut b = Client::builder();
    if let Some(p) = &config.proxy {
        b = b.proxy(Proxy::all(p.as_str()).map_err(RequestError::Proxy)?);
    }
    let b = b.default_headers(config.headers.clone()).timeout(Duration::from_secs(config.timeout_secs));
    let client = b.build().map_err(RequestError::Client)?;
    Ok(HttpClient { client, config })
}

} // verus!
