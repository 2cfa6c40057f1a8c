//! A request for a file: its address, the headers sent with it and the
//! proxy it goes through.

use reqwest::header::HeaderMap;
use vstd::prelude::*;
use vstd::string::*;

use crate::downloader::error::RequestError;
use crate::downloader::headers::{
    header_entries, header_lookup, header_name, header_room, header_value_ok, headers_clone,
    headers_contains, headers_get, headers_insert, headers_len, headers_new, empty_headers, HeaderError,
    HEADER_LIMIT,
};
use crate::downloader::http_client::{build_client, proxy_accepted, ClientConfig, ClientConfigView, HttpClient};
use crate::downloader::text::{decimal, lemma_parse_decimal, parse_u64, parse_u64_spec};

verus! {

broadcast use vstd::string::group_string_axioms;

/// The text of an optional string.
pub open spec fn opt_text(o: Option<String>) -> Option<Seq<char>> {
    match o {
        Some(s) => Some(s@),
        None => None,
    }
}

/// The name of the header that identifies the client.
pub open spec fn user_agent_name() -> Seq<u8> {
    "user-agent".spec_bytes()
}

/// The client identification sent when the caller gave none.
pub open spec fn default_user_agent() -> Seq<u8> {
    "Mozilla/5.0 (Windows NT 10.0; Win64; x64) AppleWebKit/537.36 (KHTML, like Gecko) Chrome/120.0.0.0 Safari/537.36".spec_bytes()
}

/// The headers a client is made with: those of the request, with the default
/// client identification added when the request has none.
pub open spec fn with_user_agent(h: Map<Seq<u8>, Seq<Seq<u8>>>) -> Map<Seq<u8>, Seq<Seq<u8>>> {
    if header_lookup(h, user_agent_name()) is Some {
        h
    } else {
        h.insert(user_agent_name(), seq![default_user_agent()])
    }
}

/// Adding the default client identification twice adds nothing more: a
/// request that has made a client makes the next one with the same headers.
pub proof fn lemma_user_agent_once(h: Map<Seq<u8>, Seq<Seq<u8>>>)
    ensures
        with_user_agent(with_user_agent(h)) == with_user_agent(h),
        header_lookup(with_user_agent(h), user_agent_name()) is Some,
{
    reveal_strlit("user-agent");
    assert(is_ascii("user-agent"));
    assert(header_name(user_agent_name()) == Some(user_agent_name()));
}

/// The default client identification is added only where none is given: a
/// request that names a client keeps all its headers unchanged; one that
/// does not gains that one header, holding the default alone, and keeps every
/// other header.
pub proof fn lemma_user_agent_only_when_missing(h: Map<Seq<u8>, Seq<Seq<u8>>>, other: Seq<u8>)
    ensures
        header_lookup(h, user_agent_name()) is Some ==> with_user_agent(h) == h,
        header_lookup(h, user_agent_name()) is None ==> header_lookup(with_user_agent(h), user_agent_name()) == Some(default_user_agent()),
        header_lookup(h, user_agent_name()) is None ==> with_user_agent(h)[user_agent_name()] == seq![default_user_agent()],
        header_lookup(h, user_agent_name()) is None && other != user_agent_name() ==> with_user_agent(h).remove(user_agent_name()) == h.remove(user_agent_name())
            && (h.contains_key(other) ==> with_user_agent(h)[other] == h[other]),
        with_user_agent(h).dom() == h.dom().insert(user_agent_name()),
{
    reveal_strlit("user-agent");
    assert(is_ascii("user-agent"));
    assert(header_name(user_agent_name()) == Some(user_agent_name()));
    if header_lookup(h, user_agent_name()) is None {
        assert(with_user_agent(h).remove(user_agent_name()) =~= h.remove(user_agent_name()));
        assert(with_user_agent(h).dom() =~= h.dom().insert(user_agent_name()));
    } else {
        assert(h.dom().insert(user_agent_name()) =~= h.dom());
    }
}

/// What a reply says of the file: a length written in decimal reads back
/// as that size, no length means size 0, and the server counts as able to
/// resume exactly when the reply names byte ranges (`accept-ranges`) or
/// answers with a range (`content-range`).
pub proof fn lemma_size_info_reads_reply(h: Map<Seq<u8>, Seq<Seq<u8>>>, n: u64)
    ensures
        header_lookup(h, "content-length".spec_bytes()) is None ==> (size_info(h) is Some && (size_info(h)->0).0 == 0),
        header_lookup(h, "content-length".spec_bytes()) == Some(decimal(n as nat)) ==> (size_info(h) is Some && (size_info(h)->0).0 == n),
        header_lookup(h, "accept-ranges".spec_bytes()) is Some ==> (size_info(h) matches Some((_, r)) ==> r),
        header_lookup(h, "content-range".spec_bytes()) is Some ==> (size_info(h) matches Some((_, r)) ==> r),
        header_lookup(h, "accept-ranges".spec_bytes()) is None && header_lookup(h, "content-range".spec_bytes()) is None
            ==> (size_info(h) matches Some((_, r)) ==> !r),
{
    lemma_parse_decimal(n);
}

/// The settings a client for the request `v` is built with.
pub open spec fn client_config_for(v: FileRequestView) -> ClientConfigView {
    ClientConfigView { headers: with_user_agent(v.headers), proxy: v.proxy, timeout_secs: REQUEST_TIMEOUT_SECS }
}

/// A second client for a request is built with the same settings as the
/// first: the headers the first call left make the same configuration, and
/// the proxy (so whether it is refused) is unchanged.
pub proof fn lemma_client_config_stable(v: FileRequestView)
    ensures
        client_config_for(FileRequestView { headers: with_user_agent(v.headers), ..v }) == client_config_for(v),
        with_user_agent(with_user_agent(v.headers)) == with_user_agent(v.headers),
{
    lemma_user_agent_once(v.headers);
}

/// What the headers of a reply say of the file: its size (0 when the reply
/// gives no length) and whether the server serves byte ranges. `None` when
/// the length is not a number.
pub open spec fn size_info(h: Map<Seq<u8>, Seq<Seq<u8>>>) -> Option<(u64, bool)> {
    let resumable = header_lookup(h, "accept-ranges".spec_bytes()) is Some
        || header_lookup(h, "content-range".spec_bytes()) is Some;
    match header_lookup(h, "content-length".spec_bytes()) {
        None => Some((0u64, resumable)),
        Some(v) => match parse_u64_spec(v) {
            Some(n) => Some((n, resumable)),
            None => None,
        },
    }
}

/// How long a request may take, in seconds.
pub const REQUEST_TIMEOUT_SECS: u64 = 30;

pub struct FileRequestView {
    pub url: Seq<char>,
    pub headers: Map<Seq<u8>, Seq<Seq<u8>>>,
    pub proxy: Option<Seq<char>>,
}

#[derive(Debug)]
pub struct FileRequest {
    url: String,
    pub headers: HeaderMap,
    proxy: Option<String>,
}

impl View for FileRequest {
    type V = FileRequestView;

    closed spec fn view(&self) -> FileRequestView {
        FileRequestView { url: self.url@, headers: header_entries(self.headers), proxy: opt_text(self.proxy) }
    }
}

pub(crate) fn clone_opt_string(o: &Option<String>) -> (r: Option<String>)
    ensures
        opt_text(r) == opt_text(*o),
{
    match o {
        Some(s) => Some(s.clone()),
        None => None,
    }
}

impl Clone for FileRequest {
    fn clone(&self) -> (r: Self)
        ensures
            r@ == self@,
    {
        FileRequest { url: self.url.clone(), headers: headers_clone(&self.headers), proxy: clone_opt_string(&self.proxy) }
    }
}

impl FileRequest {
    /// A request for `url`, with no header and no proxy.
    pub fn new(url: &str) -> (r: Self)
        ensures
            r@.url == url@,
            r@.headers == empty_headers(),
            r@.headers.dom().finite(),
            r@.proxy is None,
    {
        FileRequest { url: String::from_str(url), headers: headers_new(), proxy: None }
    }

    /// The address the request is for.
    pub fn url(&self) -> (u: &str)
        ensures
            u@ == self@.url,
    {
        self.url.as_str()
    }

    /// The headers sent with the request.
    pub fn headers(&self) -> (h: &HeaderMap)
        ensures
            header_entries(*h) == self@.headers,
    {
        &self.headers
    }

    /// The number of header names the request holds; it has room for one
    /// more exactly when the count is below `HEADER_LIMIT`.
    pub fn header_count(&self) -> (n: usize)
        ensures
            n == self@.headers.len(),
            header_room(self@.headers) <==> n < HEADER_LIMIT,
    {
        headers_len(&self.headers)
    }

    /// Sets the header `key` to `value`, replacing what it held. Fails when
    /// the name or the value is not valid, and then changes nothing.
    pub fn insert_header(&mut self, key: &str, value: &str) -> (r: Result<(), HeaderError>)
        requires
            header_room(old(self)@.headers),
        ensures
            final(self)@.url == old(self)@.url,
            final(self)@.proxy == old(self)@.proxy,
            header_name(key.spec_bytes()) is None ==> (r is Err && r->Err_0 == HeaderError::InvalidName),
            header_name(key.spec_bytes()) is Some && !header_value_ok(value.spec_bytes()) ==> (r is Err && r->Err_0 == HeaderError::InvalidValue),
            header_name(key.spec_bytes()) is Some && header_value_ok(value.spec_bytes()) ==> r is Ok,
            r is Ok ==> final(self)@.headers == old(self)@.headers.insert(header_name(key.spec_bytes())->0, seq![value.spec_bytes()]),
            r is Err ==> final(self)@.headers == old(self)@.headers,
    {
        headers_insert(&mut self.headers, key.as_bytes(), value.as_bytes())
    }

    /// Sets the header `key` to the bytes `value`; as `insert_header`.
    pub(crate) fn insert_header_bytes(&mut self, key: &[u8], value: &[u8]) -> (r: Result<(), HeaderError>)
        requires
            header_room(old(self)@.headers),
        ensures
            final(self)@.url == old(self)@.url,
            final(self)@.proxy == old(self)@.proxy,
            header_name(key@) is Some && header_value_ok(value@) ==> r is Ok,
            r is Ok ==> final(self)@.headers == old(self)@.headers.insert(header_name(key@)->0, seq![value@]),
            r is Err ==> final(self)@.headers == old(self)@.headers,
    {
        headers_insert(&mut self.headers, key, value)
    }

    /// Replaces the headers of the request.
    pub fn set_headers(&mut self, headers: HeaderMap)
        ensures
            final(self)@.url == old(self)@.url,
            final(self)@.proxy == old(self)@.proxy,
            final(self)@.headers == header_entries(headers),
    {
        self.headers = headers;
    }

    /// Sends the request through the proxy at `proxy`.
    pub fn set_proxy(&mut self, proxy: &str)
        ensures
            final(self)@.url == old(self)@.url,
            final(self)@.headers == old(self)@.headers,
            final(self)@.proxy == Some(proxy@),
    {
        self.proxy = Some(String::from_str(proxy));
    }

    /// The settings a client for the request is made with: the request's
    /// headers, with the default client identification added to the request
    /// (and so to the settings) when it has none, its proxy, and the request
    /// timeout.
    pub fn client_config(&mut self) -> (c: ClientConfig)
        requires
            header_room(old(self)@.headers),
        ensures
            final(self)@.url == old(self)@.url,
            final(self)@.proxy == old(self)@.proxy,
            final(self)@.headers == with_user_agent(old(self)@.headers),
            c@ == client_config_for(old(self)@),
    {
        if !headers_contains(&self.headers, "user-agent") {
            let ua = "Mozilla/5.0 (Windows NT 10.0; Win64; x64) AppleWebKit/537.36 (KHTML, like Gecko) Chrome/120.0.0.0 Safari/537.36";
            let name = "user-agent";
            proof {
                reveal_strlit("Mozilla/5.0 (Windows NT 10.0; Win64; x64) AppleWebKit/537.36 (KHTML, like Gecko) Chrome/120.0.0.0 Safari/537.36");
                reveal_strlit("user-agent");
                assert(is_ascii(ua));
                assert(is_ascii(name));
                assert(header_value_ok(ua.spec_bytes()));
                assert(header_name(name.spec_bytes()) == Some(name.spec_bytes()));
            }
            let _ = headers_insert(&mut self.headers, name.as_bytes(), ua.as_bytes());
        }
        ClientConfig::new(headers_clone(&self.headers), clone_opt_string(&self.proxy), REQUEST_TIMEOUT_SECS)
    }

    /// Makes the client that sends the request, built with
    /// `client_config`: the request's headers (with the default client
    /// identification when they have none), its proxy and the request
    /// timeout. Fails when the proxy address is refused or the client cannot
    /// be built.
    pub fn create_client(&mut self) -> (r: Result<HttpClient, RequestError>)
        requires
            header_room(old(self)@.headers),
        ensures
            final(self)@.url == old(self)@.url,
            final(self)@.proxy == old(self)@.proxy,
            final(self)@.headers == with_user_agent(old(self)@.headers),
            r matches Ok(c) ==> c@ == client_config_for(old(self)@),
            (old(self)@.proxy matches Some(p) && !proxy_accepted(p)) <==> (r matches Err(RequestError::Proxy(_))),
            r matches Err(e) ==> !(e is Header),
    {
        let config = self.client_config();
        proof {
            assert(config@.headers.dom().finite());
            assert(config@.headers.len() <= old(self)@.headers.len() + 1);
        }
        build_client(config)
    }

    /// Reads the headers of the reply to a request for the file: the size
    /// of the file (0 when no length is given) and whether the server can
    /// resume, that is serves byte ranges. `None` when the length is not a
    /// number.
    pub fn size_from_headers(headers: &HeaderMap) -> (r: Option<(u64, bool)>)
        ensures
            r == size_info(header_entries(*headers)),
    {
        let resumable = headers_contains(headers, "accept-ranges") || headers_contains(headers, "content-range");
        match headers_get(headers, "content-length") {
            None => Some((0, resumable)),
            Some(v) => match parse_u64(v.as_slice()) {
                Some(n) => Some((n, resumable)),
                None => None,
            },
        }
    }
}

} // verus!
