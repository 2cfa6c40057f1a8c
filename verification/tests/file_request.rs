use easy_download::downloader::error::RequestError;
use easy_download::downloader::file_request::FileRequest;
use easy_download::downloader::headers::HeaderError;
use reqwest::header::{HeaderMap, HeaderValue, ACCEPT_RANGES, CONTENT_LENGTH, CONTENT_RANGE, RANGE, USER_AGENT};

static URL: &str = "https://www.voidtools.com/Everything-1.4.1.1024.x64.Lite-Setup.exe";

const DEFAULT_UA: &str = "Mozilla/5.0 (Windows NT 10.0; Win64; x64) AppleWebKit/537.36 (KHTML, like Gecko) Chrome/120.0.0.0 Safari/537.36";

#[test]
fn new_request_has_no_header() {
    let req = FileRequest::new(URL);
    assert_eq!(req.url(), URL);
    assert!(req.headers.is_empty());
}

#[test]
fn insert_header_stores_canonical_name() {
    let mut req = FileRequest::new(URL);
    assert_eq!(req.insert_header("Range", "bytes=0-9"), Ok(()));
    assert_eq!(req.headers.get(RANGE).unwrap(), "bytes=0-9");
    assert_eq!(req.insert_header(RANGE.as_str(), "bytes=10-19"), Ok(()));
    assert_eq!(req.headers.len(), 1);
    assert_eq!(req.headers.get("range").unwrap(), "bytes=10-19");
}

#[test]
fn insert_header_refuses_bad_name_and_value() {
    let mut req = FileRequest::new(URL);
    assert_eq!(req.insert_header("bad name", "x"), Err(HeaderError::InvalidName));
    assert_eq!(req.insert_header("", "x"), Err(HeaderError::InvalidName));
    assert_eq!(req.insert_header("x-test", "line\nbreak"), Err(HeaderError::InvalidValue));
    assert!(req.headers.is_empty());
}

#[test]
fn create_client_adds_default_user_agent() {
    let mut req = FileRequest::new(URL);
    let client = req.create_client().unwrap();
    assert_eq!(req.headers.get(USER_AGENT).unwrap(), DEFAULT_UA);
    let config = client.config();
    assert_eq!(config.headers(), &req.headers);
    assert_eq!(config.headers().get(USER_AGENT).unwrap(), DEFAULT_UA);
    assert_eq!(config.proxy(), &None);
    assert_eq!(config.timeout_secs(), 30);
}

#[test]
fn client_config_hands_on_headers_proxy_and_timeout() {
    let mut req = FileRequest::new(URL);
    req.insert_header("accept", "*/*").unwrap();
    req.set_proxy("http://127.0.0.1:10809");
    let config = req.client_config();
    assert_eq!(config.headers().len(), 2);
    assert_eq!(config.headers().get("accept").unwrap(), "*/*");
    assert_eq!(config.headers().get(USER_AGENT).unwrap(), DEFAULT_UA);
    assert_eq!(config.proxy(), &Some("http://127.0.0.1:10809".to_string()));
    assert_eq!(config.timeout_secs(), 30);
    // a second client is made with the same settings
    let again = req.client_config();
    assert_eq!(again.headers(), config.headers());
    assert_eq!(again.proxy(), config.proxy());
}

#[test]
fn header_count_counts_names() {
    let mut req = FileRequest::new(URL);
    assert_eq!(req.header_count(), 0);
    req.insert_header("accept", "*/*").unwrap();
    req.insert_header("Accept", "text/html").unwrap();
    req.insert_header("range", "bytes=0-1").unwrap();
    assert_eq!(req.header_count(), 2);
}

#[test]
fn insert_header_drops_earlier_values() {
    let mut req = FileRequest::new(URL);
    req.headers.append("accept", HeaderValue::from_static("a"));
    req.headers.append("accept", HeaderValue::from_static("b"));
    req.insert_header("accept", "c").unwrap();
    let all: Vec<_> = req.headers.get_all("accept").iter().collect();
    assert_eq!(all, vec![HeaderValue::from_static("c")]);
}

#[test]
fn create_client_keeps_given_user_agent() {
    let mut req = FileRequest::new(URL);
    req.insert_header("User-Agent", "tester/1.0").unwrap();
    let client = req.create_client().unwrap();
    assert_eq!(req.headers.get(USER_AGENT).unwrap(), "tester/1.0");
    assert_eq!(client.config().headers().get(USER_AGENT).unwrap(), "tester/1.0");
    assert_eq!(req.headers.len(), 1);
}

#[test]
fn create_client_refuses_bad_proxy() {
    let mut req = FileRequest::new(URL);
    req.set_proxy("http://[::1");
    match req.create_client() {
        Err(RequestError::Proxy(_)) => {}
        other => panic!("expected a proxy error, got {:?}", other.map(|_| ())),
    }
    // the user agent is set before the proxy is read
    assert_eq!(req.headers.get(USER_AGENT).unwrap(), DEFAULT_UA);
}

#[test]
fn create_client_with_proxy() {
    let mut req = FileRequest::new(URL);
    req.set_proxy("http://127.0.0.1:10809");
    let client = req.create_client().unwrap();
    assert_eq!(client.config().proxy(), &Some("http://127.0.0.1:10809".to_string()));
}

#[test]
fn clone_keeps_everything() {
    let mut req = FileRequest::new(URL);
    req.insert_header("accept", "*/*").unwrap();
    req.set_proxy("http://127.0.0.1:10809");
    let copy = req.clone();
    assert_eq!(copy.url(), URL);
    assert_eq!(copy.headers, req.headers);
}

#[test]
fn size_from_headers_reads_length_and_ranges() {
    let mut h = HeaderMap::new();
    h.insert(CONTENT_LENGTH, HeaderValue::from_static("1024"));
    assert_eq!(FileRequest::size_from_headers(&h), Some((1024, false)));
    h.insert(ACCEPT_RANGES, HeaderValue::from_static("bytes"));
    assert_eq!(FileRequest::size_from_headers(&h), Some((1024, true)));
    let mut h2 = HeaderMap::new();
    h2.insert(CONTENT_RANGE, HeaderValue::from_static("bytes 0-9/10"));
    assert_eq!(FileRequest::size_from_headers(&h2), Some((0, true)));
    assert_eq!(FileRequest::size_from_headers(&HeaderMap::new()), Some((0, false)));
}

#[test]
fn size_from_headers_refuses_bad_length() {
    let mut h = HeaderMap::new();
    h.insert(CONTENT_LENGTH, HeaderValue::from_static("ten"));
    assert_eq!(FileRequest::size_from_headers(&h), None);
}
