use easy_download::downloader::headers::HeaderError;
use easy_download::downloader::request::FileRequest;
use reqwest::header::{HeaderMap, HeaderValue, CONTENT_LENGTH, RANGE, USER_AGENT};

static URL: &str = "https://www.voidtools.com/Everything-1.4.1.1024.x64.Lite-Setup.exe";

#[test]
fn chained_insert_header() {
    let req = FileRequest::new(URL)
        .insert_header(RANGE.as_str(), &format!("bytes={}-{}", 0, 99))
        .unwrap()
        .insert_header("accept", "*/*")
        .unwrap();
    assert_eq!(req.url(), URL);
    let mut req = req;
    assert!(req.create_client().is_ok());
}

#[test]
fn chained_insert_header_refuses_bad_value() {
    let r = FileRequest::new(URL).insert_header("accept", "a\u{7f}b");
    assert_eq!(r.err(), Some(HeaderError::InvalidValue));
}

#[test]
fn request_size_from_headers() {
    let mut h = HeaderMap::new();
    assert_eq!(FileRequest::size_from_headers(&h), Some(0));
    h.insert(CONTENT_LENGTH, HeaderValue::from_static("52428800"));
    h.insert(USER_AGENT, HeaderValue::from_static("x"));
    assert_eq!(FileRequest::size_from_headers(&h), Some(52428800));
    h.insert(CONTENT_LENGTH, HeaderValue::from_static("-3"));
    assert_eq!(FileRequest::size_from_headers(&h), None);
}
