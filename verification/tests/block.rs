use easy_download::downloader::block::{range_header_value, Block, BlockStep, RetryDecision, PROGRESS_BUFFER};
use easy_download::downloader::file_request::FileRequest;
use reqwest::header::RANGE;

fn block(start: u64, end: u64, retry_max: u8) -> Block {
    Block::new(start, end, "/tmp/parts".to_string(), "file.ed0".to_string(), retry_max, FileRequest::new("http://h/file"))
}

#[test]
fn new_block_holds_nothing() {
    let b = block(100, 199, 5);
    assert_eq!((b.start(), b.end(), b.current(), b.retry(), b.retry_max()), (100, 199, 0, 0, 5));
    assert_eq!(b.rx_size(), PROGRESS_BUFFER);
    assert_eq!(b.rx_size(), 20480);
    assert_eq!(b.dir(), "/tmp/parts");
    assert_eq!(b.name(), "file.ed0");
}

#[test]
fn range_value_format() {
    assert_eq!(range_header_value(0, 99), b"bytes=0-99".to_vec());
    assert_eq!(range_header_value(12345, 67890), format!("bytes={}-{}", 12345, 67890).into_bytes());
}

#[test]
fn begin_request_sets_range_after_held_bytes() {
    let mut b = block(100, 199, 5);
    b.set_current(40);
    assert_eq!(b.begin_request(), BlockStep::Fetch);
    assert_eq!(b.request().headers.get(RANGE).unwrap(), "bytes=140-199");
    assert_eq!(b.current(), 40);
}

#[test]
fn begin_request_reports_complete_block() {
    let mut b = block(100, 199, 5);
    b.set_current(99);
    assert!(b.is_complete());
    assert_eq!(b.begin_request(), BlockStep::Complete(99));
    assert!(b.request().headers.get(RANGE).is_none());
}

#[test]
fn chunks_add_up() {
    let mut b = block(0, 9, 5);
    assert!(!b.is_complete());
    assert_eq!(b.on_chunk(4), 4);
    assert_eq!(b.on_chunk(5), 9);
    assert!(b.is_complete());
    assert_eq!(b.on_chunk(1), 10);
    assert!(b.is_complete());
}

#[test]
fn failures_wait_longer_then_give_up() {
    let mut b = block(0, 9, 2);
    assert_eq!(b.on_failure(), RetryDecision::Retry(3));
    assert_eq!(b.on_failure(), RetryDecision::Retry(6));
    assert_eq!(b.on_failure(), RetryDecision::GiveUp);
    assert_eq!(b.retry(), 3);
}

#[test]
fn answer_resets_failures() {
    let mut b = block(0, 9, 1);
    assert_eq!(b.on_failure(), RetryDecision::Retry(3));
    b.on_connected();
    assert_eq!(b.retry(), 0);
    assert_eq!(b.on_failure(), RetryDecision::Retry(3));
    assert_eq!(b.on_failure(), RetryDecision::GiveUp);
}

#[test]
fn no_retry_allowed() {
    let mut b = block(0, 9, 0);
    assert_eq!(b.on_failure(), RetryDecision::GiveUp);
}

#[test]
fn rx_size_can_be_set() {
    let mut b = block(0, 9, 0);
    b.set_rx_size(64);
    assert_eq!(b.rx_size(), 64);
}

#[test]
fn block_client_carries_range_header() {
    let mut b = block(100, 199, 5);
    b.set_current(10);
    assert_eq!(b.begin_request(), BlockStep::Fetch);
    let client = b.create_client().unwrap();
    assert_eq!(client.config().headers().get(RANGE).unwrap(), "bytes=110-199");
    assert_eq!(client.config().timeout_secs(), 30);
    assert_eq!(b.request().header_count(), 2);
}
