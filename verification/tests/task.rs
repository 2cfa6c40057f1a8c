use easy_download::downloader::state::TaskState;
use easy_download::downloader::task::{block_range, download_progress, merge_parts, FileTask};
use reqwest::header::{RANGE, USER_AGENT};

static URL: &str = "https://www.voidtools.com/Everything-1.4.1.1024.x64.Lite-Setup.exe";

fn task() -> FileTask {
    FileTask::new(URL, "/work/temp".to_string(), "/work/Downloads".to_string())
}

#[test]
fn test_new() {
    let task = FileTask::new(
        "https://www.voidtools.com/Everything-1.4.1.1024.x64.Lite-Setup.exe",
        "temp".to_string(),
        "Downloads".to_string(),
    );
    let mut state = TaskState::new(task);
    assert!(!state.pause);
    state.set_pause(true);
    assert!(state.pause);
    assert_eq!(state.task.get_name(), "Everything-1.4.1.1024.x64.Lite-Setup.exe");
}

#[test]
fn new_task_defaults() {
    let t = task();
    assert_eq!(t.thread(), 2);
    assert_eq!(t.retry(), 5);
    assert_eq!(t.tail(), "ed");
    assert_eq!(t.get_size(), 0);
    assert_eq!(t.dir(), "/work/temp");
    assert_eq!(t.output(), "/work/Downloads");
    assert_eq!(t.url(), URL);
    assert_eq!(t.proxy(), None);
    assert_eq!(t.name(), None);
    assert!(t.headers.is_empty());
}

#[test]
fn setters_change_one_setting() {
    let mut t = task();
    t.set_thread(8);
    t.set_retry(1);
    t.set_tail("part");
    t.set_proxy("http://127.0.0.1:10809");
    t.set_dir("/d");
    t.set_output("/o");
    t.insert_header("user-agent", "x").unwrap();
    assert_eq!((t.thread(), t.retry(), t.tail(), t.dir(), t.output()), (8, 1, "part", "/d", "/o"));
    assert_eq!(t.proxy(), Some("http://127.0.0.1:10809".to_string()));
    assert_eq!(t.headers.get(USER_AGENT).unwrap(), "x");
}

#[test]
fn filename_is_last_segment_without_query() {
    assert_eq!(task().filename(), "Everything-1.4.1.1024.x64.Lite-Setup.exe");
    let t = FileTask::new("http://host/dir/file.zip?token=abc&x=1", String::new(), String::new());
    assert_eq!(t.filename(), "file.zip");
    let t = FileTask::new("file.iso", String::new(), String::new());
    assert_eq!(t.filename(), "file.iso");
    let t = FileTask::new("http://host/dir/", String::new(), String::new());
    assert_eq!(t.filename(), "");
    let t = FileTask::new("http://host/a?b=c/d", String::new(), String::new());
    assert_eq!(t.filename(), "d");
    let t = FileTask::new("http://host/日本語.txt?q", String::new(), String::new());
    assert_eq!(t.filename(), "日本語.txt");
}

#[test]
fn get_name_prefers_given_name() {
    assert_eq!(task().get_name(), "Everything-1.4.1.1024.x64.Lite-Setup.exe");
    let t = FileTask::restore(
        URL.to_string(), Some("mine.exe".to_string()), "ed".to_string(), reqwest::header::HeaderMap::new(),
        None, 2, 5, "/t".to_string(), "/o".to_string(), 7,
    );
    assert_eq!(t.get_name(), "mine.exe");
    assert_eq!(t.get_size(), 7);
}

#[test]
fn part_names_follow_block_index() {
    let mut t = FileTask::new("http://h/a.bin", String::new(), String::new());
    t.set_thread(12);
    assert_eq!(t.part_name(0), "a.bin.ed0");
    assert_eq!(t.part_name(11), "a.bin.ed11");
    let names = t.part_names();
    assert_eq!(names.len(), 12);
    assert_eq!(names[10], "a.bin.ed10");
}

#[test]
fn ranges_split_evenly_with_rest_in_last() {
    assert_eq!(block_range(10, 3, 0), (0, 2));
    assert_eq!(block_range(10, 3, 1), (3, 5));
    assert_eq!(block_range(10, 3, 2), (6, 9));
    assert_eq!(block_range(1, 1, 0), (0, 0));
    assert_eq!(block_range(8, 8, 7), (7, 7));
}

#[test]
fn blocks_cover_the_file() {
    let mut t = task();
    t.set_thread(4);
    t.set_proxy("http://127.0.0.1:1");
    t.insert_header("accept", "*/*").unwrap();
    let req = t.base_request();
    let blocks = t.blocks(1003, &req);
    assert_eq!(t.get_size(), 1003);
    assert_eq!(blocks.len(), 4);
    let ranges: Vec<(u64, u64)> = blocks.iter().map(|b| (b.start(), b.end())).collect();
    assert_eq!(ranges, vec![(0, 249), (250, 499), (500, 749), (750, 1002)]);
    for (i, b) in blocks.iter().enumerate() {
        assert_eq!(b.name(), format!("Everything-1.4.1.1024.x64.Lite-Setup.exe.ed{i}"));
        assert_eq!(b.dir(), "/work/temp");
        assert_eq!(b.retry_max(), 5);
        assert_eq!(b.current(), 0);
        assert_eq!(b.request().url(), URL);
        assert_eq!(b.request().headers.get("accept").unwrap(), "*/*");
        assert!(b.request().headers.get(RANGE).is_none());
    }
}

#[test]
fn merge_joins_in_order() {
    let parts = vec![b"abc".to_vec(), Vec::new(), b"de".to_vec(), b"f".to_vec()];
    assert_eq!(merge_parts(&parts), b"abcdef".to_vec());
    assert_eq!(merge_parts(&Vec::new()), Vec::<u8>::new());
}

#[test]
fn split_then_merge_restores_file() {
    let file: Vec<u8> = (0..=250u8).cycle().take(1000).collect();
    let mut t = task();
    t.set_thread(7);
    let blocks = t.blocks(file.len() as u64, &t.base_request());
    let parts: Vec<Vec<u8>> = blocks.iter().map(|b| file[b.start() as usize..=b.end() as usize].to_vec()).collect();
    assert_eq!(merge_parts(&parts), file);
}

#[test]
fn progress_totals_and_finishes() {
    assert_eq!(download_progress(&vec![], 0), Some((0, true)));
    assert_eq!(download_progress(&vec![10, 20, 30], 100), Some((60, false)));
    assert_eq!(download_progress(&vec![50, 50], 100), Some((100, true)));
    assert_eq!(download_progress(&vec![u64::MAX, 1], 100), None);
}

#[test]
fn task_header_count() {
    let mut t = task();
    assert_eq!(t.header_count(), 0);
    t.insert_header("accept", "*/*").unwrap();
    assert_eq!(t.header_count(), 1);
}
