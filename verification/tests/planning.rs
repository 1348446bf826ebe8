use furl_core::chunks::{plan_chunks, resolve_thread_count, ONE_MB, TEN_MB};
use furl_core::engine::{
    choose_filename, output_path, range_header_value, record_progress, workers_to_spawn,
};
use furl_core::{extract_filename_from_url, is_valid_url, Chunk, Downloader, HeaderError};
use furl_core::address::filename_from_url_path;
use reqwest::header::{HeaderMap, CONTENT_DISPOSITION, CONTENT_RANGE};

fn ranges(chunks: &[Chunk]) -> Vec<(u64, u64)> {
    chunks.iter().map(|c| (c.start_byte, c.end_byte)).collect()
}

#[test]
fn thread_count_defaults() {
    assert_eq!(resolve_thread_count(None), 8);
    assert_eq!(resolve_thread_count(Some(0)), 8);
    assert_eq!(resolve_thread_count(Some(3)), 3);
    assert_eq!(resolve_thread_count(Some(255)), 255);
}

#[test]
fn chunk_new_starts_empty() {
    let c = Chunk::new(10, 19);
    assert_eq!((c.start_byte, c.end_byte, c.downloaded), (10, 19, 0));
}

#[test]
fn empty_file_has_no_chunks() {
    assert!(plan_chunks(0, 8).is_empty());
}

#[test]
fn small_file_is_one_chunk() {
    assert_eq!(ranges(&plan_chunks(500, 8)), vec![(0, 499)]);
    assert_eq!(ranges(&plan_chunks(ONE_MB - 1, 1)), vec![(0, ONE_MB - 2)]);
    assert_eq!(ranges(&plan_chunks(1, 255)), vec![(0, 0)]);
}

#[test]
fn large_file_uses_ten_mb_chunks() {
    let chunks = plan_chunks(100 * ONE_MB, 8);
    assert_eq!(chunks.len(), 10);
    assert_eq!((chunks[0].start_byte, chunks[0].end_byte), (0, 10485759));
    assert_eq!((chunks[1].start_byte, chunks[1].end_byte), (10485760, 20971519));
    assert_eq!((chunks[9].start_byte, chunks[9].end_byte), (94371840, 104857599));
    for c in &chunks {
        assert!(c.end_byte - c.start_byte + 1 <= TEN_MB);
        assert_eq!(c.downloaded, 0);
    }
}

#[test]
fn chunks_tile_the_file() {
    for &(size, threads) in &[(2 * ONE_MB, 4u64), (3 * ONE_MB + 7, 3), (ONE_MB, 255), (77 * ONE_MB + 5, 7)] {
        let chunks = plan_chunks(size, threads);
        assert_eq!(chunks[0].start_byte, 0);
        for w in chunks.windows(2) {
            assert_eq!(w[1].start_byte, w[0].end_byte + 1);
        }
        assert_eq!(chunks.last().unwrap().end_byte, size - 1);
        for c in &chunks {
            assert!(c.end_byte - c.start_byte + 1 <= TEN_MB);
        }
    }
}

#[test]
fn chunks_fit_workers() {
    assert_eq!(
        ranges(&plan_chunks(2 * ONE_MB, 4)),
        vec![(0, 524287), (524288, 1048575), (1048576, 1572863), (1572864, 2097151)]
    );
    // The bytes left over by the even division make one more small chunk.
    assert_eq!(
        ranges(&plan_chunks(3 * ONE_MB + 7, 3)),
        vec![(0, 1048577), (1048578, 2097155), (2097156, 3145733), (3145734, 3145734)]
    );
    // A file of 20971520 bytes read by one worker: two chunks of exactly 10 MB.
    assert_eq!(
        ranges(&plan_chunks(2 * TEN_MB, 1)),
        vec![(0, TEN_MB - 1), (TEN_MB, 2 * TEN_MB - 1)]
    );
}

#[test]
fn worker_count_is_capped_by_chunks() {
    assert_eq!(workers_to_spawn(8, 3), 3);
    assert_eq!(workers_to_spawn(4, 10), 4);
    assert_eq!(workers_to_spawn(5, 5), 5);
    assert_eq!(workers_to_spawn(8, 0), 0);
}

#[test]
fn range_header_values() {
    assert_eq!(range_header_value(0, 1048575), "bytes=0-1048575");
    assert_eq!(range_header_value(7, 7), "bytes=7-7");
    assert_eq!(range_header_value(10, u64::MAX), "bytes=10-18446744073709551615");
}

#[test]
fn progress_is_recorded_for_known_chunks_only() {
    let mut chunks = plan_chunks(2 * ONE_MB, 4);
    record_progress(&mut chunks, 2, 1234);
    assert_eq!(chunks[2].downloaded, 1234);
    assert_eq!(chunks[2].start_byte, 1048576);
    assert_eq!(chunks[1].downloaded, 0);
    record_progress(&mut chunks, 9, 1);
    assert!(chunks.iter().all(|c| c.downloaded == 0 || c.start_byte == 1048576));
}

#[test]
fn output_paths() {
    assert_eq!(output_path(".", "f.bin"), "./f.bin");
    assert_eq!(output_path("./", "f.bin"), "./f.bin");
    assert_eq!(output_path("/tmp", "a"), "/tmp/a");
    assert_eq!(output_path("a///", "b"), "a//b");
    assert_eq!(output_path("", "x"), "/x");
}

#[test]
fn filename_choice() {
    let url = "https://example.com/path/to/file.txt";
    assert_eq!(choose_filename(Ok("h.bin".to_string()), url), "h.bin");
    assert_eq!(choose_filename(Err(HeaderError::FilenameNotFound), url), "file.txt");
    assert_eq!(
        choose_filename(Err(HeaderError::NotVisibleAscii), "https://example.com/dir/"),
        "download.bin"
    );
}

#[test]
fn url_file_names() {
    assert_eq!(extract_filename_from_url("not a url"), None);
    assert_eq!(extract_filename_from_url("mailto:someone@example.com"), None);
    assert_eq!(extract_filename_from_url("https://example.com"), None);
    assert_eq!(
        extract_filename_from_url("https://example.com/dl/archive.tar.gz?x=1#frag"),
        Some("archive.tar.gz".to_string())
    );
    assert_eq!(filename_from_url_path("/a/b"), Some("b".to_string()));
    assert_eq!(filename_from_url_path("/"), None);
    assert_eq!(filename_from_url_path(""), None);
    assert_eq!(filename_from_url_path("a/b"), None);
}

#[test]
fn url_validation() {
    assert!(is_valid_url("https://example.com/file"));
    assert!(is_valid_url("http://a.b"));
    assert!(!is_valid_url("ftp://example.com/file"));
    assert!(!is_valid_url("https://"));
    assert!(!is_valid_url("https:///x"));
    assert!(!is_valid_url("example.com"));
}

#[test]
fn headers_drive_the_download_plan() {
    let mut d = Downloader::new("https://example.com/files/data.bin");
    let mut headers = HeaderMap::new();
    headers.insert(CONTENT_RANGE, "bytes 0-0/2097152".parse().unwrap());
    let name = d.take_response_headers(headers, "downloads/");
    assert_eq!(name, "data.bin");
    assert_eq!(d.filename.as_deref(), Some("downloads/data.bin"));
    assert_eq!(d.file_size, Some(2 * ONE_MB));
    let workers = d.plan(Some(4));
    assert_eq!(workers, 4);
    assert_eq!(d.chunks.len(), 4);
    assert_eq!((d.chunks[3].start_byte, d.chunks[3].end_byte), (1572864, 2097151));
    // Planning again adds the new chunks after those already listed.
    let workers = d.plan(Some(2));
    assert_eq!(workers, 2);
    assert_eq!(d.chunks.len(), 6);
    assert_eq!((d.chunks[4].start_byte, d.chunks[4].end_byte), (0, 1048575));
}

#[test]
fn header_name_wins_and_unknown_size_means_one_stream() {
    let mut d = Downloader::new("https://example.com/files/data.bin");
    let mut headers = HeaderMap::new();
    headers.insert(CONTENT_DISPOSITION, "attachment; filename=\"other.iso\"".parse().unwrap());
    let name = d.take_response_headers(headers, "/tmp");
    assert_eq!(name, "other.iso");
    assert_eq!(d.filename.as_deref(), Some("/tmp/other.iso"));
    assert_eq!(d.file_size, None);
    assert_eq!(d.plan(None), 0);
    assert!(d.chunks.is_empty());
}
