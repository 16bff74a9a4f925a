use ic_oss_cli::file::{FileChunk, FileInfo, CHUNK_SIZE};
use ic_oss_cli::get_file::FileGet;
use ic_oss_cli::outside::digest_of;

fn info(chunks: u32, size: u64, filled: u64, hash: Option<[u8; 32]>) -> FileInfo {
    FileInfo {
        id: 3,
        parent: 0,
        name: "f".to_string(),
        content_type: "text/plain".to_string(),
        size,
        filled,
        created_at: 0,
        updated_at: 0,
        chunks,
        status: 0,
        revision: 1,
        generation: 1,
        hash,
    }
}

#[test]
fn chunks_are_asked_for_in_groups() {
    let mut get = FileGet::start(&info(8, 16, 16, None)).unwrap();
    assert_eq!(get.next_request(), Some(0));
    let places = get.on_chunks(&vec![FileChunk(0, b"ab".to_vec()), FileChunk(2, b"cd".to_vec())]);
    assert_eq!(places, vec![0, 2 * CHUNK_SIZE as u64]);
    assert_eq!(get.next_request(), Some(6));
    assert_eq!(get.on_chunks(&vec![FileChunk(7, b"ef".to_vec())]), vec![7 * CHUNK_SIZE as u64]);
    assert_eq!(get.next_request(), None);
    assert_eq!(get.finish().unwrap(), digest_of(b"abcdef"));
}

#[test]
fn empty_files_need_no_request() {
    let get = FileGet::start(&info(0, 0, 0, Some(digest_of(b"")))).unwrap();
    assert_eq!(get.next_request(), None);
    assert_eq!(get.finish().unwrap(), digest_of(b""));
}

#[test]
fn incomplete_and_changed_files_are_refused() {
    assert_eq!(FileGet::start(&info(1, 4, 2, None)).err().unwrap(), "file not fully uploaded");
    let mut get = FileGet::start(&info(1, 2, 2, Some([0; 32]))).unwrap();
    get.on_chunks(&vec![FileChunk(0, b"ab".to_vec())]);
    let message = get.finish().unwrap_err();
    assert!(message.starts_with("file hash mismatch, expected 0000"));
    assert!(message.ends_with(", got 5c828b33397f4762922e39a60c35699d2550466a52dd15ed44da37eb0bdc61e6"));
}
