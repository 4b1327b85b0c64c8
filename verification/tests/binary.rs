use helix_extensions::binary::{
    begin_search, check_search_progress, checked_pattern, search, BinaryFile, SearchError, SearchOutcome, SearchStart,
    SearchStep, MAX_PATTERN_BYTES, MAX_READ_BYTES, SEARCH_CHUNK_BYTES,
};
use helix_extensions::file_snapshot::{
    check_local_path, check_opened, is_blank, is_whitespace, FileFingerprint, ModifiedTime, Observation, OpenedFile,
};

fn fingerprint(len: u64) -> FileFingerprint {
    FileFingerprint {
        len,
        modified: Some(ModifiedTime { before_epoch: false, seconds: 7, nanoseconds: 8 }),
        device: 1,
        inode: 2,
        change_seconds: 3,
        change_nanoseconds: 4,
    }
}

fn seen(print: FileFingerprint) -> Observation {
    Observation { opened: Some(print), current: Some(print) }
}

fn fixture(bytes: &[u8]) -> (BinaryFile, Observation) {
    let print = fingerprint(bytes.len() as u64);
    (BinaryFile { fingerprint: print, closed: false }, seen(print))
}

fn read(bytes: &[u8], file: &BinaryFile, seen: &Observation, offset: usize, length: usize) -> Result<Vec<u8>, String> {
    let count = file.binary_file_read(seen, offset, length)?;
    Ok(bytes[offset..offset + count].to_vec())
}

#[test]
fn reads_binary_windows_and_eof() {
    let bytes = [0, 0xff, b'a', 0x80, b'z'];
    let (file, seen) = fixture(&bytes);
    assert_eq!(read(&bytes, &file, &seen, 1, 3).unwrap(), vec![0xff, b'a', 0x80]);
    assert_eq!(read(&bytes, &file, &seen, 5, 16).unwrap(), Vec::<u8>::new());
}

#[test]
fn enforces_read_bounds_and_regular_files() {
    let (file, seen) = fixture(&[1, 2, 3]);
    assert_eq!(file.binary_file_read(&seen, 4, 1).unwrap_err(), "binary read offset 4 exceeds file size 3");
    assert_eq!(
        file.binary_file_read(&seen, 0, MAX_READ_BYTES + 1).unwrap_err(),
        "binary reads are limited to 1048576 bytes"
    );
    let directory = OpenedFile { is_regular: false, opened: fingerprint(0), current: fingerprint(0) };
    assert!(check_opened(&directory, "binary file", "binary viewer").is_err());
    let regular = OpenedFile { is_regular: true, ..directory };
    assert_eq!(check_opened(&regular, "binary file", "binary viewer").unwrap(), fingerprint(0));
    let swapped = OpenedFile { is_regular: true, opened: fingerprint(0), current: fingerprint(9) };
    assert!(check_opened(&swapped, "binary file", "binary viewer").is_err());
}

#[test]
fn searches_in_both_directions_and_across_chunks() {
    let mut contents = vec![0; SEARCH_CHUNK_BYTES + 8];
    contents[SEARCH_CHUNK_BYTES - 1..SEARCH_CHUNK_BYTES + 3].copy_from_slice(&[0xde, 0xad, 0xbe, 0xef]);
    contents[SEARCH_CHUNK_BYTES + 4..SEARCH_CHUNK_BYTES + 8].copy_from_slice(&[0xde, 0xad, 0xbe, 0xef]);
    let pattern = vec![0xde, 0xad, 0xbe, 0xef];
    assert_eq!(
        search(&contents, pattern.clone(), 0, contents.len(), "forward"),
        SearchOutcome::Found(SEARCH_CHUNK_BYTES - 1)
    );
    assert_eq!(
        search(&contents, pattern, 0, contents.len(), "reverse"),
        SearchOutcome::Found(SEARCH_CHUNK_BYTES + 4)
    );
}

#[test]
fn cancellation_and_changes_are_observable() {
    let (file, seen_first) = fixture(&[1, 2, 3, 4]);
    assert_eq!(check_search_progress(true, file.binary_file_stale(&seen_first)), Some(SearchOutcome::Cancelled));
    let changed = seen(fingerprint(5));
    assert!(file.binary_file_stale(&changed));
    assert!(file.binary_file_read(&changed, 0, 1).is_err());
    assert_eq!(check_search_progress(false, true), Some(SearchOutcome::Stale));
    assert_eq!(check_search_progress(false, false), None);
}

#[test]
fn a_closed_file_is_not_read() {
    let (mut file, seen) = fixture(&[1, 2]);
    assert_eq!(file.binary_file_size(), 2);
    assert!(file.binary_file_close());
    assert!(!file.binary_file_close());
    assert_eq!(file.binary_file_read(&seen, 0, 1).unwrap_err(), "binary file handle is closed");
    assert!(file.ensure_fresh(&seen).is_err());
}

#[test]
fn a_changed_file_says_what_to_do() {
    let (file, _) = fixture(&[1, 2]);
    let gone = Observation { opened: Some(fingerprint(2)), current: None };
    assert_eq!(file.ensure_fresh(&gone).unwrap_err(), "binary file file changed on disk; refresh the viewer");
}

#[test]
fn patterns_are_checked() {
    assert_eq!(checked_pattern(&vec![]), Err(SearchError::EmptyPattern));
    assert_eq!(checked_pattern(&vec![1; MAX_PATTERN_BYTES + 1]), Err(SearchError::PatternTooLong));
    assert_eq!(checked_pattern(&vec![1, 256]), Err(SearchError::NotAByte));
    assert_eq!(checked_pattern(&vec![1, 255]), Ok(vec![1u8, 255]));
    assert_eq!(SearchError::EmptyPattern.message(), "binary search pattern cannot be empty");
}

#[test]
fn searches_keep_to_their_range() {
    let contents = [1, 2, 1, 2, 1];
    assert_eq!(search(&contents, vec![1, 2], 1, 5, "forward"), SearchOutcome::Found(2));
    assert_eq!(search(&contents, vec![1, 2], 0, 3, "reverse"), SearchOutcome::Found(0));
    assert_eq!(search(&contents, vec![2, 2], 0, 5, "forward"), SearchOutcome::NotFound);
    assert_eq!(search(&contents, vec![1, 2], 4, 5, "forward"), SearchOutcome::NotFound);
    assert_eq!(search(&contents, vec![1], 3, 2, "forward"), SearchOutcome::Error(SearchError::Range));
    assert_eq!(search(&contents, vec![1], 0, 6, "forward"), SearchOutcome::Error(SearchError::Range));
    assert_eq!(search(&contents, vec![1], 0, 5, "up"), SearchOutcome::Error(SearchError::Direction));
}

#[test]
fn a_file_that_ends_early_ends_the_search() {
    match begin_search(vec![9], 0, 100, "forward", 100) {
        SearchStart::Search(mut search) => {
            assert_eq!(search.window(), Some((0, 100)));
            assert!(matches!(search.supply(&[1, 2]), SearchStep::Ended));
        },
        SearchStart::Over(_) => panic!("the search is over"),
    }
}

#[test]
fn paths_are_local() {
    assert!(check_local_path("/a/b", "binary file").is_ok());
    assert_eq!(
        check_local_path("  ", "binary file").unwrap_err(),
        "binary file path must be a non-empty local path"
    );
    assert!(check_local_path("http://a", "binary file").is_err());
    assert!(check_local_path("file:a", "binary file").is_err());
    assert!(is_blank(" \t\n"));
    assert!(!is_blank(" a"));
}

#[test]
fn an_identity_tells_states_apart() {
    assert_eq!(fingerprint(1).identity(), "7:000000008:1:2:3:000000004");
    let early = FileFingerprint { modified: None, change_seconds: -5, ..fingerprint(1) };
    assert_eq!(early.identity(), "0:000000000:1:2:-5:000000004");
}

#[test]
fn white_space_is_that_of_unicode() {
    for c in '\0'..=char::MAX {
        assert_eq!(is_whitespace(c), c.is_whitespace(), "{c:?}");
    }
}
