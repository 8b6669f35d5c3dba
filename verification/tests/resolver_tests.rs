use notedmd::error::NotedError;
use notedmd::resolver::resolve;

#[test]
fn resolves_mixed_selection_zero_indexed() {
    // total_pages = 10, "1,3,5-8" => {0,2,4,5,6,7}
    assert_eq!(resolve("1,3,5-8", 10).unwrap(), vec![0, 2, 4, 5, 6, 7]);
}

#[test]
fn resolves_single_page() {
    assert_eq!(resolve("1", 1).unwrap(), vec![0]);
    assert_eq!(resolve("7", 10).unwrap(), vec![6]);
}

#[test]
fn resolves_full_range() {
    assert_eq!(resolve("1-5", 5).unwrap(), vec![0, 1, 2, 3, 4]);
}

#[test]
fn resolves_degenerate_range() {
    assert_eq!(resolve("3-3", 3).unwrap(), vec![2]);
}

#[test]
fn output_is_sorted_and_deduplicated() {
    assert_eq!(resolve("5-8,1,5", 10).unwrap(), vec![0, 4, 5, 6, 7]);
    assert_eq!(resolve("9,2,9,2", 9).unwrap(), vec![1, 8]);
    assert_eq!(resolve("3-6,4-8", 10).unwrap(), vec![2, 3, 4, 5, 6, 7]);
}

#[test]
fn tolerates_surrounding_whitespace() {
    assert_eq!(resolve(" 2 , 4 - 6 ", 10).unwrap(), vec![1, 3, 4, 5]);
}

#[test]
fn tolerates_unicode_whitespace() {
    // no-break space and em space around tokens, as str::trim would remove
    assert_eq!(resolve("\u{a0}3\u{a0},\u{2003}5", 10).unwrap(), vec![2, 4]);
}

#[test]
fn rejects_page_zero() {
    assert_eq!(resolve("0", 5).unwrap_err(), NotedError::ZeroPage);
    assert_eq!(resolve("0", 1).unwrap_err(), NotedError::ZeroPage);
    assert_eq!(resolve("0-3", 10).unwrap_err(), NotedError::ZeroPage);
    assert_eq!(resolve("3,0", 10).unwrap_err(), NotedError::ZeroPage);
}

#[test]
fn rejects_inverted_range() {
    assert_eq!(resolve("8-3", 10).unwrap_err(), NotedError::InvertedRange(8, 3));
    assert_eq!(resolve("2-1", 2).unwrap_err(), NotedError::InvertedRange(2, 1));
}

#[test]
fn rejects_page_past_end() {
    assert_eq!(resolve("11", 10).unwrap_err(), NotedError::PageOutOfRange(11, 10));
    // the first page past the end is reported
    assert_eq!(resolve("5-12", 10).unwrap_err(), NotedError::PageOutOfRange(11, 10));
    assert_eq!(resolve("15-20", 10).unwrap_err(), NotedError::PageOutOfRange(15, 10));
}

#[test]
fn rejects_malformed_tokens() {
    assert_eq!(
        resolve("a,2", 10).unwrap_err(),
        NotedError::InvalidPageToken("a".to_string())
    );
    assert_eq!(
        resolve("1-2-3", 10).unwrap_err(),
        NotedError::InvalidPageToken("1-2-3".to_string())
    );
    assert_eq!(
        resolve("", 10).unwrap_err(),
        NotedError::InvalidPageToken("".to_string())
    );
    assert_eq!(
        resolve("1,", 10).unwrap_err(),
        NotedError::InvalidPageToken("".to_string())
    );
    assert_eq!(
        resolve("-3", 10).unwrap_err(),
        NotedError::InvalidPageToken("-3".to_string())
    );
    assert_eq!(
        resolve("+3", 10).unwrap_err(),
        NotedError::InvalidPageToken("+3".to_string())
    );
    assert_eq!(
        resolve("2 3", 10).unwrap_err(),
        NotedError::InvalidPageToken("2 3".to_string())
    );
}

#[test]
fn leftmost_fault_wins() {
    assert_eq!(resolve("0,xyz", 10).unwrap_err(), NotedError::ZeroPage);
    assert_eq!(
        resolve("xyz,0", 10).unwrap_err(),
        NotedError::InvalidPageToken("xyz".to_string())
    );
}

#[test]
fn handles_u32_boundary() {
    assert_eq!(resolve("4294967295", u32::MAX).unwrap(), vec![u32::MAX - 1]);
    assert_eq!(
        resolve("4294967296", u32::MAX).unwrap_err(),
        NotedError::InvalidPageToken("4294967296".to_string())
    );
}
