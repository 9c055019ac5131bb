//! Searching in text.

use velotype::search::find_all_case_insensitive;

#[test]
fn finds_case_insensitive_non_overlapping_matches() {
    let ranges = find_all_case_insensitive("Foo foo FOO bar", "foo");
    assert_eq!(ranges, vec![0..3, 4..7, 8..11]);
}

#[test]
fn preserves_byte_offsets_around_multibyte_text() {
    // "café" has a 2-byte 'é'; the trailing "TEXT" must still resolve to
    // valid, correct byte offsets despite the earlier multibyte content.
    let ranges = find_all_case_insensitive("café TEXT", "text");
    let haystack = "café TEXT";
    assert_eq!(ranges.len(), 1);
    assert_eq!(&haystack[ranges[0].clone()], "TEXT");
}

#[test]
fn empty_needle_yields_no_matches() {
    assert!(find_all_case_insensitive("anything", "").is_empty());
}
