use wadtools::paths::{final_chunk_path, hashed_chunk_path, parent_directory};
use wadtools::{format_chunk_path_hash, is_hex_chunk_path, truncate_middle};

#[test]
fn formats_hash_zero_padded() {
    assert_eq!(format_chunk_path_hash(0), "0000000000000000");
    assert_eq!(format_chunk_path_hash(0xdeadbeef), "00000000deadbeef");
    assert_eq!(format_chunk_path_hash(u64::MAX), "ffffffffffffffff");
    assert_eq!(format_chunk_path_hash(0x0123456789ABCDEF), "0123456789abcdef");
}

#[test]
fn formatted_hash_reads_back() {
    for h in [1u64, 0x10, 0xabc, 0x8000_0000_0000_0000, 0x1234_5678_9abc_def0] {
        let s = format_chunk_path_hash(h);
        assert_eq!(s.len(), 16);
        assert!(s.chars().all(|c| c.is_ascii_digit() || ('a'..='f').contains(&c)));
        assert_eq!(u64::from_str_radix(&s, 16).unwrap(), h);
    }
}

#[test]
fn recognises_hex_chunk_paths() {
    assert!(is_hex_chunk_path("0123456789abcdef"));
    assert!(is_hex_chunk_path("data/0123456789ABCDEF"));
    assert!(!is_hex_chunk_path("data/0123456789abcde"));
    assert!(!is_hex_chunk_path("data/0123456789abcdeg"));
    assert!(!is_hex_chunk_path("0123456789abcdef/x"));
    assert!(!is_hex_chunk_path("0123456789abcdef.png"));
    assert!(!is_hex_chunk_path(""));
}

#[test]
fn truncates_in_the_middle() {
    assert_eq!(truncate_middle("hello world", 20), "hello world");
    assert_eq!(truncate_middle("hello world", 11), "hello world");
    assert_eq!(truncate_middle("hello world", 8), "he...rld");
    assert_eq!(truncate_middle("hello world", 3), "...");
    assert_eq!(truncate_middle("hello world", 0), "...");
    assert_eq!(truncate_middle("", 0), "");
}

#[test]
fn truncation_budget_counts_bytes() {
    // six bytes over a budget of five: one character kept on each side
    assert_eq!(truncate_middle("ééé", 5), "é...é");
    assert_eq!(truncate_middle("ééé", 6), "ééé");
}

#[test]
fn adds_extension_to_names_without_one() {
    assert_eq!(final_chunk_path("a/b/file", Some("png")), "a/b/file.png");
    assert_eq!(final_chunk_path("file", Some("dds")), "file.dds");
}

#[test]
fn marks_unknown_content_with_a_leading_dot() {
    assert_eq!(final_chunk_path("a/b/file", None), "a/b/.file");
    assert_eq!(final_chunk_path("file", None), ".file");
}

#[test]
fn keeps_existing_extension_and_hash_names() {
    assert_eq!(final_chunk_path("a/x.png", Some("dds")), "a/x.png");
    assert_eq!(final_chunk_path("a/x.png", None), "a/x.png");
    assert_eq!(final_chunk_path("a/.hidden", Some("bin")), "a/.hidden.bin");
}

#[test]
fn hash_names_take_the_content_kind_too() {
    assert_eq!(final_chunk_path("0123456789abcdef", Some("png")), "0123456789abcdef.png");
    assert_eq!(final_chunk_path("d/0123456789abcdef", None), "d/.0123456789abcdef");
}

#[test]
fn trailing_separators_are_ignored() {
    assert!(is_hex_chunk_path("a/0123456789abcdef/"));
    assert!(is_hex_chunk_path("a/0123456789abcdef/./"));
    assert_eq!(final_chunk_path("a/b/", Some("png")), "a/b.png");
    assert_eq!(final_chunk_path("a/b/", None), "a/.b");
    assert_eq!(final_chunk_path("a/b/.", Some("png")), "a/b.png");
    assert_eq!(parent_directory("a/b/"), "a");
}

#[test]
fn dot_components_name_no_file() {
    assert_eq!(final_chunk_path("a/..", Some("png")), "a/..");
    assert_eq!(final_chunk_path(".", None), ".");
    assert_eq!(final_chunk_path("/", Some("png")), "/");
    assert!(!is_hex_chunk_path("a/.."));
}

#[test]
fn hashed_path_carries_extension() {
    assert_eq!(hashed_chunk_path(0x1234, Some("png")), "0000000000001234.png");
    assert_eq!(hashed_chunk_path(0x1234, None), "0000000000001234");
}

#[test]
fn parent_directory_of_paths() {
    assert_eq!(parent_directory("a/b/c.png"), "a/b");
    assert_eq!(parent_directory("c.png"), "");
    assert_eq!(parent_directory("a/"), "");
}
