use wadtools::hashtable::parse_hashtable_source;
use wadtools::{format_chunk_path_hash, ParseError, WadHashtable};

#[test]
fn later_entry_overrides_earlier() {
    let mut t = WadHashtable::new();
    t.add_from_source("00000000000000ab a/first.bin\n00000000000000ab a/second.bin\n").unwrap();
    assert_eq!(t.resolve_path(0xab), "a/second.bin");
}

#[test]
fn later_source_overrides_earlier() {
    let mut t = WadHashtable::new();
    t.add_from_source("ab a/first.bin\ncd c/kept.bin\n").unwrap();
    t.add_from_source("ab a/second.bin\n").unwrap();
    assert_eq!(t.resolve_path(0xab), "a/second.bin");
    assert_eq!(t.resolve_path(0xcd), "c/kept.bin");
}

#[test]
fn single_entry_resolves_exactly() {
    let mut t = WadHashtable::new();
    t.add_from_source("1f a/b.bin").unwrap();
    assert_eq!(t.resolve_path(0x1f), "a/b.bin");
}

#[test]
fn unknown_hash_falls_back_to_hex() {
    let mut t = WadHashtable::new();
    t.add_from_source("1 known.bin\n").unwrap();
    let h = 0x00ab_cdef_0123_4567u64;
    assert_eq!(t.resolve_path(h), "00abcdef01234567");
    assert_eq!(t.resolve_path(h), t.resolve_path(h));
    assert_eq!(t.resolve_path(h), format_chunk_path_hash(h));
    assert_eq!(WadHashtable::new().resolve_path(0), "0000000000000000");
}

#[test]
fn skips_blank_lines_and_keeps_spaces_in_paths() {
    let mut t = WadHashtable::new();
    t.add_from_source("\n\r\nAB a dir/with space.bin\r\n\n").unwrap();
    assert_eq!(t.resolve_path(0xab), "a dir/with space.bin");
}

#[test]
fn malformed_line_fails_with_its_number() {
    let mut t = WadHashtable::new();
    t.add_from_source("ab a/kept.bin\n").unwrap();
    let r = t.add_from_source("cd c/new.bin\nnot-a-hash x.bin\n");
    assert_eq!(r, Err(ParseError { line: 2 }));
    // the failed load leaves the table as it was
    assert_eq!(t.resolve_path(0xcd), "00000000000000cd");
    assert_eq!(t.resolve_path(0xab), "a/kept.bin");
}

#[test]
fn rejects_lines_of_other_shapes() {
    assert_eq!(parse_hashtable_source("abc").unwrap_err(), ParseError { line: 1 });
    assert_eq!(parse_hashtable_source("abc ").unwrap_err(), ParseError { line: 1 });
    assert_eq!(parse_hashtable_source(" path").unwrap_err(), ParseError { line: 1 });
    assert_eq!(
        parse_hashtable_source("\n00000000000000001 too/long.bin").unwrap_err(),
        ParseError { line: 2 }
    );
}

#[test]
fn parses_entries_in_order() {
    let es = parse_hashtable_source("ffffffffffffffff max.bin\n0 zero.bin\n").unwrap();
    assert_eq!(
        es,
        vec![(u64::MAX, "max.bin".to_string()), (0, "zero.bin".to_string())]
    );
    assert!(parse_hashtable_source("").unwrap().is_empty());
}
