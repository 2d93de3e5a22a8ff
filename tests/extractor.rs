use std::collections::HashMap;

use league_toolkit::file::LeagueFileKind;
use wadtools::classify::classify_chunk;
use wadtools::{
    create_filter_pattern, extraction_directories, format_chunk_path_hash, get_extracted_count,
    resolve_final_chunk_path, ExtractError, Extractor, PathPattern, WadHashtable, WriteOutcome,
    WriteStep,
};

const PNG: &[u8] = b"\x89PNG\r\n\x1a\n\0\0\0\rIHDR";
const UNKNOWN: &[u8] = b"nope nope nope";

/// What a run did: the files it wrote, the progress it reported, and how it ended.
struct Run {
    files: Vec<(String, Vec<u8>)>,
    progress: Vec<(usize, usize)>,
    outcome: Result<usize, ExtractError>,
}

/// Runs the extractor over in-memory chunks. `payloads` holds the decompressed bytes of each
/// chunk (a missing one fails to decompress); `write` decides how each write goes.
fn drive(
    extractor: &mut Extractor,
    chunks: Vec<u64>,
    filter_type: Option<Vec<LeagueFileKind>>,
    payloads: &HashMap<u64, Vec<u8>>,
    write: &dyn Fn(&str) -> WriteOutcome,
) -> Run {
    let mut run = Run { files: Vec::new(), progress: Vec::new(), outcome: Ok(0) };
    extractor.extract_chunks(chunks, filter_type);
    while let Some(start) = extractor.next_chunk() {
        run.progress.push((start.position, start.total));
        if !start.decompress {
            continue;
        }
        let Some(data) = payloads.get(&start.path_hash) else {
            run.outcome = Err(extractor.decompress_failed());
            return run;
        };
        let Some(write_to) = extractor.chunk_decompressed(data) else {
            continue;
        };
        let mut target = write_to.target;
        loop {
            let outcome = write(&target);
            if outcome == WriteOutcome::Written {
                run.files.push((target.clone(), data.clone()));
            }
            match extractor.write_finished(outcome) {
                WriteStep::Done => break,
                WriteStep::Retry { path } => target = path,
                WriteStep::Fail(e) => {
                    run.outcome = Err(e);
                    return run;
                }
            }
        }
    }
    run.outcome = Ok(extractor.written_count());
    run
}

fn always_written(_: &str) -> WriteOutcome {
    WriteOutcome::Written
}

fn table(source: &str) -> WadHashtable {
    let mut t = WadHashtable::new();
    t.add_from_source(source).unwrap();
    t
}

fn names(run: &Run) -> Vec<String> {
    run.files.iter().map(|(n, _)| n.clone()).collect()
}

#[test]
fn end_to_end_three_chunks() {
    let (h1, h2, h3) = (0x11u64, 0x2222_3333_4444_5555u64, 0x33u64);
    let t = table("11 a/x.png\n33 b/y.bin\n");
    let payloads: HashMap<u64, Vec<u8>> =
        [(h1, PNG.to_vec()), (h2, PNG.to_vec()), (h3, UNKNOWN.to_vec())].into_iter().collect();
    let mut e = Extractor::new(&t);
    let run = drive(&mut e, vec![h1, h2, h3], None, &payloads, &always_written);
    assert_eq!(*run.outcome.as_ref().unwrap(), 3);
    assert_eq!(
        names(&run),
        vec![
            "a/x.png".to_string(),
            format!("{}.png", format_chunk_path_hash(h2)),
            "b/y.bin".to_string()
        ]
    );
    assert_eq!(run.files[2].1, UNKNOWN.to_vec());
}

#[test]
fn matching_path_with_excluded_kind_is_skipped() {
    let t = table("1 ui/icons/play.png\n");
    let payloads: HashMap<u64, Vec<u8>> = [(1u64, PNG.to_vec())].into_iter().collect();
    let mut e = Extractor::new(&t);
    e.set_filter_pattern(create_filter_pattern(Some("icons".to_string())).unwrap());
    let run = drive(
        &mut e,
        vec![1],
        Some(vec![LeagueFileKind::Texture]),
        &payloads,
        &always_written,
    );
    assert_eq!(*run.outcome.as_ref().unwrap(), 0);
    assert!(run.files.is_empty());
    assert_eq!(run.progress, vec![(1, 1)]);
}

#[test]
fn allowed_kind_with_matching_path_is_written() {
    let t = table("1 ui/icons/play.png\n2 ui/other.png\n");
    let payloads: HashMap<u64, Vec<u8>> =
        [(1u64, PNG.to_vec()), (2u64, PNG.to_vec())].into_iter().collect();
    let mut e = Extractor::new(&t);
    e.set_filter_pattern(create_filter_pattern(Some("ICONS".to_string())).unwrap());
    let run = drive(
        &mut e,
        vec![1, 2],
        Some(vec![LeagueFileKind::Png]),
        &payloads,
        &always_written,
    );
    assert_eq!(*run.outcome.as_ref().unwrap(), 1);
    assert_eq!(names(&run), vec!["ui/icons/play.png".to_string()]);
}

#[test]
fn progress_reaches_total_despite_skips() {
    let t = table("1 keep/a.png\n2 drop/b.png\n3 drop/c.png\n4 keep/d.png\n");
    let payloads: HashMap<u64, Vec<u8>> =
        (1..=4u64).map(|h| (h, PNG.to_vec())).collect();
    let mut e = Extractor::new(&t);
    e.set_filter_pattern(create_filter_pattern(Some("^keep/".to_string())).unwrap());
    let run = drive(&mut e, vec![1, 2, 3, 4], None, &payloads, &always_written);
    assert_eq!(*run.outcome.as_ref().unwrap(), 2);
    assert_eq!(run.progress, vec![(1, 4), (2, 4), (3, 4), (4, 4)]);
    assert!(run.progress.windows(2).all(|w| w[0].0 <= w[1].0));
    let (last, total) = *run.progress.last().unwrap();
    assert_eq!(last as f64 / total as f64, 1.0);
}

#[test]
fn empty_run_writes_nothing() {
    let t = WadHashtable::new();
    let mut e = Extractor::new(&t);
    let run = drive(&mut e, vec![], None, &HashMap::new(), &always_written);
    assert_eq!(*run.outcome.as_ref().unwrap(), 0);
    assert!(run.progress.is_empty());
}

#[test]
fn refused_file_name_falls_back_to_hash() {
    let long = format!("deep/{}", "n".repeat(300));
    let t = table(&format!("abc {}\n", long));
    let payloads: HashMap<u64, Vec<u8>> = [(0xabcu64, PNG.to_vec())].into_iter().collect();
    let mut e = Extractor::new(&t);
    let refuse_long = |name: &str| {
        if name.len() > 255 {
            WriteOutcome::InvalidFilename
        } else {
            WriteOutcome::Written
        }
    };
    let run = drive(&mut e, vec![0xabc], None, &payloads, &refuse_long);
    assert_eq!(*run.outcome.as_ref().unwrap(), 1);
    assert_eq!(names(&run), vec!["0000000000000abc.png".to_string()]);
}

#[test]
fn refused_unknown_content_falls_back_without_extension() {
    let t = table("abc some/name.bin\n");
    let payloads: HashMap<u64, Vec<u8>> = [(0xabcu64, UNKNOWN.to_vec())].into_iter().collect();
    let mut e = Extractor::new(&t);
    let refuse_nested = |name: &str| {
        if name.contains('/') {
            WriteOutcome::InvalidFilename
        } else {
            WriteOutcome::Written
        }
    };
    let run = drive(&mut e, vec![0xabc], None, &payloads, &refuse_nested);
    assert_eq!(*run.outcome.as_ref().unwrap(), 1);
    assert_eq!(names(&run), vec!["0000000000000abc".to_string()]);
}

#[test]
fn refused_fallback_ends_the_run() {
    let t = table("abc some/name.bin\n");
    let payloads: HashMap<u64, Vec<u8>> = [(0xabcu64, UNKNOWN.to_vec())].into_iter().collect();
    let mut e = Extractor::new(&t);
    let refuse_all = |_: &str| WriteOutcome::InvalidFilename;
    let run = drive(&mut e, vec![0xabc], None, &payloads, &refuse_all);
    match &run.outcome {
        Err(ExtractError::Write { path, hash }) => {
            assert_eq!(path.as_str(), "some/name.bin");
            assert_eq!(*hash, 0xabc);
        },
        other => panic!("unexpected outcome {:?}", other),
    }
}

#[test]
fn other_write_failure_ends_the_run() {
    let t = table("1 a/one.png\n2 a/two.png\n");
    let payloads: HashMap<u64, Vec<u8>> =
        [(1u64, PNG.to_vec()), (2u64, PNG.to_vec())].into_iter().collect();
    let mut e = Extractor::new(&t);
    let fail = |_: &str| WriteOutcome::Failed;
    let run = drive(&mut e, vec![1, 2], None, &payloads, &fail);
    match &run.outcome {
        Err(ExtractError::Write { path, .. }) => assert_eq!(path.as_str(), "a/one.png"),
        other => panic!("unexpected outcome {:?}", other),
    }
    assert_eq!(run.progress, vec![(1, 2)]);
}

#[test]
fn decompression_failure_names_the_chunk() {
    let t = table("1 a/one.png\n2 a/broken.png\n3 a/three.png\n");
    let payloads: HashMap<u64, Vec<u8>> =
        [(1u64, PNG.to_vec()), (3u64, PNG.to_vec())].into_iter().collect();
    let mut e = Extractor::new(&t);
    let run = drive(&mut e, vec![1, 2, 3], None, &payloads, &always_written);
    match &run.outcome {
        Err(ExtractError::Decompress { path, hash }) => {
            assert_eq!(path.as_str(), "a/broken.png");
            assert_eq!(*hash, 2);
        },
        other => panic!("unexpected outcome {:?}", other),
    }
    assert_eq!(names(&run), vec!["a/one.png".to_string()]);
}

#[test]
fn names_without_extension_take_the_content_kind() {
    let t = table("1 tex/plain\n2 misc/blob\n");
    let payloads: HashMap<u64, Vec<u8>> =
        [(1u64, PNG.to_vec()), (2u64, UNKNOWN.to_vec())].into_iter().collect();
    let mut e = Extractor::new(&t);
    let run = drive(&mut e, vec![1, 2], None, &payloads, &always_written);
    assert_eq!(*run.outcome.as_ref().unwrap(), 2);
    assert_eq!(names(&run), vec!["tex/plain.png".to_string(), "misc/.blob".to_string()]);
}

#[test]
fn final_path_from_kind() {
    assert_eq!(resolve_final_chunk_path("a/b", LeagueFileKind::Png), "a/b.png");
    assert_eq!(resolve_final_chunk_path("a/b", LeagueFileKind::PropertyBin), "a/b.bin");
    assert_eq!(resolve_final_chunk_path("a/b", LeagueFileKind::Unknown), "a/.b");
    assert_eq!(resolve_final_chunk_path("a/b.x", LeagueFileKind::Png), "a/b.x");
}

#[test]
fn directories_follow_the_path_pattern() {
    let t = table("1 ui/icons/a.png\n2 data/b.bin\n3 top.png\n");
    let p: PathPattern = create_filter_pattern(Some("png$".to_string())).unwrap().unwrap();
    let chunks = vec![1u64, 2, 3, 4];
    assert_eq!(
        extraction_directories(&chunks, &t, Some(&p)),
        vec!["ui/icons".to_string(), "".to_string()]
    );
    assert_eq!(
        extraction_directories(&chunks, &t, None),
        vec!["ui/icons".to_string(), "data".to_string(), "".to_string(), "".to_string()]
    );
    assert_eq!(get_extracted_count(&chunks, &t, Some(&p)), 2);
    assert_eq!(get_extracted_count(&chunks, &t, None), 4);
}

#[test]
fn starting_a_run_returns_its_directories() {
    let t = table("1 ui/icons/a.png\n2 data/b.bin\n");
    let mut e = Extractor::new(&t);
    let dirs = e.extract_chunks(vec![2, 1], None);
    assert_eq!(dirs, vec!["data".to_string(), "ui/icons".to_string()]);
    // starting again gives the same plan
    assert_eq!(e.extract_chunks(vec![2, 1], None), dirs);
}

#[test]
fn three_byte_payloads_are_classified_without_panicking() {
    let t = table("1 a/odd\n2 a/strings\n");
    let payloads: HashMap<u64, Vec<u8>> =
        [(1u64, b"abc".to_vec()), (2u64, b"RST".to_vec())].into_iter().collect();
    let mut e = Extractor::new(&t);
    let run = drive(&mut e, vec![1, 2], None, &payloads, &always_written);
    assert_eq!(*run.outcome.as_ref().unwrap(), 2);
    assert_eq!(names(&run), vec!["a/.odd".to_string(), "a/strings.stringtable".to_string()]);
    assert_eq!(classify_chunk(b"abc"), LeagueFileKind::Unknown);
    assert_eq!(classify_chunk(b"\xff\xd8\xff"), LeagueFileKind::Unknown);
    assert_eq!(classify_chunk(b"RST"), LeagueFileKind::RiotStringTable);
    assert_eq!(classify_chunk(PNG), LeagueFileKind::Png);
}

#[test]
fn unknown_content_is_flagged_when_prefixed() {
    let t = table("1 misc/blob\n2 misc/x.bin\n");
    let mut e = Extractor::new(&t);
    e.extract_chunks(vec![1, 2], None);
    e.next_chunk().unwrap();
    let w = e.chunk_decompressed(UNKNOWN).unwrap();
    assert_eq!(w.target, "misc/.blob");
    assert!(w.prefixed);
    e.write_finished(WriteOutcome::Written);
    e.next_chunk().unwrap();
    let w = e.chunk_decompressed(UNKNOWN).unwrap();
    assert_eq!(w.target, "misc/x.bin");
    assert!(!w.prefixed);
}
