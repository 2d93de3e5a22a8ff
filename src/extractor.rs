use league_toolkit::file::LeagueFileKind;
use vstd::prelude::*;

use crate::classify::{
    classified_kind, classify_chunk, extension_of, is_plain_extension, kind_admitted,
    kind_extension, kind_matches,
};
use crate::filter::{chunk_admitted, opt_pattern_view, path_admitted, path_matches, PathPattern};
use crate::hashtable::{resolve, WadHashtable};
use crate::paths::{
    file_name, final_chunk_path, final_path_of, has_extension, has_no_slash, hashed_chunk_path, hashed_path_of,
    lemma_final_path_keeps_directory, lemma_hashed_path_is_flat, opt_view, parent_dir,
    parent_directory,
};

verus! {

/// The resolved paths of the chunks, in order, that pass the path pattern.
pub open spec fn admitted_paths(
    table: Map<u64, Seq<char>>,
    pattern: Option<Seq<char>>,
    chunks: Seq<u64>,
) -> Seq<Seq<char>>
    decreases chunks.len(),
{
    if chunks.len() == 0 {
        Seq::empty()
    } else {
        let rest = admitted_paths(table, pattern, chunks.drop_last());
        let p = resolve(table, chunks.last());
        if path_admitted(pattern, p) {
            rest.push(p)
        } else {
            rest
        }
    }
}

/// The directories to create before any chunk is written: the parent of each resolved path
/// that passes the path pattern, in chunk order.
pub open spec fn planned_directories(
    table: Map<u64, Seq<char>>,
    pattern: Option<Seq<char>>,
    chunks: Seq<u64>,
) -> Seq<Seq<char>> {
    admitted_paths(table, pattern, chunks).map_values(|p: Seq<char>| parent_dir(p))
}

/// The source of an optional pattern.
pub open spec fn pattern_view(p: Option<PathPattern>) -> Option<Seq<char>> {
    match p {
        None => None,
        Some(q) => Some(q@),
    }
}

/// The view of an optional allow-list.
pub open spec fn kinds_view(f: Option<Vec<LeagueFileKind>>) -> Option<Seq<LeagueFileKind>> {
    match f {
        None => None,
        Some(list) => Some(list@),
    }
}

/// The texts of a list of strings.
pub open spec fn strings_view(v: Seq<String>) -> Seq<Seq<char>> {
    v.map_values(|s: String| s@)
}

/// The directories that extraction needs, relative to the destination: the parent directory
/// of every chunk whose resolved path passes the path pattern. The kind allow-list cannot be
/// applied here, since it needs the decompressed bytes.
pub fn extraction_directories(
    chunks: &Vec<u64>,
    hashtable: &WadHashtable,
    filter_pattern: Option<&PathPattern>,
) -> (r: Vec<String>)
    ensures
        strings_view(r@) == planned_directories(
            hashtable@,
            opt_pattern_view(filter_pattern),
            chunks@,
        ),
{
    let ghost pattern = opt_pattern_view(filter_pattern);
    let mut dirs: Vec<String> = Vec::new();
    let mut i: usize = 0;
    while i < chunks.len()
        invariant
            i <= chunks@.len(),
            pattern == opt_pattern_view(filter_pattern),
            strings_view(dirs@) == planned_directories(
                hashtable@,
                pattern,
                chunks@.subrange(0, i as int),
            ),
        decreases chunks@.len() - i,
    {
        let ghost pre = chunks@.subrange(0, i as int);
        let ghost cur = chunks@.subrange(0, i + 1);
        assert(cur.drop_last() =~= pre);
        assert(cur.last() == chunks@[i as int]);
        let path = hashtable.resolve_path(chunks[i]);
        let ghost before_paths = admitted_paths(hashtable@, pattern, pre);
        if path_matches(filter_pattern, path.as_str()) {
            let ghost before = dirs@;
            let dir = parent_directory(path.as_str());
            dirs.push(dir);
            assert(admitted_paths(hashtable@, pattern, cur) == before_paths.push(path@));
            assert(strings_view(dirs@) =~= strings_view(before).push(parent_dir(path@)));
            assert(before_paths.push(path@).map_values(|p: Seq<char>| parent_dir(p))
                =~= before_paths.map_values(|p: Seq<char>| parent_dir(p)).push(parent_dir(path@)));
        } else {
            assert(admitted_paths(hashtable@, pattern, cur) == before_paths);
        }
        i = i + 1;
    }
    assert(chunks@.subrange(0, chunks@.len() as int) =~= chunks@);
    dirs
}

/// How many chunks pass the path pattern: those that extraction will decompress.
pub fn get_extracted_count(
    chunks: &Vec<u64>,
    hashtable: &WadHashtable,
    filter_pattern: Option<&PathPattern>,
) -> (r: usize)
    ensures
        r == admitted_paths(hashtable@, opt_pattern_view(filter_pattern), chunks@).len(),
{
    let ghost pattern = opt_pattern_view(filter_pattern);
    let mut count: usize = 0;
    let mut i: usize = 0;
    while i < chunks.len()
        invariant
            i <= chunks@.len(),
            pattern == opt_pattern_view(filter_pattern),
            count == admitted_paths(hashtable@, pattern, chunks@.subrange(0, i as int)).len(),
            count <= i,
        decreases chunks@.len() - i,
    {
        let ghost pre = chunks@.subrange(0, i as int);
        let ghost cur = chunks@.subrange(0, i + 1);
        assert(cur.drop_last() =~= pre);
        assert(cur.last() == chunks@[i as int]);
        let path = hashtable.resolve_path(chunks[i]);
        if path_matches(filter_pattern, path.as_str()) {
            count = count + 1;
        }
        i = i + 1;
    }
    assert(chunks@.subrange(0, chunks@.len() as int) =~= chunks@);
    count
}

/// Where a chunk whose bytes were classified as `kind` is written, relative to the
/// destination: see `final_path_of`.
pub fn resolve_final_chunk_path(chunk_path: &str, kind: LeagueFileKind) -> (r: String)
    ensures
        r@ == final_path_of(chunk_path@, kind_extension(kind)),
{
    final_chunk_path(chunk_path, extension_of(kind))
}

/// How a write that extraction asked for went.
#[derive(Debug, Clone, Copy, PartialEq, Eq, Structural)]
pub enum WriteOutcome {
    /// The bytes were written.
    Written,
    /// The platform refused the file name (too long, or characters it does not allow).
    InvalidFilename,
    /// Any other failure.
    Failed,
}

/// A failure that ends an extraction run, with the resolved path and the hash of the chunk
/// concerned.
#[derive(Debug)]
pub enum ExtractError {
    Decompress { path: String, hash: u64 },
    Write { path: String, hash: u64 },
}

/// Where to write a chunk's bytes.
#[derive(Debug)]
pub struct ChunkWrite {
    /// The path to write, relative to the destination.
    pub target: String,
    /// The content is of no known kind, so the file name was given a leading `.`.
    pub prefixed: bool,
}

/// What to do next about a chunk whose write was reported.
#[derive(Debug)]
pub enum WriteStep {
    /// The chunk is done.
    Done,
    /// Write the same bytes again, under this path instead.
    Retry { path: String },
    /// The run ends with this error.
    Fail(ExtractError),
}

/// A chunk that the run has reached.
#[derive(Debug)]
pub struct ChunkStart {
    pub path_hash: u64,
    /// The chunk's resolved path.
    pub path: String,
    /// Progress after this chunk: `position` of `total` chunks reached.
    pub position: usize,
    pub total: usize,
    /// Whether the chunk passes the path pattern, so that its bytes are wanted.
    pub decompress: bool,
}

/// What an extraction run waits for.
pub enum Stage {
    /// For the next chunk to be taken up.
    Ready,
    /// For the decompressed bytes of the current chunk, whose resolved path this is.
    AwaitingData { path: String },
    /// For the outcome of writing the current chunk under `target`.
    AwaitingWrite {
        path: String,
        target: String,
        extension: Option<&'static str>,
        fallback: bool,
    },
    /// The run ended in an error.
    Failed,
}

/// What an extraction run waits for, as the contracts see it.
pub enum StageView {
    Ready,
    AwaitingData { path: Seq<char> },
    AwaitingWrite {
        path: Seq<char>,
        target: Seq<char>,
        extension: Option<Seq<char>>,
        fallback: bool,
    },
    Failed,
}

impl View for Stage {
    type V = StageView;

    open spec fn view(&self) -> StageView {
        match self {
            Stage::Ready => StageView::Ready,
            Stage::AwaitingData { path } => StageView::AwaitingData { path: path@ },
            Stage::AwaitingWrite { path, target, extension, fallback } => StageView::AwaitingWrite {
                path: path@,
                target: target@,
                extension: opt_view(*extension),
                fallback: *fallback,
            },
            Stage::Failed => StageView::Failed,
        }
    }
}

/// The resolved path of the chunk that a stage is about.
pub open spec fn stage_path(s: StageView) -> Seq<char> {
    match s {
        StageView::AwaitingData { path } => path,
        StageView::AwaitingWrite { path, .. } => path,
        _ => Seq::empty(),
    }
}

/// Where a stage waits for a write to go.
pub open spec fn stage_target(s: StageView) -> Seq<char> {
    match s {
        StageView::AwaitingWrite { target, .. } => target,
        _ => Seq::empty(),
    }
}

/// The extension that a stage waits to write with.
pub open spec fn stage_extension(s: StageView) -> Option<Seq<char>> {
    match s {
        StageView::AwaitingWrite { extension, .. } => extension,
        _ => None,
    }
}

/// The resolved path that an error names.
pub open spec fn error_path(e: ExtractError) -> Seq<char> {
    match e {
        ExtractError::Decompress { path, .. } => path@,
        ExtractError::Write { path, .. } => path@,
    }
}

/// The hash that an error names.
pub open spec fn error_hash(e: ExtractError) -> u64 {
    match e {
        ExtractError::Decompress { hash, .. } => hash,
        ExtractError::Write { hash, .. } => hash,
    }
}

/// The state of an extraction run, as the contracts see it.
pub struct RunView {
    pub table: Map<u64, Seq<char>>,
    pub pattern: Option<Seq<char>>,
    pub filter_type: Option<Seq<LeagueFileKind>>,
    pub chunks: Seq<u64>,
    /// How many chunks have been taken up.
    pub next: nat,
    /// How many chunks have been written.
    pub written: nat,
    pub stage: StageView,
    /// The progress positions handed out so far, in order.
    pub reported: Seq<nat>,
}

impl RunView {
    /// What holds of a run between steps: progress has been handed out once per chunk taken
    /// up, and a pending chunk's paths are those of the current chunk.
    pub open spec fn wf(self) -> bool {
        &&& self.next <= self.chunks.len()
        &&& self.written <= self.next
        &&& self.reported == Seq::new(self.next, |i: int| (i + 1) as nat)
        &&& match self.stage {
            StageView::Ready => true,
            StageView::Failed => true,
            StageView::AwaitingData { path } => {
                &&& self.next > 0
                &&& self.written < self.next
                &&& path == resolve(self.table, self.chunks[self.next - 1])
            },
            StageView::AwaitingWrite { path, target, extension, fallback } => {
                &&& self.next > 0
                &&& self.written < self.next
                &&& path == resolve(self.table, self.chunks[self.next - 1])
                &&& (extension matches Some(e) ==> is_plain_extension(e))
                &&& target == if fallback {
                    hashed_path_of(self.chunks[self.next - 1], extension)
                } else {
                    final_path_of(path, extension)
                }
            },
        }
    }

    /// Every chunk has been taken up and nothing is pending.
    pub open spec fn finished(self) -> bool {
        self.next == self.chunks.len() && self.stage is Ready
    }

    /// The hash of the chunk taken up last.
    pub open spec fn current_hash(self) -> u64 {
        self.chunks[self.next - 1]
    }
}

/// The run after taking up the next chunk: progress advances whether or not the chunk is
/// wanted, and its bytes are asked for only when its resolved path passes the pattern.
pub open spec fn after_begin(v: RunView) -> RunView {
    let p = resolve(v.table, v.chunks[v.next as int]);
    RunView {
        next: v.next + 1,
        reported: v.reported.push(v.next + 1),
        stage: if path_admitted(v.pattern, p) {
            StageView::AwaitingData { path: p }
        } else {
            StageView::Ready
        },
        ..v
    }
}

/// The run after the current chunk's bytes came back: the chunk is dropped when its kind is
/// not allowed, and otherwise written under its final path.
pub open spec fn after_data(v: RunView, data: Seq<u8>) -> RunView {
    match v.stage {
        StageView::AwaitingData { path } => {
            let kind = classified_kind(data);
            if kind_admitted(v.filter_type, kind) {
                RunView {
                    stage: StageView::AwaitingWrite {
                        path,
                        target: final_path_of(path, kind_extension(kind)),
                        extension: kind_extension(kind),
                        fallback: false,
                    },
                    ..v
                }
            } else {
                RunView { stage: StageView::Ready, ..v }
            }
        },
        _ => v,
    }
}

/// The run after a write was reported: a success counts the chunk; a refused file name is
/// retried once under the chunk's hash, directly in the destination; anything else ends the
/// run.
pub open spec fn after_write(v: RunView, outcome: WriteOutcome) -> RunView {
    match v.stage {
        StageView::AwaitingWrite { path, target, extension, fallback } => match outcome {
            WriteOutcome::Written => RunView { written: v.written + 1, stage: StageView::Ready, ..v },
            WriteOutcome::InvalidFilename => if !fallback {
                RunView {
                    stage: StageView::AwaitingWrite {
                        path,
                        target: hashed_path_of(v.current_hash(), extension),
                        extension,
                        fallback: true,
                    },
                    ..v
                }
            } else {
                RunView { stage: StageView::Failed, ..v }
            },
            WriteOutcome::Failed => RunView { stage: StageView::Failed, ..v },
        },
        _ => v,
    }
}

/// One chunk taken through a run that is ready for it: taken up, classified where its path
/// passes the pattern, written where its kind passes the allow-list, and written again under
/// its hash where its name is refused. `write` gives the outcome of writing each path. Returns
/// the run afterwards and the path the chunk was written under, if any.
pub open spec fn run_chunk(
    v: RunView,
    data: Seq<u8>,
    write: spec_fn(Seq<char>) -> WriteOutcome,
) -> (RunView, Option<Seq<char>>) {
    let v1 = after_begin(v);
    if !(v1.stage is AwaitingData) {
        (v1, None)
    } else {
        let v2 = after_data(v1, data);
        if !(v2.stage is AwaitingWrite) {
            (v2, None)
        } else {
            let t = stage_target(v2.stage);
            let v3 = after_write(v2, write(t));
            if v3.stage is Ready {
                (v3, Some(t))
            } else if v3.stage is AwaitingWrite {
                let t2 = stage_target(v3.stage);
                let v4 = after_write(v3, write(t2));
                (v4, if v4.stage is Ready { Some(t2) } else { None })
            } else {
                (v3, None)
            }
        }
    }
}

/// The run after `k` chunks from `v`, where `datas[i]` holds the decompressed bytes of chunk
/// `i`, and the paths written, in order. It stops where the run fails.
pub open spec fn run_steps(
    v: RunView,
    datas: Seq<Seq<u8>>,
    write: spec_fn(Seq<char>) -> WriteOutcome,
    k: nat,
) -> (RunView, Seq<Seq<char>>)
    decreases k,
{
    if k == 0 {
        (v, Seq::empty())
    } else {
        let (u, files) = run_steps(v, datas, write, (k - 1) as nat);
        if u.stage is Ready && u.next < u.chunks.len() {
            let (u2, f) = run_chunk(u, datas[u.next as int], write);
            (
                u2,
                match f {
                    Some(t) => files.push(t),
                    None => files,
                },
            )
        } else {
            (u, files)
        }
    }
}

/// Where each of the first `k` chunks that pass both filters is written, in order: under its
/// final path, or under its hash where the final path is refused.
pub open spec fn expected_files(
    v: RunView,
    datas: Seq<Seq<u8>>,
    write: spec_fn(Seq<char>) -> WriteOutcome,
    k: nat,
) -> Seq<Seq<char>>
    decreases k,
{
    if k == 0 {
        Seq::empty()
    } else {
        let rest = expected_files(v, datas, write, (k - 1) as nat);
        let h = v.chunks[k - 1];
        let p = resolve(v.table, h);
        let kind = classified_kind(datas[k - 1]);
        if chunk_admitted(v.pattern, v.filter_type, p, kind) {
            let ext = kind_extension(kind);
            let t = final_path_of(p, ext);
            rest.push(
                if write(t) == WriteOutcome::Written {
                    t
                } else {
                    hashed_path_of(h, ext)
                },
            )
        } else {
            rest
        }
    }
}

/// How many of the first `k` chunks pass both the path pattern and the kind allow-list.
pub open spec fn admitted_count(v: RunView, datas: Seq<Seq<u8>>, k: nat) -> nat
    decreases k,
{
    if k == 0 {
        0
    } else {
        admitted_count(v, datas, (k - 1) as nat) + if chunk_admitted(
            v.pattern,
            v.filter_type,
            resolve(v.table, v.chunks[k - 1]),
            classified_kind(datas[k - 1]),
        ) {
            1nat
        } else {
            0nat
        }
    }
}

/// The outcome of a run whose decompressions all succeed and whose writes fail only by a
/// refused name, never under a hash name: after `k` chunks, every chunk that passes both
/// filters has been written exactly once, under its final path or, where that is refused,
/// under its hash directly in the destination, and the written count is the number of such
/// chunks. With `k` the number of chunks the run is finished.
pub proof fn lemma_run_outcome(
    v: RunView,
    datas: Seq<Seq<u8>>,
    write: spec_fn(Seq<char>) -> WriteOutcome,
    k: nat,
)
    requires
        v.wf(),
        v.stage is Ready,
        v.next == 0,
        v.written == 0,
        datas.len() == v.chunks.len(),
        k <= v.chunks.len(),
        forall|t: Seq<char>| #[trigger] write(t) != WriteOutcome::Failed,
        forall|h: u64, e: Option<Seq<char>>|
            #[trigger] write(hashed_path_of(h, e)) == WriteOutcome::Written,
    ensures
        ({
            let (u, files) = run_steps(v, datas, write, k);
            &&& u.stage is Ready
            &&& u.next == k
            &&& u.table == v.table
            &&& u.pattern == v.pattern
            &&& u.filter_type == v.filter_type
            &&& u.chunks == v.chunks
            &&& files == expected_files(v, datas, write, k)
            &&& u.written == files.len()
            &&& u.written == admitted_count(v, datas, k)
            &&& (k == v.chunks.len() ==> u.finished())
        }),
    decreases k,
{
    if k > 0 {
        lemma_run_outcome(v, datas, write, (k - 1) as nat);
        let (u, files) = run_steps(v, datas, write, (k - 1) as nat);
        let data = datas[k - 1];
        let h = v.chunks[k - 1];
        let p = resolve(v.table, h);
        let kind = classified_kind(data);
        let v1 = after_begin(u);
        assert(v1.chunks[v1.next - 1] == h);
        if v1.stage is AwaitingData {
            let v2 = after_data(v1, data);
            if v2.stage is AwaitingWrite {
                let ext = kind_extension(kind);
                let t = final_path_of(p, ext);
                assert(stage_target(v2.stage) == t);
                let v3 = after_write(v2, write(t));
                if write(t) == WriteOutcome::InvalidFilename {
                    assert(stage_target(v3.stage) == hashed_path_of(h, ext));
                    assert(write(hashed_path_of(h, ext)) == WriteOutcome::Written);
                }
            }
        }
    }
}

/// A chunk whose resolved path already has an extension is written under exactly that path
/// when the write is accepted, whatever its content: a path from a hash list is kept as is.
pub proof fn lemma_resolved_path_kept(table: Map<u64, Seq<char>>, h: u64, ext: Option<Seq<char>>)
    requires
        has_extension(resolve(table, h)),
    ensures
        final_path_of(resolve(table, h), ext) == resolve(table, h),
{
}

/// Drives the extraction of a set of chunks: it decides, chunk by chunk, what to decompress,
/// where to write and what to count, while its caller does the reading and writing.
pub struct Extractor<'a> {
    hashtable: &'a WadHashtable,
    filter_pattern: Option<PathPattern>,
    filter_type: Option<Vec<LeagueFileKind>>,
    chunks: Vec<u64>,
    next: usize,
    written: usize,
    stage: Stage,
    reported: Ghost<Seq<nat>>,
}

impl<'a> View for Extractor<'a> {
    type V = RunView;

    closed spec fn view(&self) -> RunView {
        RunView {
            table: self.hashtable@,
            pattern: pattern_view(self.filter_pattern),
            filter_type: kinds_view(self.filter_type),
            chunks: self.chunks@,
            next: self.next as nat,
            written: self.written as nat,
            stage: self.stage@,
            reported: self.reported@,
        }
    }
}

impl<'a> Extractor<'a> {
    /// An extractor over `hashtable`, with no pattern and no chunks yet.
    pub fn new(hashtable: &'a WadHashtable) -> (r: Extractor<'a>)
        ensures
            r@.table == hashtable@,
            r@.pattern is None,
            r@.filter_type is None,
            r@.chunks.len() == 0,
            r@.next == 0,
            r@.written == 0,
            r@.stage is Ready,
            r@.wf(),
    {
        let r = Extractor {
            hashtable,
            filter_pattern: None,
            filter_type: None,
            chunks: Vec::new(),
            next: 0,
            written: 0,
            stage: Stage::Ready,
            reported: Ghost(Seq::empty()),
        };
        assert(r@.reported =~= Seq::new(0, |i: int| (i + 1) as nat));
        r
    }

    /// Sets the pattern that resolved paths must match.
    pub fn set_filter_pattern(&mut self, filter_pattern: Option<PathPattern>)
        ensures
            final(self)@ == (RunView {
                pattern: pattern_view(filter_pattern),
                ..old(self)@
            }),
    {
        self.filter_pattern = filter_pattern;
    }

    /// Starts a run over `chunks`, taken in the order given, keeping only chunks whose
    /// classified kind is in `filter_type` where that is given. Returns the directories to
    /// create, relative to the destination, before any chunk is written.
    pub fn extract_chunks(
        &mut self,
        chunks: Vec<u64>,
        filter_type: Option<Vec<LeagueFileKind>>,
    ) -> (r: Vec<String>)
        ensures
            final(self)@ == (RunView {
                filter_type: kinds_view(filter_type),
                chunks: chunks@,
                next: 0,
                written: 0,
                stage: StageView::Ready,
                reported: Seq::empty(),
                ..old(self)@
            }),
            final(self)@.wf(),
            strings_view(r@) == planned_directories(old(self)@.table, old(self)@.pattern, chunks@),
    {
        let dirs = extraction_directories(&chunks, self.hashtable, self.filter_pattern.as_ref());
        self.chunks = chunks;
        self.filter_type = filter_type;
        self.next = 0;
        self.written = 0;
        self.stage = Stage::Ready;
        self.reported = Ghost(Seq::empty());
        assert(self@.reported =~= Seq::new(0, |i: int| (i + 1) as nat));
        dirs
    }

    /// Takes up the next chunk, or returns `None` once every chunk has been taken up. The
    /// progress position advances for every chunk, wanted or not.
    pub fn next_chunk(&mut self) -> (r: Option<ChunkStart>)
        requires
            old(self)@.wf(),
            old(self)@.stage is Ready,
        ensures
            final(self)@.wf(),
            old(self)@.next == old(self)@.chunks.len() ==> r is None && final(self)@ == old(self)@,
            old(self)@.next < old(self)@.chunks.len() ==> (r matches Some(s) && {
                let h = old(self)@.chunks[old(self)@.next as int];
                let p = resolve(old(self)@.table, h);
                &&& s.path_hash == h
                &&& s.path@ == p
                &&& s.position == old(self)@.next + 1
                &&& s.total == old(self)@.chunks.len()
                &&& s.decompress == path_admitted(old(self)@.pattern, p)
                &&& final(self)@ == after_begin(old(self)@)
            }),
    {
        if self.next >= self.chunks.len() {
            return None;
        }
        let h = self.chunks[self.next];
        let path = self.hashtable.resolve_path(h);
        let decompress = path_matches(self.filter_pattern.as_ref(), path.as_str());
        let ghost old_next = self.next as nat;
        self.next = self.next + 1;
        self.reported = Ghost(self.reported@.push(self.next as nat));
        assert(self.reported@ =~= Seq::new(self.next as nat, |i: int| (i + 1) as nat));
        if decompress {
            self.stage = Stage::AwaitingData { path: path.clone() };
        }
        Some(ChunkStart {
            path_hash: h,
            path,
            position: self.next,
            total: self.chunks.len(),
            decompress,
        })
    }

    /// Takes the decompressed bytes of the current chunk. Returns where to write them,
    /// relative to the destination, or `None` where the chunk's kind is not allowed.
    pub fn chunk_decompressed(&mut self, data: &[u8]) -> (r: Option<ChunkWrite>)
        requires
            old(self)@.wf(),
            old(self)@.stage is AwaitingData,
        ensures
            final(self)@.wf(),
            final(self)@ == after_data(old(self)@, data@),
            r is Some <==> kind_admitted(old(self)@.filter_type, classified_kind(data@)),
            r matches Some(w) ==> w.target@ == stage_target(final(self)@.stage),
            r matches Some(w) ==> w.prefixed == (kind_extension(classified_kind(data@)) is None
                && stage_target(final(self)@.stage) != stage_path(old(self)@.stage)),
    {
        let path = match &self.stage {
            Stage::AwaitingData { path } => path.clone(),
            _ => {
                return None;
            },
        };
        let kind = classify_chunk(data);
        if !kind_matches(self.filter_type.as_ref(), kind) {
            self.stage = Stage::Ready;
            return None;
        }
        let extension = extension_of(kind);
        let target = final_chunk_path(path.as_str(), extension);
        let prefixed = extension.is_none() && !target.eq(&path);
        self.stage = Stage::AwaitingWrite { path, target: target.clone(), extension, fallback: false };
        Some(ChunkWrite { target, prefixed })
    }

    /// Reports that the current chunk's bytes could not be decompressed, which ends the run.
    pub fn decompress_failed(&mut self) -> (r: ExtractError)
        requires
            old(self)@.wf(),
            old(self)@.stage is AwaitingData,
        ensures
            final(self)@.wf(),
            final(self)@ == (RunView { stage: StageView::Failed, ..old(self)@ }),
            r is Decompress,
            error_path(r) == stage_path(old(self)@.stage),
            error_hash(r) == old(self)@.current_hash(),
    {
        let path = match &self.stage {
            Stage::AwaitingData { path } => path.clone(),
            _ => String::new(),
        };
        let hash = self.chunks[self.next - 1];
        self.stage = Stage::Failed;
        ExtractError::Decompress { path, hash }
    }

    /// Reports how the write of the current chunk went. A refused file name is retried once,
    /// under the chunk's hash and directly in the destination; any other failure ends the run.
    pub fn write_finished(&mut self, outcome: WriteOutcome) -> (r: WriteStep)
        requires
            old(self)@.wf(),
            old(self)@.stage is AwaitingWrite,
        ensures
            final(self)@.wf(),
            final(self)@ == after_write(old(self)@, outcome),
            r is Done <==> outcome == WriteOutcome::Written,
            r matches WriteStep::Retry { path: t } ==> t@ == stage_target(final(self)@.stage),
            r is Fail <==> final(self)@.stage is Failed,
            r matches WriteStep::Fail(e) ==> e is Write && error_path(e) == stage_path(
                old(self)@.stage,
            ) && error_hash(e) == old(self)@.current_hash(),
    {
        let (path, extension, fallback) = match &self.stage {
            Stage::AwaitingWrite { path, target: _, extension, fallback } => (
                path.clone(),
                *extension,
                *fallback,
            ),
            _ => {
                return WriteStep::Done;
            },
        };
        match outcome {
            WriteOutcome::Written => {
                self.written = self.written + 1;
                self.stage = Stage::Ready;
                WriteStep::Done
            },
            WriteOutcome::InvalidFilename => {
                if fallback {
                    let hash = self.chunks[self.next - 1];
                    self.stage = Stage::Failed;
                    WriteStep::Fail(ExtractError::Write { path, hash })
                } else {
                    let target = hashed_chunk_path(self.chunks[self.next - 1], extension);
                    self.stage = Stage::AwaitingWrite {
                        path,
                        target: target.clone(),
                        extension,
                        fallback: true,
                    };
                    WriteStep::Retry { path: target }
                }
            },
            WriteOutcome::Failed => {
                let hash = self.chunks[self.next - 1];
                self.stage = Stage::Failed;
                WriteStep::Fail(ExtractError::Write { path, hash })
            },
        }
    }

    /// How many chunks have been written so far.
    pub fn written_count(&self) -> (r: usize)
        ensures
            r == self@.written,
    {
        self.written
    }
}

proof fn lemma_plain_extension_has_no_slash(ext: Option<Seq<char>>)
    requires
        ext matches Some(e) ==> is_plain_extension(e),
    ensures
        ext matches Some(e) ==> has_no_slash(e),
{
    if let Some(e) = ext {
        assert forall|i: int| 0 <= i < e.len() implies #[trigger] e[i] != '/' by {
            assert('a' <= e[i] && e[i] <= 'z');
        }
    }
}

/// Progress over a run: one position is handed out for every chunk taken up, whether it is
/// skipped or not; the positions rise by one each time and never pass the total, and once
/// every chunk has been taken up the last of them is the total, so progress reaches 1.
pub proof fn lemma_progress_monotone(v: RunView)
    requires
        v.wf(),
    ensures
        v.reported.len() == v.next,
        forall|i: int, j: int|
            0 <= i <= j < v.reported.len() ==> #[trigger] v.reported[i] <= #[trigger] v.reported[j],
        forall|i: int| 0 <= i < v.reported.len() ==> #[trigger] v.reported[i] <= v.chunks.len(),
        v.finished() && v.chunks.len() > 0 ==> v.reported.last() == v.chunks.len(),
{
}

/// Taking up a chunk always hands out the next progress position, whether or not the chunk
/// is then decompressed.
pub proof fn lemma_begin_reports(v: RunView)
    requires
        v.wf(),
        v.stage is Ready,
        v.next < v.chunks.len(),
    ensures
        after_begin(v).wf(),
        after_begin(v).reported == v.reported.push(v.next + 1),
        v.reported.len() > 0 ==> v.reported.last() < v.next + 1,
{
    assert(after_begin(v).reported =~= Seq::new(v.next + 1, |i: int| (i + 1) as nat));
}

/// A chunk reaches a write exactly when its resolved path passes the pattern and its
/// classified kind passes the allow-list: a path that matches does not save a chunk whose
/// kind is excluded, which is dropped with nothing written and nothing counted.
pub proof fn lemma_filter_conjunction(v: RunView, data: Seq<u8>)
    requires
        v.wf(),
        v.stage is Ready,
        v.next < v.chunks.len(),
    ensures
        ({
            let v1 = after_begin(v);
            let v2 = after_data(v1, data);
            let p = resolve(v.table, v.chunks[v.next as int]);
            let kind = classified_kind(data);
            &&& (v1.stage is AwaitingData <==> path_admitted(v.pattern, p))
            &&& (v1.stage is AwaitingData ==> (v2.stage is AwaitingWrite <==> chunk_admitted(
                v.pattern,
                v.filter_type,
                p,
                kind,
            )))
            &&& (v1.stage is AwaitingData && !kind_admitted(v.filter_type, kind) ==> v2.stage is Ready
                && v2.written == v.written)
        }),
{
}

/// A chunk whose file name the platform refuses is written again under its hash, with its
/// kind's extension, directly in the destination, never under the refused name's directory;
/// once that write succeeds the chunk counts as written.
pub proof fn lemma_fallback_write(v: RunView)
    requires
        v.wf(),
        v.stage matches StageView::AwaitingWrite { fallback, .. } && !fallback,
    ensures
        ({
            let v1 = after_write(v, WriteOutcome::InvalidFilename);
            let target = stage_target(v1.stage);
            &&& v1.stage is AwaitingWrite
            &&& v1.wf()
            &&& target == hashed_path_of(v.current_hash(), stage_extension(v.stage))
            &&& has_no_slash(target)
            &&& file_name(target) == target
            &&& after_write(v1, WriteOutcome::Written).written == v.written + 1
            &&& after_write(v1, WriteOutcome::Written).stage is Ready
        }),
{
    lemma_plain_extension_has_no_slash(stage_extension(v.stage));
    lemma_hashed_path_is_flat(v.current_hash(), stage_extension(v.stage));
}

/// A chunk written under its final path lands in the directory that the pre-pass created for
/// its resolved path.
pub proof fn lemma_write_in_planned_directory(v: RunView)
    requires
        v.wf(),
        v.stage matches StageView::AwaitingWrite { fallback, .. } && !fallback,
    ensures
        parent_dir(stage_target(v.stage)) == parent_dir(stage_path(v.stage)),
{
    lemma_plain_extension_has_no_slash(stage_extension(v.stage));
    lemma_final_path_keeps_directory(stage_path(v.stage), stage_extension(v.stage));
}

} // verus!
