//! Extraction of WAD archives: resolving path hashes through hash lists, filtering chunks by
//! path and by content kind, and deciding where each chunk is written.

pub mod classify;
pub mod convert;
pub mod extractor;
pub mod filter;
pub mod hashtable;
pub mod paths;

pub use convert::{ConvertArgs, OutputFormat};
pub use extractor::{
    extraction_directories, get_extracted_count, resolve_final_chunk_path, ChunkStart, ChunkWrite,
    ExtractError, Extractor, WriteOutcome, WriteStep,
};
pub use filter::{chunk_matches, create_filter_pattern, path_matches, FilterError, PathPattern};
pub use hashtable::{ParseError, WadHashtable};
pub use paths::{format_chunk_path_hash, is_hex_chunk_path, truncate_middle};
