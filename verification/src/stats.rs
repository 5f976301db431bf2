//! Query statistics that Loki reports, as plain data.

use vstd::prelude::*;

verus! {

#[derive(Clone, Debug, PartialEq)]
pub struct Chunk {
    /// Total bytes processed but was already in memory. (found in the headchunk)
    pub head_chunk_bytes: i64,
    /// Total lines processed but was already in memory. (found in the headchunk)
    pub head_chunk_lines: i64,
    /// Total bytes decompressed and processed from chunks.
    pub decompressed_bytes: i64,
    /// Total lines decompressed and processed from chunks.
    pub decompressed_lines: i64,
    /// Total bytes of compressed chunks (blocks) processed.
    pub compressed_bytes: i64,
    /// Total duplicates found while processing.
    pub total_duplicates: i64,
}

#[derive(Clone, Debug, PartialEq)]
pub struct Store {
    /// The total of chunk reference fetched from index.
    pub total_chunks_ref: i64,
    /// Total number of chunks fetched.
    pub total_chunks_downloaded: i64,
    /// Time spent fetching chunks in nanoseconds.
    pub chunks_download_time: i64,
    pub chunk: Option<Chunk>,
}

#[derive(Clone, Debug, PartialEq)]
pub struct Querier {
    pub store: Option<Store>,
}

#[derive(Clone, Debug, PartialEq)]
pub struct Ingester {
    /// Total ingester reached for this query.
    pub total_reached: i32,
    /// Total of chunks matched by the query from ingesters
    pub total_chunks_matched: i64,
    /// Total of batches sent from ingesters.
    pub total_batches: i64,
    /// Total lines sent by ingesters.
    pub total_lines_sent: i64,
    pub store: Option<Store>,
}

} // verus!
