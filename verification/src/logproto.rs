//! The messages of Loki's push and query protocol, as plain data.

use vstd::prelude::*;
use std::collections::HashMap;

verus! {

/// A point in time: whole seconds since the Unix epoch and the nanoseconds
/// that follow them.
#[derive(Clone, Copy, Debug, PartialEq, Eq, Structural)]
pub struct Timestamp {
    pub seconds: i64,
    pub nanos: i32,
}

/// What an [`EntryAdapter`] holds, as mathematical values.
pub struct EntryModel {
    pub timestamp: Option<Timestamp>,
    pub line: Seq<char>,
}

/// What a [`StreamAdapter`] holds, as mathematical values.
pub struct StreamModel {
    pub labels: Seq<char>,
    pub entries: Seq<EntryModel>,
    pub hash: u64,
}

/// One log line with the time at which it was captured.
#[derive(Clone, Debug, PartialEq)]
pub struct EntryAdapter {
    pub timestamp: Option<Timestamp>,
    pub line: String,
}

impl View for EntryAdapter {
    type V = EntryModel;

    open spec fn view(&self) -> EntryModel {
        EntryModel { timestamp: self.timestamp, line: self.line@ }
    }
}

/// The views of a sequence of entries, one for one.
pub open spec fn entries_view(entries: Seq<EntryAdapter>) -> Seq<EntryModel> {
    Seq::new(entries.len(), |i: int| entries[i]@)
}

/// A stream: a label selector and the entries sent under it.
#[derive(Clone, Debug, PartialEq)]
pub struct StreamAdapter {
    pub labels: String,
    pub entries: Vec<EntryAdapter>,
    /// The hash of the stream; zero where none was computed.
    pub hash: u64,
}

impl View for StreamAdapter {
    type V = StreamModel;

    open spec fn view(&self) -> StreamModel {
        StreamModel {
            labels: self.labels@,
            entries: entries_view(self.entries@),
            hash: self.hash,
        }
    }
}

/// The views of a sequence of streams, one for one.
pub open spec fn streams_view(streams: Seq<StreamAdapter>) -> Seq<StreamModel> {
    Seq::new(streams.len(), |i: int| streams[i]@)
}

/// The body of a push: zero or more streams.
#[derive(Clone, Debug, PartialEq)]
pub struct PushRequest {
    pub streams: Vec<StreamAdapter>,
}

impl View for PushRequest {
    type V = Seq<StreamModel>;

    open spec fn view(&self) -> Seq<StreamModel> {
        streams_view(self.streams@)
    }
}

#[derive(Clone, Debug, PartialEq)]
pub struct PushResponse {
}

/// The order in which a query returns its entries.
#[derive(Clone, Copy, Debug, PartialEq, Eq, Structural, Hash)]
pub enum Direction {
    Forward,
    Backward,
}

impl Direction {
    /// The number that stands for the direction on the wire.
    pub open spec fn spec_number(self) -> i32 {
        match self {
            Direction::Forward => 0i32,
            Direction::Backward => 1i32,
        }
    }

    /// The number that stands for the direction on the wire.
    pub fn number(self) -> (n: i32)
        ensures
            n == self.spec_number(),
    {
        match self {
            Direction::Forward => 0,
            Direction::Backward => 1,
        }
    }

    /// The direction that `n` stands for, if it stands for one.
    pub fn from_number(n: i32) -> (direction: Option<Direction>)
        ensures
            n == 0 ==> direction == Some(Direction::Forward),
            n == 1 ==> direction == Some(Direction::Backward),
            n != 0 && n != 1 ==> direction.is_none(),
    {
        if n == 0 {
            Some(Direction::Forward)
        } else if n == 1 {
            Some(Direction::Backward)
        } else {
            None
        }
    }
}

#[derive(Clone, Debug, PartialEq)]
pub struct Delete {
    pub selector: String,
    pub start: i64,
    pub end: i64,
}

#[derive(Clone, Debug, PartialEq)]
pub struct QueryRequest {
    pub selector: String,
    pub limit: u32,
    pub start: Option<Timestamp>,
    pub end: Option<Timestamp>,
    pub direction: i32,
    pub shards: Vec<String>,
    pub deletes: Vec<Delete>,
}

#[derive(Clone, Debug, PartialEq)]
pub struct SampleQueryRequest {
    pub selector: String,
    pub start: Option<Timestamp>,
    pub end: Option<Timestamp>,
    pub shards: Vec<String>,
    pub deletes: Vec<Delete>,
}

#[derive(Clone, Debug, PartialEq)]
pub struct QueryResponse {
    pub streams: Vec<StreamAdapter>,
    pub stats: Option<crate::stats::Ingester>,
}

#[derive(Clone, Debug, PartialEq)]
pub struct LabelRequest {
    pub name: String,
    /// True to fetch label values, false for fetch labels names.
    pub values: bool,
    pub start: Option<Timestamp>,
    pub end: Option<Timestamp>,
}

#[derive(Clone, Debug, PartialEq)]
pub struct LabelResponse {
    pub values: Vec<String>,
}

#[derive(Clone, Debug, PartialEq)]
pub struct TailRequest {
    pub query: String,
    pub delay_for: u32,
    pub limit: u32,
    pub start: Option<Timestamp>,
}

#[derive(Clone, Debug, PartialEq)]
pub struct DroppedStream {
    pub from: Option<Timestamp>,
    pub to: Option<Timestamp>,
    pub labels: String,
}

#[derive(Clone, Debug, PartialEq)]
pub struct TailResponse {
    pub stream: Option<StreamAdapter>,
    pub dropped_streams: Vec<DroppedStream>,
}

#[derive(Clone, Debug, PartialEq)]
pub struct SeriesRequest {
    pub start: Option<Timestamp>,
    pub end: Option<Timestamp>,
    pub groups: Vec<String>,
    pub shards: Vec<String>,
}

#[derive(Clone, Debug, PartialEq)]
pub struct SeriesIdentifier {
    pub labels: HashMap<String, String>,
}

#[derive(Clone, Debug, PartialEq)]
pub struct SeriesResponse {
    pub series: Vec<SeriesIdentifier>,
}

#[derive(Clone, Debug, PartialEq)]
pub struct LabelPair {
    pub name: String,
    pub value: String,
}

/// LegacyLabelPair exists for backwards compatibility reasons and is deprecated. Do not use.
#[derive(Clone, Debug, PartialEq)]
pub struct LegacyLabelPair {
    pub name: Vec<u8>,
    pub value: Vec<u8>,
}

#[derive(Clone, Debug, PartialEq)]
pub struct Chunk {
    pub data: Vec<u8>,
}

#[derive(Clone, Debug, PartialEq)]
pub struct TimeSeriesChunk {
    pub from_ingester_id: String,
    pub user_id: String,
    pub labels: Vec<LabelPair>,
    pub chunks: Vec<Chunk>,
}

#[derive(Clone, Debug, PartialEq)]
pub struct TransferChunksResponse {
}

#[derive(Clone, Debug, PartialEq)]
pub struct TailersCountRequest {
}

#[derive(Clone, Debug, PartialEq)]
pub struct TailersCountResponse {
    pub count: u32,
}

#[derive(Clone, Debug, PartialEq)]
pub struct GetChunkIDsRequest {
    pub matchers: String,
    pub start: Option<Timestamp>,
    pub end: Option<Timestamp>,
}

#[derive(Clone, Debug, PartialEq)]
pub struct GetChunkIDsResponse {
    pub chunk_i_ds: Vec<String>,
}

} // verus!
