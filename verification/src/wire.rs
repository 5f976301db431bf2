//! The bytes of a push request: protocol buffers, written out by field.

use vstd::prelude::*;
use vstd::utf8::encode_utf8;
use crate::logproto::EntryAdapter;
use crate::logproto::EntryModel;
use crate::logproto::PushRequest;
use crate::logproto::StreamAdapter;
use crate::logproto::StreamModel;
use crate::logproto::Timestamp;
use crate::logproto::entries_view;
use crate::logproto::streams_view;

verus! {

/// Key of `Timestamp.seconds`: field 1, a varint.
pub const KEY_SECONDS: u8 = 0x08;

/// Key of `Timestamp.nanos`: field 2, a varint.
pub const KEY_NANOS: u8 = 0x10;

/// Key of `EntryAdapter.timestamp`: field 1, length-delimited.
pub const KEY_ENTRY_TIMESTAMP: u8 = 0x0a;

/// Key of `EntryAdapter.line`: field 2, length-delimited.
pub const KEY_ENTRY_LINE: u8 = 0x12;

/// Key of `StreamAdapter.labels`: field 1, length-delimited.
pub const KEY_STREAM_LABELS: u8 = 0x0a;

/// Key of `StreamAdapter.entries`: field 2, length-delimited.
pub const KEY_STREAM_ENTRIES: u8 = 0x12;

/// Key of `StreamAdapter.hash`: field 3, a varint.
pub const KEY_STREAM_HASH: u8 = 0x18;

/// Key of `PushRequest.streams`: field 1, length-delimited.
pub const KEY_PUSH_STREAMS: u8 = 0x0a;

/// A number in base 128, least significant digit first, each byte but the
/// last marked by its high bit.
pub open spec fn varint(value: nat) -> Seq<u8>
    decreases value,
{
    if value < 128 {
        seq![value as u8]
    } else {
        seq![(value % 128 + 128) as u8] + varint(value / 128)
    }
}

/// The unsigned 64-bit number with the same bits as the signed `value`.
pub open spec fn twos_complement(value: int) -> nat {
    if value >= 0 {
        value as nat
    } else {
        (value + 0x1_0000_0000_0000_0000) as nat
    }
}

/// A field that holds a number: its key, then the number as a varint.
pub open spec fn varint_field(key: u8, value: nat) -> Seq<u8> {
    seq![key] + varint(value)
}

/// A field that holds bytes: its key, their count as a varint, then the
/// bytes themselves.
pub open spec fn length_delimited(key: u8, payload: Seq<u8>) -> Seq<u8> {
    seq![key] + varint(payload.len()) + payload
}

/// A field that holds text, which is left out when the text is empty.
pub open spec fn string_field(key: u8, text: Seq<char>) -> Seq<u8> {
    if text.len() == 0 {
        Seq::<u8>::empty()
    } else {
        length_delimited(key, encode_utf8(text))
    }
}

/// The bytes of a timestamp: each of its two numbers, left out when zero.
#[verifier::opaque]
pub open spec fn timestamp_bytes(timestamp: Timestamp) -> Seq<u8> {
    (if timestamp.seconds != 0 {
        varint_field(KEY_SECONDS, twos_complement(timestamp.seconds as int))
    } else {
        Seq::<u8>::empty()
    }) + (if timestamp.nanos != 0 {
        varint_field(KEY_NANOS, twos_complement(timestamp.nanos as int))
    } else {
        Seq::<u8>::empty()
    })
}

/// The bytes of an entry: its timestamp, if it has one, then its line.
#[verifier::opaque]
pub open spec fn entry_bytes(entry: EntryModel) -> Seq<u8> {
    (match entry.timestamp {
        Some(timestamp) => length_delimited(KEY_ENTRY_TIMESTAMP, timestamp_bytes(timestamp)),
        None => Seq::<u8>::empty(),
    }) + string_field(KEY_ENTRY_LINE, entry.line)
}

/// The bytes of a stream's entries, each a field of its own, in order.
pub open spec fn entries_bytes(entries: Seq<EntryModel>) -> Seq<u8>
    decreases entries.len(),
{
    if entries.len() == 0 {
        Seq::<u8>::empty()
    } else {
        entries_bytes(entries.drop_last()) + length_delimited(
            KEY_STREAM_ENTRIES,
            entry_bytes(entries.last()),
        )
    }
}

/// The bytes of a stream: its labels, its entries, then its hash, which is
/// left out when zero.
#[verifier::opaque]
pub open spec fn stream_bytes(stream: StreamModel) -> Seq<u8> {
    string_field(KEY_STREAM_LABELS, stream.labels) + entries_bytes(stream.entries) + (if stream.hash
        != 0 {
        varint_field(KEY_STREAM_HASH, stream.hash as nat)
    } else {
        Seq::<u8>::empty()
    })
}

/// The bytes of a push request: each stream a field of its own, in order.
pub open spec fn push_request_bytes(streams: Seq<StreamModel>) -> Seq<u8>
    decreases streams.len(),
{
    if streams.len() == 0 {
        Seq::<u8>::empty()
    } else {
        push_request_bytes(streams.drop_last()) + length_delimited(
            KEY_PUSH_STREAMS,
            stream_bytes(streams.last()),
        )
    }
}

/// Appends `value` as a varint, by `prost::encoding::encode_varint`. That
/// function writes seven bits per byte, lowest first, and sets the high bit
/// of every byte but the last; ten bytes, its limit, hold any 64-bit value.
#[verifier::external_body]
fn put_varint(value: u64, buf: &mut Vec<u8>)
    ensures
        final(buf)@ == old(buf)@ + varint(value as nat),
{
    prost::encoding::encode_varint(value, buf);
}

/// The unsigned number with the same bits as `value`.
fn unsigned_bits(value: i64) -> (bits: u64)
    ensures
        bits == twos_complement(value as int),
{
    if value >= 0 {
        value as u64
    } else {
        u64::MAX - ((-(value + 1)) as u64)
    }
}

/// Appends a field that holds a number.
fn put_varint_field(key: u8, value: u64, buf: &mut Vec<u8>)
    ensures
        final(buf)@ == old(buf)@ + varint_field(key, value as nat),
{
    buf.push(key);
    put_varint(value, buf);
    assert(buf@ =~= old(buf)@ + varint_field(key, value as nat));
}

/// Appends a field that holds bytes.
fn put_length_delimited(key: u8, payload: &[u8], buf: &mut Vec<u8>)
    ensures
        final(buf)@ == old(buf)@ + length_delimited(key, payload@),
{
    buf.push(key);
    put_varint(payload.len() as u64, buf);
    buf.extend_from_slice(payload);
    assert(buf@ =~= old(buf)@ + length_delimited(key, payload@));
}

/// Appends a field that holds text, unless the text is empty.
fn put_string_field(key: u8, text: &str, buf: &mut Vec<u8>)
    ensures
        final(buf)@ == old(buf)@ + string_field(key, text@),
{
    if !text.is_empty() {
        put_length_delimited(key, text.as_bytes(), buf);
    } else {
        assert(buf@ =~= old(buf)@ + string_field(key, text@));
    }
}

/// Appends the bytes of a timestamp.
pub fn encode_timestamp(timestamp: &Timestamp, buf: &mut Vec<u8>)
    ensures
        final(buf)@ == old(buf)@ + timestamp_bytes(*timestamp),
{
    reveal(timestamp_bytes);
    if timestamp.seconds != 0 {
        put_varint_field(KEY_SECONDS, unsigned_bits(timestamp.seconds), buf);
    }
    if timestamp.nanos != 0 {
        put_varint_field(KEY_NANOS, unsigned_bits(timestamp.nanos as i64), buf);
    }
    assert(buf@ =~= old(buf)@ + timestamp_bytes(*timestamp));
}

/// Appends the bytes of an entry.
pub fn encode_entry(entry: &EntryAdapter, buf: &mut Vec<u8>)
    ensures
        final(buf)@ == old(buf)@ + entry_bytes(entry@),
{
    reveal(entry_bytes);
    match &entry.timestamp {
        Some(timestamp) => {
            let mut inner: Vec<u8> = Vec::new();
            encode_timestamp(timestamp, &mut inner);
            assert(inner@ =~= timestamp_bytes(*timestamp));
            put_length_delimited(KEY_ENTRY_TIMESTAMP, inner.as_slice(), buf);
        },
        None => {},
    }
    put_string_field(KEY_ENTRY_LINE, entry.line.as_str(), buf);
    assert(buf@ =~= old(buf)@ + entry_bytes(entry@));
}

/// Appends the bytes of a stream.
pub fn encode_stream(stream: &StreamAdapter, buf: &mut Vec<u8>)
    ensures
        final(buf)@ == old(buf)@ + stream_bytes(stream@),
{
    reveal(stream_bytes);
    put_string_field(KEY_STREAM_LABELS, stream.labels.as_str(), buf);
    let ghost entries = entries_view(stream.entries@);
    let ghost before = buf@;
    let mut inner: Vec<u8> = Vec::new();
    let mut i: usize = 0;
    while i < stream.entries.len()
        invariant
            i <= stream.entries@.len(),
            entries == entries_view(stream.entries@),
            buf@ == before + entries_bytes(entries.take(i as int)),
        decreases stream.entries@.len() - i,
    {
        inner.clear();
        encode_entry(&stream.entries[i], &mut inner);
        assert(inner@ =~= entry_bytes(entries[i as int]));
        put_length_delimited(KEY_STREAM_ENTRIES, inner.as_slice(), buf);
        proof {
            let next = entries.take(i + 1);
            assert(next.drop_last() =~= entries.take(i as int));
            assert(next.last() == entries[i as int]);
            assert(buf@ =~= before + entries_bytes(next));
        }
        i += 1;
    }
    assert(entries.take(i as int) =~= entries);
    if stream.hash != 0 {
        put_varint_field(KEY_STREAM_HASH, stream.hash, buf);
    }
    assert(buf@ =~= old(buf)@ + stream_bytes(stream@));
}

/// Appends the bytes of a push request.
pub fn encode_push_request(request: &PushRequest, buf: &mut Vec<u8>)
    ensures
        final(buf)@ == old(buf)@ + push_request_bytes(request@),
{
    let ghost streams = streams_view(request.streams@);
    let mut inner: Vec<u8> = Vec::new();
    let mut i: usize = 0;
    while i < request.streams.len()
        invariant
            i <= request.streams@.len(),
            streams == streams_view(request.streams@),
            buf@ == old(buf)@ + push_request_bytes(streams.take(i as int)),
        decreases request.streams@.len() - i,
    {
        inner.clear();
        encode_stream(&request.streams[i], &mut inner);
        assert(inner@ =~= stream_bytes(streams[i as int]));
        let ghost prior = buf@;
        put_length_delimited(KEY_PUSH_STREAMS, inner.as_slice(), buf);
        proof {
            let next = streams.take(i + 1);
            assert(next.drop_last() =~= streams.take(i as int));
            assert(next.last() == streams[i as int]);
            assert(buf@ =~= old(buf)@ + push_request_bytes(next));
        }
        i += 1;
    }
    assert(streams.take(i as int) =~= streams);
}

} // verus!
