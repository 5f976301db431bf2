//! Reading a push request back from its bytes.
//!
//! The reader takes what the writer of this crate produces: the fields of
//! each message in the order of their numbers, optional ones present or
//! not, and nothing else. Anything else is refused.

use vstd::prelude::*;
use vstd::utf8::decode_utf8;
use vstd::utf8::encode_utf8;
use vstd::utf8::valid_utf8;
use crate::logproto::EntryAdapter;
use crate::logproto::EntryModel;
use crate::logproto::PushRequest;
use crate::logproto::StreamAdapter;
use crate::logproto::StreamModel;
use crate::logproto::Timestamp;
use crate::logproto::entries_view;
use crate::logproto::streams_view;
use crate::wire::KEY_ENTRY_LINE;
use crate::wire::KEY_ENTRY_TIMESTAMP;
use crate::wire::KEY_NANOS;
use crate::wire::KEY_PUSH_STREAMS;
use crate::wire::KEY_SECONDS;
use crate::wire::KEY_STREAM_ENTRIES;
use crate::wire::KEY_STREAM_HASH;
use crate::wire::KEY_STREAM_LABELS;
use crate::wire::entries_bytes;
use crate::wire::entry_bytes;
use crate::wire::length_delimited;
use crate::wire::push_request_bytes;
use crate::wire::stream_bytes;
use crate::wire::string_field;
use crate::wire::timestamp_bytes;
use crate::wire::twos_complement;
use crate::wire::varint;
use crate::wire::varint_field;

verus! {

/// A varint has at most this many bytes.
pub const MAX_VARINT_LEN: usize = 10;

/// The number that the varint at the start of `bytes` stands for, and how
/// many bytes it takes; nothing where there is no varint of at most
/// `budget` bytes, or where the number does not fit into 64 bits.
pub open spec fn parse_varint(bytes: Seq<u8>, budget: nat) -> Option<(nat, nat)>
    decreases budget,
{
    if budget == 0 || bytes.len() == 0 {
        None
    } else if bytes[0] < 128 {
        Some((bytes[0] as nat, 1nat))
    } else {
        match parse_varint(bytes.drop_first(), (budget - 1) as nat) {
            Some((rest, len)) => if (bytes[0] - 128) + 128 * rest <= u64::MAX {
                Some((((bytes[0] - 128) + 128 * rest) as nat, len + 1))
            } else {
                None
            },
            None => None,
        }
    }
}

/// The smallest number that a varint of `len` bytes cannot hold.
pub open spec fn varint_limit(len: nat) -> nat
    decreases len,
{
    if len == 0 {
        1
    } else {
        128 * varint_limit((len - 1) as nat)
    }
}

/// A varint that was written is read back as the number it was written
/// for, whatever follows it.
pub proof fn lemma_varint_round_trip(value: nat, rest: Seq<u8>, budget: nat)
    requires
        value <= u64::MAX,
        value < varint_limit(budget),
        budget >= 1,
    ensures
        parse_varint(varint(value) + rest, budget) == Some((value, varint(value).len())),
        varint(value).len() >= 1,
    decreases budget,
{
    let bytes = varint(value) + rest;
    if value < 128 {
        assert(varint(value) == seq![value as u8]);
        assert(bytes[0] == value as u8);
        assert(varint(value).len() == 1);
    } else {
        let first = (value % 128 + 128) as u8;
        let higher = value / 128;
        assert(varint(value) == seq![first] + varint(higher));
        assert(bytes[0] == first);
        assert(bytes.drop_first() =~= varint(higher) + rest);
        assert(higher < varint_limit((budget - 1) as nat)) by (nonlinear_arith)
            requires
                value < 128 * varint_limit((budget - 1) as nat),
                higher == value / 128,
        ;
        assert(higher >= 1);
        assert(budget - 1 >= 1) by {
            if budget == 1 {
                assert(varint_limit(0) == 1);
            }
        }
        lemma_varint_round_trip(higher, rest, (budget - 1) as nat);
        assert((first - 128) + 128 * higher == value);
        assert(varint(value).len() == 1 + varint(higher).len());
    }
}

/// Ten bytes hold every number of 64 bits.
pub proof fn lemma_varint_limit()
    ensures
        u64::MAX < varint_limit(MAX_VARINT_LEN as nat),
{
    reveal_with_fuel(varint_limit, 11);
}

/// Reads the varint that starts at `pos`, of at most `budget` bytes:
/// the number and the place after it.
fn read_varint_within(bytes: &[u8], pos: usize, budget: usize) -> (read: Option<(u64, usize)>)
    requires
        pos <= bytes@.len(),
    ensures
        match parse_varint(bytes@.skip(pos as int), budget as nat) {
            Some((value, len)) => read.is_some() && read.unwrap().0 == value && read.unwrap().1
                == pos + len && pos + len <= bytes@.len(),
            None => read.is_none(),
        },
    decreases budget,
{
    if budget == 0 || pos >= bytes.len() {
        return None;
    }
    let first = bytes[pos];
    assert(bytes@.skip(pos as int)[0] == first);
    if first < 128 {
        return Some((first as u64, pos + 1));
    }
    assert(bytes@.skip(pos as int).drop_first() =~= bytes@.skip(pos + 1));
    match read_varint_within(bytes, pos + 1, budget - 1) {
        Some((rest, next)) => {
            let low = (first - 128) as u64;
            if rest > (u64::MAX - low) / 128 {
                assert(low + 128 * rest > u64::MAX) by (nonlinear_arith)
                    requires
                        rest > (u64::MAX - low) / 128,
                        low < 128,
                ;
                None
            } else {
                assert(low + 128 * rest <= u64::MAX) by (nonlinear_arith)
                    requires
                        rest <= (u64::MAX - low) / 128,
                        low < 128,
                ;
                Some((low + 128 * rest, next))
            }
        },
        None => None,
    }
}

/// Whether `bytes` begin with the field key `key`.
pub open spec fn starts_with_key(bytes: Seq<u8>, key: u8) -> bool {
    bytes.len() > 0 && bytes[0] == key
}

/// The field with `key` that holds a number, at the start of `bytes`: the
/// number, and how many bytes the field takes. Where `bytes` begin with
/// another key or are empty, the field is absent and stands for zero.
pub open spec fn parse_number(key: u8, bytes: Seq<u8>) -> Option<(nat, nat)> {
    if starts_with_key(bytes, key) {
        match parse_varint(bytes.drop_first(), MAX_VARINT_LEN as nat) {
            Some((value, len)) => Some((value, 1 + len)),
            None => None,
        }
    } else {
        Some((0nat, 0nat))
    }
}

/// The field with `key` that holds bytes, at the start of `bytes`: the
/// bytes it holds, and how many bytes the field takes.
pub open spec fn parse_delimited(key: u8, bytes: Seq<u8>) -> Option<(Seq<u8>, nat)> {
    if starts_with_key(bytes, key) {
        match parse_varint(bytes.drop_first(), MAX_VARINT_LEN as nat) {
            Some((size, len)) => if 1 + len + size <= bytes.len() {
                Some((bytes.subrange(1 + len as int, 1 + len + size as int), 1 + len + size))
            } else {
                None
            },
            None => None,
        }
    } else {
        None
    }
}

/// The field with `key` that holds text, at the start of `bytes`: the
/// text, and how many bytes the field takes. Where `bytes` begin with
/// another key or are empty, the field is absent and stands for no text.
pub open spec fn parse_text(key: u8, bytes: Seq<u8>) -> Option<(Seq<char>, nat)> {
    if starts_with_key(bytes, key) {
        match parse_delimited(key, bytes) {
            Some((payload, used)) => if valid_utf8(payload) {
                Some((decode_utf8(payload), used))
            } else {
                None
            },
            None => None,
        }
    } else {
        Some((Seq::<char>::empty(), 0nat))
    }
}

/// The signed number with the same 64 bits as the unsigned `value`.
pub open spec fn from_twos_complement(value: nat) -> int {
    if value <= i64::MAX {
        value as int
    } else {
        value - 0x1_0000_0000_0000_0000
    }
}

/// The timestamp that `bytes` are the whole of.
#[verifier::opaque]
pub open spec fn parse_timestamp(bytes: Seq<u8>) -> Option<Timestamp> {
    match parse_number(KEY_SECONDS, bytes) {
        Some((seconds, used)) => match parse_number(KEY_NANOS, bytes.skip(used as int)) {
            Some((nanos, more)) => if used + more == bytes.len() && i32::MIN
                <= from_twos_complement(nanos) <= i32::MAX {
                Some(
                    Timestamp {
                        seconds: from_twos_complement(seconds) as i64,
                        nanos: from_twos_complement(nanos) as i32,
                    },
                )
            } else {
                None
            },
            None => None,
        },
        None => None,
    }
}

/// Reads the varint that starts at `pos`: the number and the place after
/// it.
fn read_varint(bytes: &[u8], pos: usize) -> (read: Option<(u64, usize)>)
    requires
        pos <= bytes@.len(),
    ensures
        match parse_varint(bytes@.skip(pos as int), MAX_VARINT_LEN as nat) {
            Some((value, len)) => read.is_some() && read.unwrap().0 == value && read.unwrap().1
                == pos + len && pos + len <= bytes@.len(),
            None => read.is_none(),
        },
{
    read_varint_within(bytes, pos, MAX_VARINT_LEN)
}

/// Whether the byte at `pos` is the field key `key`.
fn at_key(bytes: &[u8], pos: usize, key: u8) -> (found: bool)
    requires
        pos <= bytes@.len(),
    ensures
        found == starts_with_key(bytes@.skip(pos as int), key),
        found ==> pos < bytes@.len() && pos < usize::MAX,
{
    if pos < bytes.len() {
        assert(bytes@.skip(pos as int)[0] == bytes@[pos as int]);
        bytes[pos] == key
    } else {
        false
    }
}

/// Reads the field with `key` that holds a number and starts at `pos`:
/// the number and the place after the field.
fn read_number(bytes: &[u8], pos: usize, key: u8) -> (read: Option<(u64, usize)>)
    requires
        pos <= bytes@.len(),
    ensures
        match parse_number(key, bytes@.skip(pos as int)) {
            Some((value, used)) => read.is_some() && read.unwrap().0 == value && read.unwrap().1
                == pos + used && pos + used <= bytes@.len(),
            None => read.is_none(),
        },
{
    if at_key(bytes, pos, key) {
        assert(bytes@.skip(pos as int).drop_first() =~= bytes@.skip(pos + 1));
        match read_varint(bytes, pos + 1) {
            Some((value, next)) => Some((value, next)),
            None => None,
        }
    } else {
        Some((0, pos))
    }
}

/// Reads the field with `key` that holds bytes and starts at `pos`: the
/// bytes it holds and the place after the field.
fn read_delimited<'a>(bytes: &'a [u8], pos: usize, key: u8) -> (read: Option<(&'a [u8], usize)>)
    requires
        pos <= bytes@.len(),
    ensures
        match parse_delimited(key, bytes@.skip(pos as int)) {
            Some((payload, used)) => read.is_some() && read.unwrap().0@ == payload
                && read.unwrap().1 == pos + used && pos + used <= bytes@.len(),
            None => read.is_none(),
        },
{
    if !at_key(bytes, pos, key) {
        return None;
    }
    assert(bytes@.skip(pos as int).drop_first() =~= bytes@.skip(pos + 1));
    match read_varint(bytes, pos + 1) {
        Some((size, start)) => {
            if size > (bytes.len() - start) as u64 {
                return None;
            }
            let end = start + size as usize;
            let payload = vstd::slice::slice_subrange(bytes, start, end);
            assert(payload@ =~= bytes@.skip(pos as int).subrange(start - pos, end - pos));
            Some((payload, end))
        },
        None => None,
    }
}

/// The signed number with the same bits as `value`.
fn signed_bits(value: u64) -> (signed: i64)
    ensures
        signed == from_twos_complement(value as nat),
{
    if value <= i64::MAX as u64 {
        value as i64
    } else {
        -((u64::MAX - value) as i64) - 1
    }
}

/// Reads a timestamp that `bytes` are the whole of.
pub fn decode_timestamp(bytes: &[u8]) -> (timestamp: Option<Timestamp>)
    ensures
        timestamp == parse_timestamp(bytes@),
{
    reveal(parse_timestamp);
    assert(bytes@.skip(0) =~= bytes@);
    let (seconds, pos) = match read_number(bytes, 0, KEY_SECONDS) {
        Some(read) => read,
        None => {
            return None;
        },
    };
    let (nanos, end) = match read_number(bytes, pos, KEY_NANOS) {
        Some(read) => read,
        None => {
            return None;
        },
    };
    let nanos = signed_bits(nanos);
    if end != bytes.len() || nanos < i32::MIN as i64 || nanos > i32::MAX as i64 {
        return None;
    }
    Some(Timestamp { seconds: signed_bits(seconds), nanos: nanos as i32 })
}

/// The entry that `bytes` are the whole of.
#[verifier::opaque]
pub open spec fn parse_entry(bytes: Seq<u8>) -> Option<EntryModel> {
    if starts_with_key(bytes, KEY_ENTRY_TIMESTAMP) {
        match parse_delimited(KEY_ENTRY_TIMESTAMP, bytes) {
            Some((payload, used)) => match parse_timestamp(payload) {
                Some(timestamp) => match parse_text(KEY_ENTRY_LINE, bytes.skip(used as int)) {
                    Some((line, more)) => if used + more == bytes.len() {
                        Some(EntryModel { timestamp: Some(timestamp), line })
                    } else {
                        None
                    },
                    None => None,
                },
                None => None,
            },
            None => None,
        }
    } else {
        match parse_text(KEY_ENTRY_LINE, bytes) {
            Some((line, more)) => if more == bytes.len() {
                Some(EntryModel { timestamp: None, line })
            } else {
                None
            },
            None => None,
        }
    }
}

/// The entries at the start of `bytes`, each a field of its own, and how
/// many bytes they take together.
pub open spec fn parse_entries(bytes: Seq<u8>) -> Option<(Seq<EntryModel>, nat)>
    decreases bytes.len(),
{
    if starts_with_key(bytes, KEY_STREAM_ENTRIES) {
        match parse_delimited(KEY_STREAM_ENTRIES, bytes) {
            Some((payload, used)) => match parse_entry(payload) {
                Some(entry) => match parse_entries(bytes.skip(used as int)) {
                    Some((entries, more)) => Some((seq![entry] + entries, used + more)),
                    None => None,
                },
                None => None,
            },
            None => None,
        }
    } else {
        Some((Seq::<EntryModel>::empty(), 0nat))
    }
}

/// The stream that `bytes` are the whole of.
#[verifier::opaque]
pub open spec fn parse_stream(bytes: Seq<u8>) -> Option<StreamModel> {
    match parse_text(KEY_STREAM_LABELS, bytes) {
        Some((labels, used)) => match parse_entries(bytes.skip(used as int)) {
            Some((entries, more)) => match parse_number(
                KEY_STREAM_HASH,
                bytes.skip((used + more) as int),
            ) {
                Some((hash, last)) => if used + more + last == bytes.len() {
                    Some(StreamModel { labels, entries, hash: hash as u64 })
                } else {
                    None
                },
                None => None,
            },
            None => None,
        },
        None => None,
    }
}

/// The streams at the start of `bytes`, each a field of its own, and how
/// many bytes they take together.
pub open spec fn parse_streams(bytes: Seq<u8>) -> Option<(Seq<StreamModel>, nat)>
    decreases bytes.len(),
{
    if starts_with_key(bytes, KEY_PUSH_STREAMS) {
        match parse_delimited(KEY_PUSH_STREAMS, bytes) {
            Some((payload, used)) => match parse_stream(payload) {
                Some(stream) => match parse_streams(bytes.skip(used as int)) {
                    Some((streams, more)) => Some((seq![stream] + streams, used + more)),
                    None => None,
                },
                None => None,
            },
            None => None,
        }
    } else {
        Some((Seq::<StreamModel>::empty(), 0nat))
    }
}

/// The streams of the push request that `bytes` are the whole of.
pub open spec fn parse_push_request(bytes: Seq<u8>) -> Option<Seq<StreamModel>> {
    match parse_streams(bytes) {
        Some((streams, used)) => if used == bytes.len() {
            Some(streams)
        } else {
            None
        },
        None => None,
    }
}

/// Reads `bytes` as text by `std::str::from_utf8`, which accepts exactly
/// the byte sequences that are UTF-8 and returns the text with those
/// bytes.
#[verifier::external_body]
fn text_of(bytes: &[u8]) -> (text: Option<String>)
    ensures
        text.is_some() == valid_utf8(bytes@),
        text matches Some(read) ==> encode_utf8(read@) == bytes@,
{
    match std::str::from_utf8(bytes) {
        Ok(text) => Some(text.to_owned()),
        Err(_) => None,
    }
}

/// Reads the field with `key` that holds text and starts at `pos`: the
/// text and the place after the field.
fn read_text(bytes: &[u8], pos: usize, key: u8) -> (read: Option<(String, usize)>)
    requires
        pos <= bytes@.len(),
    ensures
        match parse_text(key, bytes@.skip(pos as int)) {
            Some((text, used)) => read.is_some() && read.unwrap().0@ == text && read.unwrap().1
                == pos + used && pos + used <= bytes@.len(),
            None => read.is_none(),
        },
{
    if !at_key(bytes, pos, key) {
        return Some((String::new(), pos));
    }
    let (payload, next) = match read_delimited(bytes, pos, key) {
        Some(read) => read,
        None => {
            return None;
        },
    };
    match text_of(payload) {
        Some(text) => {
            proof {
                vstd::utf8::encode_utf8_decode_utf8(text@);
            }
            Some((text, next))
        },
        None => None,
    }
}

/// Reads an entry that `bytes` are the whole of.
pub fn decode_entry(bytes: &[u8]) -> (entry: Option<EntryAdapter>)
    ensures
        entry.is_some() == parse_entry(bytes@).is_some(),
        entry matches Some(read) ==> parse_entry(bytes@) == Some(read@),
{
    reveal(parse_entry);
    assert(bytes@.skip(0) =~= bytes@);
    let mut pos: usize = 0;
    let mut timestamp: Option<Timestamp> = None;
    if at_key(bytes, 0, KEY_ENTRY_TIMESTAMP) {
        let (payload, next) = match read_delimited(bytes, 0, KEY_ENTRY_TIMESTAMP) {
            Some(read) => read,
            None => {
                return None;
            },
        };
        timestamp = match decode_timestamp(payload) {
            Some(read) => Some(read),
            None => {
                return None;
            },
        };
        pos = next;
    }
    let (line, end) = match read_text(bytes, pos, KEY_ENTRY_LINE) {
        Some(read) => read,
        None => {
            return None;
        },
    };
    if end != bytes.len() {
        return None;
    }
    Some(EntryAdapter { timestamp, line })
}

/// Reads a stream that `bytes` are the whole of.
pub fn decode_stream(bytes: &[u8]) -> (stream: Option<StreamAdapter>)
    ensures
        stream.is_some() == parse_stream(bytes@).is_some(),
        stream matches Some(read) ==> parse_stream(bytes@) == Some(read@),
{
    reveal(parse_stream);
    assert(bytes@.skip(0) =~= bytes@);
    let (labels, start) = match read_text(bytes, 0, KEY_STREAM_LABELS) {
        Some(read) => read,
        None => {
            return None;
        },
    };
    let mut entries: Vec<EntryAdapter> = Vec::new();
    let mut pos: usize = start;
    let ghost whole = parse_entries(bytes@.skip(start as int));
    assert(entries_view(entries@) =~= Seq::<EntryModel>::empty());
    while at_key(bytes, pos, KEY_STREAM_ENTRIES)
        invariant
            start <= pos <= bytes@.len(),
            parse_text(KEY_STREAM_LABELS, bytes@).is_some(),
            parse_text(KEY_STREAM_LABELS, bytes@).unwrap().1 == start,
            whole == parse_entries(bytes@.skip(start as int)),
            whole == match parse_entries(bytes@.skip(pos as int)) {
                Some((rest, more)) => Some((entries_view(entries@) + rest, (pos - start + more) as nat)),
                None => None,
            },
        decreases bytes@.len() - pos,
    {
        reveal(parse_stream);
        let (payload, next) = match read_delimited(bytes, pos, KEY_STREAM_ENTRIES) {
            Some(read) => read,
            None => {
                return None;
            },
        };
        let entry = match decode_entry(payload) {
            Some(read) => read,
            None => {
                return None;
            },
        };
        proof {
            let here = bytes@.skip(pos as int);
            let used = (next - pos) as nat;
            assert(here.skip(used as int) =~= bytes@.skip(next as int));
            let after = parse_entries(bytes@.skip(next as int));
            if after.is_some() {
                assert(entries_view(entries@.push(entry)) + after.unwrap().0 =~= entries_view(
                    entries@,
                ) + (seq![entry@] + after.unwrap().0));
            }
        }
        entries.push(entry);
        pos = next;
    }
    proof {
        assert(parse_entries(bytes@.skip(pos as int)) == Some((Seq::<EntryModel>::empty(), 0nat)));
        assert(entries_view(entries@) + Seq::<EntryModel>::empty() =~= entries_view(entries@));
    }
    let (hash, end) = match read_number(bytes, pos, KEY_STREAM_HASH) {
        Some(read) => read,
        None => {
            return None;
        },
    };
    if end != bytes.len() {
        return None;
    }
    Some(StreamAdapter { labels, entries, hash })
}

/// Reads a push request that `bytes` are the whole of: what
/// `encode_push_request` wrote, or nothing where the bytes are no push
/// request as it writes them.
pub fn decode_push_request(bytes: &[u8]) -> (request: Option<PushRequest>)
    ensures
        request.is_some() == parse_push_request(bytes@).is_some(),
        request matches Some(read) ==> parse_push_request(bytes@) == Some(read@),
{
    assert(bytes@.skip(0) =~= bytes@);
    let mut streams: Vec<StreamAdapter> = Vec::new();
    let mut pos: usize = 0;
    let ghost whole = parse_streams(bytes@);
    assert(streams_view(streams@) =~= Seq::<StreamModel>::empty());
    while at_key(bytes, pos, KEY_PUSH_STREAMS)
        invariant
            pos <= bytes@.len(),
            whole == parse_streams(bytes@),
            whole == match parse_streams(bytes@.skip(pos as int)) {
                Some((rest, more)) => Some((streams_view(streams@) + rest, (pos + more) as nat)),
                None => None,
            },
        decreases bytes@.len() - pos,
    {
        let (payload, next) = match read_delimited(bytes, pos, KEY_PUSH_STREAMS) {
            Some(read) => read,
            None => {
                return None;
            },
        };
        let stream = match decode_stream(payload) {
            Some(read) => read,
            None => {
                return None;
            },
        };
        proof {
            let here = bytes@.skip(pos as int);
            let used = (next - pos) as nat;
            assert(here.skip(used as int) =~= bytes@.skip(next as int));
            let after = parse_streams(bytes@.skip(next as int));
            if after.is_some() {
                assert(streams_view(streams@.push(stream)) + after.unwrap().0 =~= streams_view(
                    streams@,
                ) + (seq![stream@] + after.unwrap().0));
            }
        }
        streams.push(stream);
        pos = next;
    }
    proof {
        assert(parse_streams(bytes@.skip(pos as int)) == Some((Seq::<StreamModel>::empty(), 0nat)));
        assert(streams_view(streams@) + Seq::<StreamModel>::empty() =~= streams_view(streams@));
    }
    if pos != bytes.len() {
        return None;
    }
    Some(PushRequest { streams })
}

/// A number field that was written is read back, whatever follows it.
pub proof fn lemma_number_round_trip(key: u8, value: nat, rest: Seq<u8>)
    requires
        value <= u64::MAX,
    ensures
        parse_number(key, varint_field(key, value) + rest) == Some(
            (value, varint_field(key, value).len()),
        ),
{
    let bytes = varint_field(key, value) + rest;
    assert(bytes[0] == key);
    assert(bytes.drop_first() =~= varint(value) + rest);
    lemma_varint_limit();
    lemma_varint_round_trip(value, rest, MAX_VARINT_LEN as nat);
}

/// A field of bytes that was written is read back, whatever follows it.
pub proof fn lemma_delimited_round_trip(key: u8, payload: Seq<u8>, rest: Seq<u8>)
    requires
        payload.len() <= u64::MAX,
    ensures
        parse_delimited(key, length_delimited(key, payload) + rest) == Some(
            (payload, length_delimited(key, payload).len()),
        ),
        starts_with_key(length_delimited(key, payload) + rest, key),
{
    let bytes = length_delimited(key, payload) + rest;
    assert(bytes[0] == key);
    assert(bytes.drop_first() =~= varint(payload.len()) + (payload + rest));
    lemma_varint_limit();
    lemma_varint_round_trip(payload.len(), payload + rest, MAX_VARINT_LEN as nat);
    let len = varint(payload.len()).len();
    assert(bytes.subrange(1 + len as int, 1 + len + payload.len() as int) =~= payload);
}

/// A text field that was written is read back, where what follows does
/// not begin with the same key.
pub proof fn lemma_text_round_trip(key: u8, text: Seq<char>, rest: Seq<u8>)
    requires
        encode_utf8(text).len() <= u64::MAX,
        !starts_with_key(rest, key),
    ensures
        parse_text(key, string_field(key, text) + rest) == Some(
            (text, string_field(key, text).len()),
        ),
{
    let bytes = string_field(key, text) + rest;
    if text.len() == 0 {
        assert(bytes =~= rest);
        assert(text =~= Seq::<char>::empty());
    } else {
        lemma_delimited_round_trip(key, encode_utf8(text), rest);
        vstd::utf8::encode_utf8_valid_utf8(text);
        vstd::utf8::encode_utf8_decode_utf8(text);
    }
}

/// The bits of a signed number stand for that number again.
pub proof fn lemma_twos_complement_round_trip(value: int)
    requires
        i64::MIN <= value <= i64::MAX,
    ensures
        twos_complement(value) <= u64::MAX,
        from_twos_complement(twos_complement(value)) == value,
{
}

/// A timestamp that was written is read back.
pub proof fn lemma_timestamp_round_trip(timestamp: Timestamp)
    ensures
        parse_timestamp(timestamp_bytes(timestamp)) == Some(timestamp),
{
    reveal(parse_timestamp);
    reveal(timestamp_bytes);
    let bytes = timestamp_bytes(timestamp);
    let seconds = twos_complement(timestamp.seconds as int);
    let nanos = twos_complement(timestamp.nanos as int);
    lemma_twos_complement_round_trip(timestamp.seconds as int);
    lemma_twos_complement_round_trip(timestamp.nanos as int);
    let nanos_part = if timestamp.nanos != 0 {
        varint_field(KEY_NANOS, nanos)
    } else {
        Seq::<u8>::empty()
    };
    let empty = Seq::<u8>::empty();
    if timestamp.seconds != 0 {
        assert(bytes =~= varint_field(KEY_SECONDS, seconds) + nanos_part);
        lemma_number_round_trip(KEY_SECONDS, seconds, nanos_part);
        let used = varint_field(KEY_SECONDS, seconds).len();
        assert(bytes.skip(used as int) =~= nanos_part);
    } else {
        assert(bytes =~= nanos_part);
        if timestamp.nanos != 0 {
            assert(bytes[0] == KEY_NANOS);
        }
        assert(!starts_with_key(bytes, KEY_SECONDS));
        assert(bytes.skip(0) =~= nanos_part);
    }
    if timestamp.nanos != 0 {
        assert(nanos_part =~= varint_field(KEY_NANOS, nanos) + empty);
        lemma_number_round_trip(KEY_NANOS, nanos, empty);
    } else {
        assert(!starts_with_key(nanos_part, KEY_NANOS));
    }
}

/// An entry that was written is read back.
pub proof fn lemma_entry_round_trip(entry: EntryModel)
    requires
        entry_bytes(entry).len() <= u64::MAX,
    ensures
        parse_entry(entry_bytes(entry)) == Some(entry),
{
    reveal(parse_entry);
    reveal(entry_bytes);
    let bytes = entry_bytes(entry);
    let line = string_field(KEY_ENTRY_LINE, entry.line);
    let empty = Seq::<u8>::empty();
    assert(line =~= line + empty);
    if entry.line.len() > 0 {
        assert(line[0] == KEY_ENTRY_LINE);
    }
    match entry.timestamp {
        Some(timestamp) => {
            let payload = timestamp_bytes(timestamp);
            assert(bytes =~= length_delimited(KEY_ENTRY_TIMESTAMP, payload) + line);
            lemma_delimited_round_trip(KEY_ENTRY_TIMESTAMP, payload, line);
            lemma_timestamp_round_trip(timestamp);
            let used = length_delimited(KEY_ENTRY_TIMESTAMP, payload).len();
            assert(bytes.skip(used as int) =~= line + empty);
            lemma_text_round_trip(KEY_ENTRY_LINE, entry.line, empty);
        },
        None => {
            assert(bytes =~= line + empty);
            assert(!starts_with_key(bytes, KEY_ENTRY_TIMESTAMP));
            lemma_text_round_trip(KEY_ENTRY_LINE, entry.line, empty);
        },
    }
}

/// The bytes of entries begin with the field of the first of them.
pub proof fn lemma_entries_bytes_front(entries: Seq<EntryModel>)
    requires
        entries.len() > 0,
    ensures
        entries_bytes(entries) == length_delimited(KEY_STREAM_ENTRIES, entry_bytes(entries[0]))
            + entries_bytes(entries.drop_first()),
    decreases entries.len(),
{
    let first = length_delimited(KEY_STREAM_ENTRIES, entry_bytes(entries[0]));
    if entries.len() == 1 {
        assert(entries.drop_last() =~= Seq::<EntryModel>::empty());
        assert(entries.drop_first() =~= Seq::<EntryModel>::empty());
        assert(entries_bytes(entries) =~= first + entries_bytes(entries.drop_first()));
    } else {
        let front = entries.drop_last();
        lemma_entries_bytes_front(front);
        assert(front[0] == entries[0]);
        assert(front.drop_first() =~= entries.drop_first().drop_last());
        assert(entries.drop_first().last() == entries.last());
        assert(entries_bytes(entries) =~= first + entries_bytes(entries.drop_first()));
    }
}

/// Entries that were written are read back, where what follows does not
/// begin with their key.
pub proof fn lemma_entries_round_trip(entries: Seq<EntryModel>, rest: Seq<u8>)
    requires
        entries_bytes(entries).len() <= u64::MAX,
        !starts_with_key(rest, KEY_STREAM_ENTRIES),
    ensures
        parse_entries(entries_bytes(entries) + rest) == Some(
            (entries, entries_bytes(entries).len()),
        ),
    decreases entries.len(),
{
    let bytes = entries_bytes(entries) + rest;
    if entries.len() == 0 {
        assert(bytes =~= rest);
        assert(entries =~= Seq::<EntryModel>::empty());
    } else {
        lemma_entries_bytes_front(entries);
        let payload = entry_bytes(entries[0]);
        let first = length_delimited(KEY_STREAM_ENTRIES, payload);
        let others = entries.drop_first();
        let tail = entries_bytes(others);
        assert(entries_bytes(entries) == first + tail);
        assert(first.len() == 1 + varint(payload.len()).len() + payload.len());
        assert(bytes =~= first + (tail + rest));
        lemma_delimited_round_trip(KEY_STREAM_ENTRIES, payload, tail + rest);
        lemma_entry_round_trip(entries[0]);
        assert(bytes.skip(first.len() as int) =~= tail + rest);
        lemma_entries_round_trip(others, rest);
        assert(seq![entries[0]] + others =~= entries);
        lemma_entries_step(bytes, payload, first.len(), entries[0], others, tail.len());
    }
}

/// Reading entries takes the first field, then the rest.
proof fn lemma_entries_step(
    bytes: Seq<u8>,
    payload: Seq<u8>,
    used: nat,
    entry: EntryModel,
    others: Seq<EntryModel>,
    more: nat,
)
    requires
        starts_with_key(bytes, KEY_STREAM_ENTRIES),
        parse_delimited(KEY_STREAM_ENTRIES, bytes) == Some((payload, used)),
        parse_entry(payload) == Some(entry),
        parse_entries(bytes.skip(used as int)) == Some((others, more)),
    ensures
        parse_entries(bytes) == Some((seq![entry] + others, used + more)),
{
}

/// A stream that was written is read back.
pub proof fn lemma_stream_round_trip(stream: StreamModel)
    requires
        stream_bytes(stream).len() <= u64::MAX,
    ensures
        parse_stream(stream_bytes(stream)) == Some(stream),
{
    reveal(parse_stream);
    reveal(stream_bytes);
    let bytes = stream_bytes(stream);
    let labels = string_field(KEY_STREAM_LABELS, stream.labels);
    let entries = entries_bytes(stream.entries);
    let hash = if stream.hash != 0 {
        varint_field(KEY_STREAM_HASH, stream.hash as nat)
    } else {
        Seq::<u8>::empty()
    };
    let empty = Seq::<u8>::empty();
    assert(bytes =~= labels + (entries + hash));
    if stream.hash != 0 {
        assert(hash[0] == KEY_STREAM_HASH);
    }
    if stream.entries.len() > 0 {
        lemma_entries_bytes_front(stream.entries);
        assert(entries[0] == KEY_STREAM_ENTRIES);
    } else {
        assert(entries =~= empty);
    }
    assert(!starts_with_key(entries + hash, KEY_STREAM_LABELS));
    lemma_text_round_trip(KEY_STREAM_LABELS, stream.labels, entries + hash);
    assert(bytes.skip(labels.len() as int) =~= entries + hash);
    lemma_entries_round_trip(stream.entries, hash);
    assert(bytes.skip((labels.len() + entries.len()) as int) =~= hash);
    if stream.hash != 0 {
        assert(hash =~= varint_field(KEY_STREAM_HASH, stream.hash as nat) + empty);
        lemma_number_round_trip(KEY_STREAM_HASH, stream.hash as nat, empty);
    }
}

/// The bytes of streams begin with the field of the first of them.
pub proof fn lemma_streams_bytes_front(streams: Seq<StreamModel>)
    requires
        streams.len() > 0,
    ensures
        push_request_bytes(streams) == length_delimited(
            KEY_PUSH_STREAMS,
            stream_bytes(streams[0]),
        ) + push_request_bytes(streams.drop_first()),
    decreases streams.len(),
{
    let first = length_delimited(KEY_PUSH_STREAMS, stream_bytes(streams[0]));
    if streams.len() == 1 {
        assert(streams.drop_last() =~= Seq::<StreamModel>::empty());
        assert(streams.drop_first() =~= Seq::<StreamModel>::empty());
        assert(push_request_bytes(streams) =~= first + push_request_bytes(streams.drop_first()));
    } else {
        let front = streams.drop_last();
        lemma_streams_bytes_front(front);
        assert(front[0] == streams[0]);
        assert(front.drop_first() =~= streams.drop_first().drop_last());
        assert(streams.drop_first().last() == streams.last());
        assert(push_request_bytes(streams) =~= first + push_request_bytes(streams.drop_first()));
    }
}

/// Streams that were written are read back.
pub proof fn lemma_streams_round_trip(streams: Seq<StreamModel>)
    requires
        push_request_bytes(streams).len() <= u64::MAX,
    ensures
        parse_streams(push_request_bytes(streams)) == Some(
            (streams, push_request_bytes(streams).len()),
        ),
    decreases streams.len(),
{
    let bytes = push_request_bytes(streams);
    if streams.len() == 0 {
        assert(streams =~= Seq::<StreamModel>::empty());
        assert(bytes.len() == 0);
        assert(!starts_with_key(bytes, KEY_PUSH_STREAMS));
    } else {
        lemma_streams_bytes_front(streams);
        let payload = stream_bytes(streams[0]);
        let first = length_delimited(KEY_PUSH_STREAMS, payload);
        let others = streams.drop_first();
        let rest = push_request_bytes(others);
        assert(bytes == first + rest);
        assert(first.len() == 1 + varint(payload.len()).len() + payload.len());
        assert(bytes.len() == first.len() + rest.len());
        lemma_delimited_round_trip(KEY_PUSH_STREAMS, payload, rest);
        lemma_stream_round_trip(streams[0]);
        assert(bytes.skip(first.len() as int) =~= rest);
        lemma_streams_round_trip(others);
        assert(seq![streams[0]] + others =~= streams);
        lemma_streams_step(bytes, payload, first.len(), streams[0], others, rest.len());
    }
}

/// Reading streams takes the first field, then the rest.
proof fn lemma_streams_step(
    bytes: Seq<u8>,
    payload: Seq<u8>,
    used: nat,
    stream: StreamModel,
    others: Seq<StreamModel>,
    more: nat,
)
    requires
        starts_with_key(bytes, KEY_PUSH_STREAMS),
        parse_delimited(KEY_PUSH_STREAMS, bytes) == Some((payload, used)),
        parse_stream(payload) == Some(stream),
        parse_streams(bytes.skip(used as int)) == Some((others, more)),
    ensures
        parse_streams(bytes) == Some((seq![stream] + others, used + more)),
{
}

/// Writing a push request and reading it back gives the streams that
/// were written: the same labels, the same entries in the same order, the
/// same hashes.
pub proof fn lemma_push_request_round_trip(streams: Seq<StreamModel>)
    requires
        push_request_bytes(streams).len() <= u64::MAX,
    ensures
        parse_push_request(push_request_bytes(streams)) == Some(streams),
{
    lemma_streams_round_trip(streams);
}

} // verus!
