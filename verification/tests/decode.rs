use tracing_loki::buffer::decode_body;
use tracing_loki::buffer::Buffer;
use tracing_loki::decode::decode_entry;
use tracing_loki::decode::decode_push_request;
use tracing_loki::decode::decode_stream;
use tracing_loki::decode::decode_timestamp;
use tracing_loki::logproto::EntryAdapter;
use tracing_loki::logproto::PushRequest;
use tracing_loki::logproto::StreamAdapter;
use tracing_loki::logproto::Timestamp;
use tracing_loki::wire::encode_push_request;
use tracing_loki::wire::encode_timestamp;

fn entry(seconds: i64, nanos: i32, line: &str) -> EntryAdapter {
    EntryAdapter {
        timestamp: Some(Timestamp { seconds, nanos }),
        line: line.to_owned(),
    }
}

fn batch() -> PushRequest {
    PushRequest {
        streams: vec![
            StreamAdapter {
                labels: "{host=\"mine\",level=\"info\"}".to_owned(),
                entries: vec![
                    entry(1_700_000_000, 123_456_789, "{\"message\":\"héllo\"}"),
                    entry(0, 0, ""),
                    entry(-5, -1, "x"),
                    EntryAdapter {
                        timestamp: None,
                        line: "no time".to_owned(),
                    },
                ],
                hash: 0,
            },
            StreamAdapter {
                labels: String::new(),
                entries: vec![],
                hash: u64::MAX,
            },
            StreamAdapter {
                labels: "{level=\"error\"}".to_owned(),
                entries: vec![entry(i64::MIN, i32::MIN, &"long ".repeat(100))],
                hash: 7,
            },
        ],
    }
}

#[test]
fn round_trip_of_a_batch() {
    let request = batch();
    let mut bytes = Vec::new();
    encode_push_request(&request, &mut bytes);
    assert_eq!(decode_push_request(&bytes), Some(request));
}

#[test]
fn round_trip_through_compression() {
    let request = batch();
    let mut buffer = Buffer::new();
    let body = buffer.encode(&request).to_vec();
    let bytes = snap::raw::Decoder::new().decompress_vec(&body).unwrap();
    let decoded = decode_push_request(&bytes).unwrap();
    assert_eq!(decoded.streams.len(), 3);
    for (read, written) in decoded.streams.iter().zip(request.streams.iter()) {
        assert_eq!(read.labels, written.labels);
        assert_eq!(read.entries, written.entries);
    }
    assert_eq!(decoded, request);
}

#[test]
fn body_is_decoded_to_the_batch() {
    let request = batch();
    let mut buffer = Buffer::new();
    let body = buffer.encode(&request).to_vec();
    assert_eq!(decode_body(&body), Some(request));
    let empty = buffer.encode(&PushRequest { streams: vec![] }).to_vec();
    assert_eq!(decode_body(&empty), Some(PushRequest { streams: vec![] }));
}

#[test]
fn bodies_that_are_no_blocks_are_refused() {
    assert_eq!(decode_body(&[]), None);
    assert_eq!(decode_body(&[0x05, 0x00]), None);
    let mut serialized = Vec::new();
    encode_push_request(&batch(), &mut serialized);
    assert_eq!(decode_body(&serialized), None);
    // A block that holds bytes which are no push request.
    let block = snap::raw::Encoder::new().compress_vec(&[0x0a, 0x05, 0x01]).unwrap();
    assert_eq!(decode_body(&block), None);
}

#[test]
fn round_trip_of_the_empty_request() {
    assert_eq!(
        decode_push_request(&[]),
        Some(PushRequest { streams: vec![] })
    );
}

#[test]
fn timestamps_are_read_back() {
    for (seconds, nanos) in [
        (0, 0),
        (1, 0),
        (0, 1),
        (-1, -1),
        (i64::MAX, i32::MAX),
        (i64::MIN, i32::MIN),
        (300, 999_999_999),
    ] {
        let timestamp = Timestamp { seconds, nanos };
        let mut bytes = Vec::new();
        encode_timestamp(&timestamp, &mut bytes);
        assert_eq!(decode_timestamp(&bytes), Some(timestamp));
    }
}

#[test]
fn known_bytes_are_read() {
    assert_eq!(
        decode_timestamp(&[0x08, 0xac, 0x02, 0x10, 0x01]),
        Some(Timestamp {
            seconds: 300,
            nanos: 1
        })
    );
    assert_eq!(
        decode_entry(&[0x0a, 0x00, 0x12, 0x02, 0xc3, 0xa9]),
        Some(EntryAdapter {
            timestamp: Some(Timestamp {
                seconds: 0,
                nanos: 0
            }),
            line: "é".to_owned(),
        })
    );
    assert_eq!(
        decode_stream(&[0x18, 0x80, 0x01]),
        Some(StreamAdapter {
            labels: String::new(),
            entries: vec![],
            hash: 128,
        })
    );
}

#[test]
fn malformed_bytes_are_refused() {
    // A varint that never ends.
    assert_eq!(decode_timestamp(&[0x08, 0x80]), None);
    assert_eq!(decode_timestamp(&[0x08]), None);
    // A varint of eleven bytes.
    let mut long = vec![0x08];
    long.extend_from_slice(&[0x80; 10]);
    long.push(0x00);
    assert_eq!(decode_timestamp(&long), None);
    // A varint that does not fit into 64 bits.
    let mut wide = vec![0x08];
    wide.extend_from_slice(&[0xff; 9]);
    wide.push(0x02);
    assert_eq!(decode_timestamp(&wide), None);
    // Nanoseconds that do not fit into 32 bits.
    assert_eq!(
        decode_timestamp(&[0x10, 0x80, 0x80, 0x80, 0x80, 0x08]),
        None
    );
    // Fields out of order, an unknown field, bytes left over.
    assert_eq!(decode_timestamp(&[0x10, 0x01, 0x08, 0x01]), None);
    assert_eq!(decode_timestamp(&[0x18, 0x01]), None);
    assert_eq!(decode_timestamp(&[0x08, 0x01, 0x00]), None);
    // A length that reaches beyond the end.
    assert_eq!(decode_entry(&[0x12, 0x05, b'a']), None);
    assert_eq!(decode_push_request(&[0x0a, 0x01]), None);
    // Text that is no UTF-8.
    assert_eq!(decode_entry(&[0x12, 0x01, 0xff]), None);
    assert_eq!(decode_stream(&[0x0a, 0x02, 0xc3, 0x28]), None);
    // A stream whose entry is malformed.
    assert_eq!(decode_stream(&[0x12, 0x02, 0x12, 0x05]), None);
    // A request with something after its streams.
    assert_eq!(decode_push_request(&[0x0a, 0x00, 0x12, 0x00]), None);
}

#[test]
fn varints_with_padding_are_read() {
    assert_eq!(
        decode_timestamp(&[0x08, 0x81, 0x00]),
        Some(Timestamp {
            seconds: 1,
            nanos: 0
        })
    );
}
