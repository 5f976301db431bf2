use tracing_loki::buffer::Buffer;
use tracing_loki::logproto::EntryAdapter;
use tracing_loki::logproto::PushRequest;
use tracing_loki::logproto::StreamAdapter;
use tracing_loki::logproto::Timestamp;
use tracing_loki::wire::encode_entry;
use tracing_loki::wire::encode_push_request;
use tracing_loki::wire::encode_stream;
use tracing_loki::wire::encode_timestamp;

fn sample_request() -> PushRequest {
    PushRequest {
        streams: vec![StreamAdapter {
            labels: "{level=\"error\"}".to_owned(),
            entries: vec![EntryAdapter {
                timestamp: Some(Timestamp {
                    seconds: 7,
                    nanos: 0,
                }),
                line: "boom".to_owned(),
            }],
            hash: 0,
        }],
    }
}

fn sample_bytes() -> Vec<u8> {
    let mut expected = vec![0x0a, 0x1d, 0x0a, 0x0f];
    expected.extend_from_slice(b"{level=\"error\"}");
    expected.extend_from_slice(&[0x12, 0x0a, 0x0a, 0x02, 0x08, 0x07, 0x12, 0x04]);
    expected.extend_from_slice(b"boom");
    expected
}

#[test]
fn push_request_bytes_are_exact() {
    let mut bytes = Vec::new();
    encode_push_request(&sample_request(), &mut bytes);
    assert_eq!(bytes, sample_bytes());
}

#[test]
fn encoding_appends_to_what_the_buffer_holds() {
    let mut bytes = vec![0xff];
    encode_push_request(&sample_request(), &mut bytes);
    let mut expected = vec![0xff];
    expected.extend_from_slice(&sample_bytes());
    assert_eq!(bytes, expected);
}

#[test]
fn empty_request_has_no_bytes() {
    let mut bytes = Vec::new();
    encode_push_request(&PushRequest { streams: vec![] }, &mut bytes);
    assert!(bytes.is_empty());
}

#[test]
fn timestamp_fields_are_left_out_when_zero() {
    let mut bytes = Vec::new();
    encode_timestamp(
        &Timestamp {
            seconds: 0,
            nanos: 0,
        },
        &mut bytes,
    );
    assert!(bytes.is_empty());
    encode_timestamp(
        &Timestamp {
            seconds: 300,
            nanos: 1,
        },
        &mut bytes,
    );
    assert_eq!(bytes, vec![0x08, 0xac, 0x02, 0x10, 0x01]);
}

#[test]
fn negative_numbers_take_ten_bytes() {
    let mut bytes = Vec::new();
    encode_timestamp(
        &Timestamp {
            seconds: -1,
            nanos: -2,
        },
        &mut bytes,
    );
    let mut expected = vec![0x08];
    expected.extend_from_slice(&[0xff; 9]);
    expected.push(0x01);
    expected.push(0x10);
    expected.push(0xfe);
    expected.extend_from_slice(&[0xff; 8]);
    expected.push(0x01);
    assert_eq!(bytes, expected);
}

#[test]
fn largest_seconds_are_encoded() {
    let mut bytes = Vec::new();
    encode_timestamp(
        &Timestamp {
            seconds: i64::MAX,
            nanos: 999_999_999,
        },
        &mut bytes,
    );
    let mut expected = vec![0x08];
    expected.extend_from_slice(&[0xff; 8]);
    expected.push(0x7f);
    expected.extend_from_slice(&[0x10, 0xff, 0x93, 0xeb, 0xdc, 0x03]);
    assert_eq!(bytes, expected);
}

#[test]
fn entry_without_timestamp_and_line_is_empty() {
    let mut bytes = Vec::new();
    encode_entry(
        &EntryAdapter {
            timestamp: None,
            line: String::new(),
        },
        &mut bytes,
    );
    assert!(bytes.is_empty());
    encode_entry(
        &EntryAdapter {
            timestamp: Some(Timestamp {
                seconds: 0,
                nanos: 0,
            }),
            line: "é".to_owned(),
        },
        &mut bytes,
    );
    assert_eq!(bytes, vec![0x0a, 0x00, 0x12, 0x02, 0xc3, 0xa9]);
}

#[test]
fn stream_hash_is_written_when_not_zero() {
    let mut bytes = Vec::new();
    encode_stream(
        &StreamAdapter {
            labels: String::new(),
            entries: vec![],
            hash: 128,
        },
        &mut bytes,
    );
    assert_eq!(bytes, vec![0x18, 0x80, 0x01]);
}

#[test]
fn long_lines_get_a_length_of_several_bytes() {
    let line = "x".repeat(200);
    let mut bytes = Vec::new();
    encode_entry(
        &EntryAdapter {
            timestamp: None,
            line: line.clone(),
        },
        &mut bytes,
    );
    let mut expected = vec![0x12, 0xc8, 0x01];
    expected.extend_from_slice(line.as_bytes());
    assert_eq!(bytes, expected);
}

#[test]
fn body_is_a_snappy_block_of_the_serialized_request() {
    let mut buffer = Buffer::new();
    let body = buffer.encode(&sample_request()).to_vec();
    assert_ne!(body, sample_bytes());
    let decoded = snap::raw::Decoder::new().decompress_vec(&body).unwrap();
    assert_eq!(decoded, sample_bytes());
}

#[test]
fn body_begins_with_the_length_of_what_it_holds() {
    let mut buffer = Buffer::new();
    let body = buffer.encode(&sample_request()).to_vec();
    assert!(!body.is_empty());
    assert!(body.len() <= snap::raw::max_compress_len(sample_bytes().len()));
    assert_eq!(sample_bytes().len(), 31);
    assert_eq!(body[0], 31);
    let line = "y".repeat(300);
    let request = PushRequest {
        streams: vec![StreamAdapter {
            labels: String::new(),
            entries: vec![EntryAdapter {
                timestamp: None,
                line,
            }],
            hash: 0,
        }],
    };
    let mut serialized = Vec::new();
    encode_push_request(&request, &mut serialized);
    assert_eq!(serialized.len(), 309);
    let body = buffer.encode(&request).to_vec();
    assert_eq!(&body[..2], &[0xb5, 0x02]);
}

#[test]
fn buffer_can_be_used_again() {
    let mut buffer = Buffer::new();
    let first = buffer.encode(&sample_request()).to_vec();
    let empty = buffer.try_encode(&PushRequest { streams: vec![] }).unwrap().to_vec();
    assert_eq!(empty, vec![0x00]);
    let again = buffer.try_encode(&sample_request()).unwrap().to_vec();
    assert_eq!(first, again);
}

#[test]
fn repetitive_body_shrinks() {
    let request = PushRequest {
        streams: vec![StreamAdapter {
            labels: "{level=\"info\"}".to_owned(),
            entries: vec![EntryAdapter {
                timestamp: None,
                line: "a".repeat(5000),
            }],
            hash: 0,
        }],
    };
    let mut serialized = Vec::new();
    encode_push_request(&request, &mut serialized);
    let mut buffer = Buffer::new();
    let body = buffer.encode(&request).to_vec();
    assert!(body.len() < serialized.len());
    let decoded = snap::raw::Decoder::new().decompress_vec(&body).unwrap();
    assert_eq!(decoded, serialized);
}
