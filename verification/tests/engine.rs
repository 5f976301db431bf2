use tracing_loki::engine::DeliveryEngine;
use tracing_loki::engine::EngineState;
use tracing_loki::engine::Received;
use tracing_loki::engine::Request;
use tracing_loki::engine::SendOutcome;
use tracing_loki::labels::FormattedLabels;
use tracing_loki::labels::ValidatedLabel;
use tracing_loki::level::Level;
use tracing_loki::logproto::EntryAdapter;
use tracing_loki::logproto::PushRequest;
use tracing_loki::logproto::StreamAdapter;
use tracing_loki::logproto::Timestamp;
use tracing_loki::queue::LokiEvent;
use tracing_loki::wire::encode_push_request;

fn event(level: Level, seconds: i64, message: &str, trigger_send: bool) -> LokiEvent {
    LokiEvent {
        trigger_send,
        timestamp: Timestamp { seconds, nanos: 0 },
        level,
        message: message.to_owned(),
    }
}

fn entry(seconds: i64, line: &str) -> EntryAdapter {
    EntryAdapter {
        timestamp: Some(Timestamp { seconds, nanos: 0 }),
        line: line.to_owned(),
    }
}

fn engine() -> DeliveryEngine {
    DeliveryEngine::new(&FormattedLabels::new(), 500)
}

fn body_of(request: Request) -> Vec<u8> {
    match request {
        Request::Body(body) => body,
        other => panic!("expected a request, got {:?}", other),
    }
}

fn decompressed(body: &[u8]) -> Vec<u8> {
    snap::raw::Decoder::new().decompress_vec(body).unwrap()
}

fn serialized(request: &PushRequest) -> Vec<u8> {
    let mut bytes = Vec::new();
    encode_push_request(request, &mut bytes);
    bytes
}

#[test]
fn one_error_event_gives_one_request_with_one_stream() {
    let mut engine = engine();
    engine.receive(Received::Event(event(Level::Error, 7, "boom", true)));
    let expected = PushRequest {
        streams: vec![StreamAdapter {
            labels: "{level=\"error\"}".to_owned(),
            entries: vec![entry(7, "boom")],
            hash: 0,
        }],
    };
    assert_eq!(engine.pending_request(), expected);
    let body = body_of(engine.next_request());
    assert_eq!(decompressed(&body), serialized(&expected));
    assert_eq!(engine.state(), EngineState::Sending);
    assert!(matches!(engine.next_request(), Request::Nothing));
    assert_eq!(engine.send_finished(Ok(())), SendOutcome::Delivered);
    assert!(matches!(engine.next_request(), Request::Nothing));
    assert_eq!(engine.state(), EngineState::Idle);
}

#[test]
fn events_wait_for_one_that_asks_for_a_send() {
    let mut engine = engine();
    engine.receive(Received::Event(event(Level::Info, 1, "a", false)));
    assert!(matches!(engine.next_request(), Request::Nothing));
    engine.receive(Received::Event(event(Level::Info, 2, "b", false)));
    engine.receive(Received::Event(event(Level::Info, 3, "c", false)));
    assert!(matches!(engine.next_request(), Request::Nothing));
    engine.receive(Received::Event(event(Level::Info, 4, "d", true)));
    let expected = PushRequest {
        streams: vec![StreamAdapter {
            labels: "{level=\"info\"}".to_owned(),
            entries: vec![entry(1, "a"), entry(2, "b"), entry(3, "c"), entry(4, "d")],
            hash: 0,
        }],
    };
    let body = body_of(engine.next_request());
    assert_eq!(decompressed(&body), serialized(&expected));
    assert!(matches!(engine.next_request(), Request::Nothing));
}

#[test]
fn failed_send_requeues_and_arms_the_timer_at_the_base_delay() {
    let mut engine = engine();
    engine.receive(Received::Event(event(Level::Warn, 1, "first", true)));
    let first = body_of(engine.next_request());
    engine.receive(Received::Event(event(Level::Warn, 2, "second", true)));
    let outcome = engine.send_finished(Err(()));
    assert_eq!(
        outcome,
        SendOutcome::Failed {
            attempt: 1,
            delay_ms: 500,
            dropped: None,
        }
    );
    assert_eq!(engine.state(), EngineState::Backoff);
    assert!(matches!(engine.next_request(), Request::Nothing));
    assert!(matches!(engine.next_request(), Request::Nothing));
    engine.timer_elapsed();
    let expected = PushRequest {
        streams: vec![StreamAdapter {
            labels: "{level=\"warn\"}".to_owned(),
            entries: vec![entry(1, "first"), entry(2, "second")],
            hash: 0,
        }],
    };
    let second = body_of(engine.next_request());
    assert_eq!(decompressed(&second), serialized(&expected));
    assert_ne!(first, second);
}

#[test]
fn shutdown_with_pending_data_flushes_before_completion() {
    let mut engine = engine();
    engine.receive(Received::Event(event(Level::Debug, 1, "last words", true)));
    engine.receive(Received::Close);
    assert!(!engine.is_done());
    assert_eq!(engine.state(), EngineState::Draining);
    let body = body_of(engine.next_request());
    assert!(!body.is_empty());
    assert!(!engine.is_done());
    assert_eq!(engine.send_finished(Ok(())), SendOutcome::Delivered);
    assert!(matches!(engine.next_request(), Request::Nothing));
    assert!(engine.is_done());
    assert_eq!(engine.state(), EngineState::Done);
}

#[test]
fn shutdown_waits_for_the_backoff_and_retries() {
    let mut engine = engine();
    engine.receive(Received::Event(event(Level::Info, 1, "x", true)));
    let _ = body_of(engine.next_request());
    engine.receive(Received::Disconnected);
    let _ = engine.send_finished(Err(()));
    assert!(!engine.is_done());
    engine.timer_elapsed();
    assert!(!engine.is_done());
    let _ = body_of(engine.next_request());
    assert_eq!(engine.send_finished(Ok(())), SendOutcome::Delivered);
    assert!(engine.is_done());
}

#[test]
fn shutdown_flushes_events_that_did_not_ask_for_a_send() {
    let mut engine = engine();
    engine.receive(Received::Event(event(Level::Info, 1, "quiet", false)));
    engine.receive(Received::Event(event(Level::Warn, 2, "also quiet", false)));
    assert!(!engine.wants_send());
    assert!(engine.has_pending());
    assert!(matches!(engine.next_request(), Request::Nothing));
    engine.receive(Received::Close);
    assert!(!engine.is_done());
    assert_eq!(engine.state(), EngineState::Draining);
    let expected = PushRequest {
        streams: vec![
            StreamAdapter {
                labels: "{level=\"info\"}".to_owned(),
                entries: vec![entry(1, "quiet")],
                hash: 0,
            },
            StreamAdapter {
                labels: "{level=\"warn\"}".to_owned(),
                entries: vec![entry(2, "also quiet")],
                hash: 0,
            },
        ],
    };
    let body = body_of(engine.next_request());
    assert_eq!(decompressed(&body), serialized(&expected));
    assert!(!engine.is_done());
    assert_eq!(engine.send_finished(Ok(())), SendOutcome::Delivered);
    assert!(!engine.has_pending());
    assert!(engine.is_done());
}

#[test]
fn shutdown_waits_for_the_timer_before_the_final_flush() {
    let mut engine = engine();
    engine.receive(Received::Event(event(Level::Info, 1, "a", true)));
    let _ = body_of(engine.next_request());
    let _ = engine.send_finished(Err(()));
    engine.receive(Received::Close);
    assert!(!engine.is_done());
    assert!(matches!(engine.next_request(), Request::Nothing));
    engine.timer_elapsed();
    assert!(!engine.is_done());
    let _ = body_of(engine.next_request());
    assert_eq!(engine.send_finished(Ok(())), SendOutcome::Delivered);
    assert!(engine.is_done());
}

#[test]
fn failed_final_flush_is_retried_once_and_then_given_up() {
    let mut engine = engine();
    engine.receive(Received::Event(event(Level::Info, 1, "a", false)));
    engine.receive(Received::Event(event(Level::Error, 2, "b", true)));
    engine.receive(Received::Close);
    let first = body_of(engine.next_request());
    assert_eq!(
        engine.send_finished(Err(())),
        SendOutcome::Failed {
            attempt: 1,
            delay_ms: 500,
            dropped: None,
        }
    );
    assert!(!engine.is_done());
    engine.timer_elapsed();
    let retry = body_of(engine.next_request());
    assert_eq!(first, retry);
    assert_eq!(
        engine.send_finished(Err(())),
        SendOutcome::Failed {
            attempt: 2,
            delay_ms: 1000,
            dropped: Some(2),
        }
    );
    assert!(!engine.has_pending());
    assert!(!engine.is_done());
    engine.timer_elapsed();
    assert!(matches!(engine.next_request(), Request::Nothing));
    assert!(engine.is_done());
    assert_eq!(engine.state(), EngineState::Done);
}

#[test]
fn success_during_shutdown_allows_another_retry() {
    let mut engine = engine();
    engine.receive(Received::Close);
    engine.receive(Received::Event(event(Level::Info, 1, "a", false)));
    let _ = body_of(engine.next_request());
    let _ = engine.send_finished(Err(()));
    engine.timer_elapsed();
    let _ = body_of(engine.next_request());
    assert_eq!(engine.send_finished(Ok(())), SendOutcome::Delivered);
    engine.receive(Received::Event(event(Level::Info, 2, "b", false)));
    let _ = body_of(engine.next_request());
    assert_eq!(
        engine.send_finished(Err(())),
        SendOutcome::Failed {
            attempt: 1,
            delay_ms: 500,
            dropped: None,
        }
    );
    assert!(engine.has_pending());
}

#[test]
fn close_without_data_is_done_at_once() {
    let mut engine = engine();
    assert!(!engine.is_done());
    engine.receive(Received::Close);
    assert!(engine.is_done());
}

#[test]
fn empty_flush_issues_no_request() {
    let mut engine = engine();
    assert!(!engine.wants_send());
    assert!(matches!(engine.next_request(), Request::Nothing));
    assert_eq!(engine.pending_request(), PushRequest { streams: vec![] });
    assert_eq!(engine.state(), EngineState::Idle);
}

#[test]
fn streams_come_in_the_order_of_the_severities() {
    let mut labels = FormattedLabels::new();
    labels
        .add(ValidatedLabel::new("host".into()).unwrap(), "mine")
        .unwrap();
    let mut engine = DeliveryEngine::new(&labels, 500);
    engine.receive(Received::Event(event(Level::Error, 1, "e", false)));
    engine.receive(Received::Event(event(Level::Trace, 2, "t", true)));
    engine.receive(Received::Event(event(Level::Error, 3, "f", false)));
    let expected = PushRequest {
        streams: vec![
            StreamAdapter {
                labels: "{host=\"mine\",level=\"trace\"}".to_owned(),
                entries: vec![entry(2, "t")],
                hash: 0,
            },
            StreamAdapter {
                labels: "{host=\"mine\",level=\"error\"}".to_owned(),
                entries: vec![entry(1, "e"), entry(3, "f")],
                hash: 0,
            },
        ],
    };
    assert_eq!(engine.pending_request(), expected);
    let body = body_of(engine.next_request());
    assert_eq!(decompressed(&body), serialized(&expected));
}

#[test]
fn delays_double_and_a_long_outage_drops_everything_once() {
    let mut engine = engine();
    engine.receive(Received::Event(event(Level::Info, 1, "a", true)));
    engine.receive(Received::Event(event(Level::Error, 2, "b", true)));
    let mut delays = Vec::new();
    for attempt in 1..=6u32 {
        let _ = body_of(engine.next_request());
        engine.receive(Received::Event(event(Level::Debug, 10, "more", false)));
        match engine.send_finished(Err(())) {
            SendOutcome::Failed {
                attempt: counted,
                delay_ms,
                dropped,
            } => {
                assert_eq!(counted, attempt);
                assert_eq!(dropped, None);
                delays.push(delay_ms);
            }
            other => panic!("expected a failure, got {:?}", other),
        }
        engine.timer_elapsed();
    }
    assert_eq!(delays, vec![500, 1000, 2000, 4000, 8000, 16000]);
    let _ = body_of(engine.next_request());
    assert_eq!(
        engine.send_finished(Err(())),
        SendOutcome::Failed {
            attempt: 7,
            delay_ms: 32000,
            dropped: Some(8),
        }
    );
    assert_eq!(engine.pending_request(), PushRequest { streams: vec![] });
    engine.timer_elapsed();
    assert!(matches!(engine.next_request(), Request::Nothing));
    engine.receive(Received::Event(event(Level::Info, 3, "c", true)));
    let _ = body_of(engine.next_request());
    assert_eq!(
        engine.send_finished(Err(())),
        SendOutcome::Failed {
            attempt: 8,
            delay_ms: 64000,
            dropped: Some(1),
        }
    );
    engine.timer_elapsed();
    engine.receive(Received::Event(event(Level::Info, 4, "d", true)));
    let _ = body_of(engine.next_request());
    assert_eq!(engine.send_finished(Ok(())), SendOutcome::Delivered);
    engine.receive(Received::Event(event(Level::Info, 5, "e", true)));
    let _ = body_of(engine.next_request());
    assert_eq!(
        engine.send_finished(Err(())),
        SendOutcome::Failed {
            attempt: 1,
            delay_ms: 500,
            dropped: None,
        }
    );
}

#[test]
fn delivered_entries_keep_their_order_over_several_requests() {
    let mut engine = engine();
    let mut delivered = Vec::new();
    let mut seconds = 0;
    for round in 0..3 {
        for _ in 0..=round {
            seconds += 1;
            engine.receive(Received::Event(event(Level::Info, seconds, "line", true)));
        }
        let request = engine.pending_request();
        let _ = body_of(engine.next_request());
        seconds += 1;
        engine.receive(Received::Event(event(Level::Info, seconds, "late", false)));
        assert_eq!(engine.send_finished(Ok(())), SendOutcome::Delivered);
        for stream in request.streams {
            for entry in stream.entries {
                delivered.push(entry.timestamp.unwrap().seconds);
            }
        }
    }
    assert_eq!(delivered, vec![1, 2, 3, 4, 5, 6, 7, 8]);
    let rest = engine.pending_request();
    assert_eq!(rest.streams.len(), 1);
    assert_eq!(rest.streams[0].entries, vec![entry(9, "late")]);
}
