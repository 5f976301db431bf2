use tracing_loki::http::redirect_is_rejected;
use tracing_loki::http::send_result;
use tracing_loki::http::status_is_success;
use tracing_loki::label_map::LabelMap;
use tracing_loki::labels::FormattedLabels;
use tracing_loki::labels::ValidatedLabel;
use tracing_loki::layer::is_stripped;
use tracing_loki::layer::strips_field;
use tracing_loki::layer::Layer;
use tracing_loki::level::Level;
use tracing_loki::level_map::LevelMap;
use tracing_loki::logproto::Direction;
use tracing_loki::logproto::Timestamp;
use tracing_loki::queue::LokiEvent;
use tracing_loki::queue::SendQueue;
use tracing_loki::text::starts_with;

fn event(message: &str, trigger_send: bool) -> LokiEvent {
    LokiEvent {
        trigger_send,
        timestamp: Timestamp {
            seconds: 1,
            nanos: 0,
        },
        level: Level::Info,
        message: message.to_owned(),
    }
}

#[test]
fn redirects_that_lose_the_body_are_rejected() {
    assert!(redirect_is_rejected(302));
    assert!(redirect_is_rejected(303));
    assert!(!redirect_is_rejected(301));
    assert!(!redirect_is_rejected(307));
    assert!(!redirect_is_rejected(308));
}

#[test]
fn only_2xx_is_success() {
    assert!(status_is_success(200));
    assert!(status_is_success(204));
    assert!(status_is_success(299));
    assert!(!status_is_success(199));
    assert!(!status_is_success(300));
    assert!(!status_is_success(500));
    assert_eq!(send_result(Some(204)), Ok(()));
    assert_eq!(send_result(Some(500)), Err(()));
    assert_eq!(send_result(Some(302)), Err(()));
    assert_eq!(send_result(None), Err(()));
}

#[test]
fn own_events_do_not_ask_for_a_send() {
    let layer = Layer {
        extra_fields: vec![],
        channel_cap: 512,
    };
    let stamp = Timestamp {
        seconds: 3,
        nanos: 4,
    };
    let own = layer.event("tracing_loki", Level::Error, stamp, "x".to_owned());
    assert!(!own.trigger_send);
    let inner = layer.event("tracing_loki::engine", Level::Error, stamp, "x".to_owned());
    assert!(!inner.trigger_send);
    let other = layer.event("tracing", Level::Warn, stamp, "y".to_owned());
    assert!(other.trigger_send);
    assert_eq!(other.level, Level::Warn);
    assert_eq!(other.timestamp, stamp);
    assert_eq!(other.message, "y");
    assert!(layer.event("", Level::Warn, stamp, String::new()).trigger_send);
}

#[test]
fn log_fields_are_stripped() {
    assert!(strips_field("log.target"));
    assert!(strips_field("log."));
    assert!(!strips_field("log"));
    assert!(!strips_field("message"));
    assert!(!strips_field("catalog.x"));
}

#[test]
fn fields_that_became_labels_are_stripped() {
    let mut keys = LabelMap::new();
    keys.get_or_insert("service", || ValidatedLabel::new("svc".into()).unwrap());
    assert!(is_stripped("service", &keys));
    assert!(is_stripped("log.line", &keys));
    assert!(!is_stripped("svc", &keys));
    assert!(!is_stripped("message", &keys));
    let none: LabelMap<ValidatedLabel> = LabelMap::new();
    assert!(!is_stripped("service", &none));
    assert!(is_stripped("log.file", &none));
}

#[test]
fn prefixes() {
    assert!(starts_with("abc", ""));
    assert!(starts_with("abc", "abc"));
    assert!(starts_with("äbc", "ä"));
    assert!(!starts_with("ab", "abc"));
    assert!(!starts_with("xbc", "abc"));
}

#[test]
fn level_map_keeps_one_value_per_level() {
    let mut map = LevelMap::from_fn(|level: Level| level.name().to_owned());
    assert_eq!(
        map.values(),
        &["trace", "debug", "info", "warn", "error"]
    );
    assert_eq!(map.get(Level::Warn), "warn");
    map.get_mut(Level::Debug).push('!');
    for value in map.values_mut() {
        value.push('?');
    }
    assert_eq!(
        map.values(),
        &["trace?", "debug!?", "info?", "warn?", "error?"]
    );
}

#[test]
fn levels_and_their_places() {
    let levels = [
        Level::Trace,
        Level::Debug,
        Level::Info,
        Level::Warn,
        Level::Error,
    ];
    for (i, level) in levels.iter().enumerate() {
        assert_eq!(level.index(), i);
        assert_eq!(Level::from_index(i), Some(*level));
    }
    assert_eq!(Level::from_index(5), None);
}

#[test]
fn label_map_inserts_once() {
    let mut map: LabelMap<u32> = LabelMap::new();
    assert!(map.values().is_empty());
    *map.get_or_insert("a", || 1) += 10;
    *map.get_or_insert("b", || 2) += 10;
    *map.get_or_insert("a", || 100) += 10;
    assert_eq!(map.values(), &[21, 12]);
    for value in map.values_mut() {
        *value *= 2;
    }
    assert_eq!(map.values(), &[42, 24]);
    assert_eq!(*map.get_or_insert("b", || 0), 24);
}

#[test]
fn queue_moves_events_between_its_two_sides() {
    let mut queue = SendQueue::new("{level=\"info\"}".to_owned());
    assert!(queue.is_idle());
    assert!(!queue.should_send());
    queue.push(event("a", false));
    assert!(!queue.should_send());
    queue.push(event("b", true));
    assert!(queue.should_send());
    let stream = queue.prepare_sending();
    assert_eq!(stream.labels, "{level=\"info\"}");
    assert_eq!(stream.hash, 0);
    assert_eq!(stream.entries.len(), 2);
    assert_eq!(stream.entries[0].line, "a");
    assert_eq!(stream.entries[1].line, "b");
    assert!(queue.is_idle());
    queue.push(event("c", false));
    queue.on_send_result(Err(()));
    let lines: Vec<String> = queue
        .pending_stream()
        .entries
        .into_iter()
        .map(|entry| entry.line)
        .collect();
    assert_eq!(lines, vec!["a", "b", "c"]);
    let _ = queue.prepare_sending();
    queue.push(event("d", true));
    queue.on_send_result(Ok(()));
    assert_eq!(queue.pending_stream().entries.len(), 1);
    let _ = queue.prepare_sending();
    queue.push(event("e", true));
    assert_eq!(queue.drop_outstanding(), 2);
    assert!(queue.is_idle());
    assert_eq!(queue.drop_outstanding(), 0);
}

#[test]
fn labels_are_quoted_and_escaped() {
    let mut labels = FormattedLabels::new();
    let host = ValidatedLabel::new("host".into()).unwrap();
    assert!(!labels.contains(&host));
    labels.add(host.clone(), "a \"b\"\n").unwrap();
    assert!(labels.contains(&host));
    assert_eq!(host.inner(), "host");
    labels
        .add(ValidatedLabel::new("_".into()).unwrap(), "")
        .unwrap();
    assert_eq!(
        labels.finish(Level::Warn),
        "{host=\"a \\\"b\\\"\\n\",_=\"\",level=\"warn\"}"
    );
    let mut raw = FormattedLabels::new();
    raw.add_quoted(ValidatedLabel::new("k".into()).unwrap(), "<v>")
        .unwrap();
    assert_eq!(raw.finish(Level::Trace), "{k=<v>,level=\"trace\"}");
}

#[test]
fn joining_a_copy_with_a_bare_selector_finishes_it() {
    let mut labels = FormattedLabels::new();
    for level in [Level::Trace, Level::Info, Level::Error] {
        let bare = FormattedLabels::new().finish(level);
        assert_eq!(labels.clone().join_with_finished(bare), labels.finish(level));
    }
    labels
        .add(ValidatedLabel::new("host".into()).unwrap(), "mine")
        .unwrap();
    for level in [Level::Debug, Level::Warn] {
        let bare = FormattedLabels::new().finish(level);
        assert_eq!(labels.clone().join_with_finished(bare), labels.finish(level));
    }
}

#[test]
fn joining_with_a_finished_selector() {
    let other = "{app=\"x\",level=\"info\"}".to_owned();
    assert_eq!(
        FormattedLabels::new().join_with_finished(other.clone()),
        other
    );
    let mut labels = FormattedLabels::new();
    labels
        .add(ValidatedLabel::new("host".into()).unwrap(), "mine")
        .unwrap();
    assert_eq!(
        labels.join_with_finished(other),
        "{host=\"mine\",app=\"x\",level=\"info\"}"
    );
}

#[test]
fn directions_have_their_numbers() {
    assert_eq!(Direction::Forward.number(), 0);
    assert_eq!(Direction::Backward.number(), 1);
    assert_eq!(Direction::from_number(1), Some(Direction::Backward));
    assert_eq!(Direction::from_number(0), Some(Direction::Forward));
    assert_eq!(Direction::from_number(2), None);
    assert_eq!(Direction::from_number(-1), None);
}
