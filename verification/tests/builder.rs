use tracing_loki::builder::builder;
use tracing_loki::builder::layer;
use tracing_loki::engine::Received;
use tracing_loki::error::Error;
use tracing_loki::error::ErrorInner;
use tracing_loki::level::Level;
use tracing_loki::logproto::Timestamp;

fn pair(key: &str, value: &str) -> (String, String) {
    (key.to_owned(), value.to_owned())
}

fn headers_of(headers: &reqwest::header::HeaderMap) -> Vec<(String, String)> {
    headers
        .iter()
        .map(|(name, value)| (name.as_str().to_owned(), value.to_str().unwrap().to_owned()))
        .collect()
}

fn fine<T>(result: Result<T, Error>) -> T {
    match result {
        Ok(value) => value,
        Err(error) => panic!("{}", error.message()),
    }
}

fn fault<T>(result: Result<T, Error>) -> Error {
    match result {
        Ok(_) => panic!("expected an error"),
        Err(error) => error,
    }
}

fn error_of<T>(result: Result<T, Error>) -> ErrorInner {
    fault(result).0
}

#[test]
fn built_parts_carry_the_configuration() {
    let (layer, task) = builder()
        .label("host", "mine")
        .unwrap()
        .extra_field("pid", "42")
        .unwrap()
        .http_header("X-Scope-OrgID", "tenant")
        .unwrap()
        .backoff(100)
        .channel_cap(1024)
        .build_url("http://127.0.0.1:3100")
        .unwrap();
    assert_eq!(layer.extra_fields, vec![pair("pid", "42")]);
    assert_eq!(layer.channel_cap, 1024);
    assert_eq!(task.loki_url, "http://127.0.0.1:3100/loki/api/v1/push");
    assert_eq!(
        headers_of(&task.http_headers),
        vec![
            pair("content-type", "application/x-snappy"),
            pair("x-scope-orgid", "tenant"),
        ]
    );
    let mut engine = task.engine;
    let event = layer.event(
        "my_app",
        Level::Info,
        Timestamp {
            seconds: 1,
            nanos: 2,
        },
        "hello".to_owned(),
    );
    engine.receive(Received::Event(event));
    let request = engine.pending_request();
    assert_eq!(request.streams.len(), 1);
    assert_eq!(request.streams[0].labels, "{host=\"mine\",level=\"info\"}");
    assert_eq!(request.streams[0].entries[0].line, "hello");
    assert_eq!(
        engine.send_finished(Err(())),
        tracing_loki::engine::SendOutcome::Failed {
            attempt: 1,
            delay_ms: 100,
            dropped: None,
        }
    );
}

#[test]
fn defaults() {
    let (layer, task) = builder().build_url("http://loki:3100/").unwrap();
    assert!(layer.extra_fields.is_empty());
    assert_eq!(layer.channel_cap, 512);
    assert_eq!(task.loki_url, "http://loki:3100/loki/api/v1/push");
    assert_eq!(
        headers_of(&task.http_headers),
        vec![pair("content-type", "application/x-snappy")]
    );
}

#[test]
fn build_url_keeps_the_path_of_the_url() {
    let (_, task) = builder().build_url("http://loki:3100/tenant/").unwrap();
    assert_eq!(task.loki_url, "http://loki:3100/tenant/loki/api/v1/push");
}

#[test]
fn layer_drops_the_path_of_the_url() {
    let (made, task) = layer(
        "http://loki:3100/some/path?x=1",
        vec![pair("host", "mine")],
        vec![pair("run", "7")],
    )
    .unwrap();
    assert_eq!(task.loki_url, "http://loki:3100/loki/api/v1/push");
    assert_eq!(made.extra_fields, vec![pair("run", "7")]);
    assert_eq!(
        task.engine.pending_request().streams.len(),
        0
    );
}

#[test]
fn layer_reports_the_first_fault() {
    assert!(matches!(
        error_of(layer(
            "http://loki:3100",
            vec![pair("a", "1"), pair("a", "2")],
            vec![]
        )),
        ErrorInner::DuplicateLabel(key) if key == "a"
    ));
    assert!(matches!(
        error_of(layer(
            "http://loki:3100",
            vec![],
            vec![pair("a", "1"), pair("a", "2")]
        )),
        ErrorInner::DuplicateExtraField(key) if key == "a"
    ));
    assert!(matches!(
        error_of(layer("not a url", vec![], vec![])),
        ErrorInner::InvalidLokiUrl
    ));
}

#[test]
fn label_level_is_reserved() {
    assert!(matches!(
        error_of(builder().label("level", "x")),
        ErrorInner::ReservedLabelLevel
    ));
}

#[test]
fn label_with_invalid_character_is_refused() {
    let error = fault(builder().label("hé llo", "x"));
    assert!(matches!(
        &error.0,
        ErrorInner::InvalidLabelCharacter(key, 'é') if key == "hé llo"
    ));
    assert_eq!(
        error.message(),
        "invalid label character 'é' in key \"hé llo\""
    );
    assert!(matches!(
        error_of(builder().label("a-b", "x")),
        ErrorInner::InvalidLabelCharacter(_, '-')
    ));
    assert!(matches!(
        error_of(builder().label("a1", "x")),
        ErrorInner::InvalidLabelCharacter(_, '1')
    ));
}

#[test]
fn empty_label_is_refused() {
    assert!(matches!(
        error_of(builder().label("", "x")),
        ErrorInner::EmptyLabel
    ));
    assert!(matches!(
        error_of(layer(
            "http://loki:3100",
            vec![pair("a", "1"), pair("", "2"), pair("a", "3")],
            vec![]
        )),
        ErrorInner::EmptyLabel
    ));
}

#[test]
fn duplicate_label_is_refused() {
    let error = fault(builder()
        .label("host", "a")
        .unwrap()
        .label("host", "b"));
    assert!(matches!(&error.0, ErrorInner::DuplicateLabel(key) if key == "host"));
    assert_eq!(error.message(), "duplicate label key \"host\"");
}

#[test]
fn duplicate_extra_field_is_refused() {
    let error = fault(builder()
        .extra_field("run_id", "a")
        .unwrap()
        .extra_field("other", "b")
        .unwrap()
        .extra_field("run_id", "c"));
    assert!(matches!(&error.0, ErrorInner::DuplicateExtraField(key) if key == "run_id"));
    assert_eq!(error.message(), "duplicate extra field key \"run_id\"");
}

#[test]
fn invalid_header_name_is_refused() {
    let error = fault(builder().http_header("bad name", "x"));
    assert!(matches!(&error.0, ErrorInner::InvalidHttpHeaderName(name) if name == "bad name"));
    assert_eq!(error.message(), "invalid HTTP header name \"bad name\"");
    assert!(matches!(
        error_of(builder().http_header("", "x")),
        ErrorInner::InvalidHttpHeaderName(_)
    ));
}

#[test]
fn invalid_header_value_is_refused() {
    let error = fault(builder().http_header("X-Test", "line\nbreak"));
    assert!(matches!(&error.0, ErrorInner::InvalidHttpHeaderValue(name) if name == "X-Test"));
    assert_eq!(error.message(), "invalid HTTP header value for \"X-Test\"");
    assert!(builder().http_header("X-Test", "tab\tand space").is_ok());
    assert!(builder().http_header("X-Test", "del\u{7f}").is_err());
}

#[test]
fn duplicate_header_is_refused_whatever_its_case() {
    let error = fault(builder()
        .http_header("X-Scope-OrgID", "a")
        .unwrap()
        .http_header("x-scope-orgid", "b"));
    assert!(matches!(&error.0, ErrorInner::DuplicateHttpHeader(name) if name == "x-scope-orgid"));
    assert_eq!(error.message(), "duplicate HTTP header \"x-scope-orgid\"");
    assert!(matches!(
        error_of(builder().http_header("Content-Type", "text/plain")),
        ErrorInner::DuplicateHttpHeader(_)
    ));
}

#[test]
fn invalid_url_is_refused() {
    let error = fault(builder().build_url("127.0.0.1:3100/relative"));
    assert!(matches!(&error.0, ErrorInner::InvalidLokiUrl));
    assert_eq!(error.message(), "invalid Loki URL");
    assert!(builder().build_url("").is_err());
    assert!(builder().build_url("mailto:someone@example.com").is_err());
}

#[test]
fn headers_keep_their_order_and_are_copied() {
    let builder = fine(builder().http_header("X-A", "1"));
    let builder = fine(builder.http_header("x-b", "2"));
    let copy = builder.clone();
    let (_, task) = builder.build_url("http://loki:3100").unwrap();
    let (_, twin) = fine(copy.extra_field("k", "v"))
        .build_url("http://loki:3100")
        .unwrap();
    assert_eq!(headers_of(&twin.http_headers), headers_of(&task.http_headers));
    assert_eq!(
        headers_of(&task.http_headers),
        vec![
            pair("content-type", "application/x-snappy"),
            pair("x-a", "1"),
            pair("x-b", "2"),
        ]
    );
}

#[test]
fn header_values_may_hold_bytes_beyond_ascii() {
    let (_, task) = builder()
        .http_header("X-Name", "zoë")
        .unwrap()
        .build_url("http://loki:3100")
        .unwrap();
    assert_eq!(
        task.http_headers.get("x-name").unwrap().as_bytes(),
        "zoë".as_bytes()
    );
}

#[test]
fn many_headers_are_taken() {
    let mut builder = builder();
    for i in 0..300 {
        let name = format!("x-header-{}", i);
        builder = fine(builder.http_header(&name, "v"));
    }
    let error = fault(builder.clone().http_header("X-HEADER-150", "w"));
    assert!(matches!(&error.0, ErrorInner::DuplicateHttpHeader(name) if name == "X-HEADER-150"));
    let (_, task) = builder.build_url("http://loki:3100").unwrap();
    assert_eq!(task.http_headers.len(), 301);
    assert_eq!(task.http_headers.get("x-header-299").unwrap(), "v");
}
