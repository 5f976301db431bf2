use tracing_loki::label_map::LabelMap;
use tracing_loki::labels::ValidatedLabel;
use tracing_loki::level::Level;
use tracing_loki::selector::text_comes_before;
use tracing_loki::selector::LabelSelectorVisitor;

fn label(key: &str) -> ValidatedLabel {
    ValidatedLabel::new(key.to_owned()).unwrap()
}

fn select_keys() -> LabelMap<ValidatedLabel> {
    let mut keys = LabelMap::new();
    keys.get_or_insert("service", || label("svc"));
    keys.get_or_insert("env", || label("environment"));
    keys.get_or_insert("zone", || label("az"));
    keys.get_or_insert("service_name", || label("svc"));
    keys
}

#[test]
fn nothing_found_gives_the_level_alone() {
    let keys = select_keys();
    let visitor = LabelSelectorVisitor::new(&keys);
    assert_eq!(visitor.finish(Level::Info), "{level=\"info\"}");
}

#[test]
fn found_labels_are_ordered_by_key() {
    let keys = select_keys();
    let mut visitor = LabelSelectorVisitor::new(&keys);
    visitor.record_str("service", "api");
    visitor.record_str("message", "ignored");
    visitor.record_str("zone", "b");
    visitor.record_str("env", "prod");
    assert_eq!(
        visitor.finish(Level::Warn),
        "{az=\"b\",environment=\"prod\",svc=\"api\",level=\"warn\"}"
    );
}

#[test]
fn first_value_of_a_key_is_kept() {
    let keys = select_keys();
    let mut visitor = LabelSelectorVisitor::new(&keys);
    visitor.record_str("service", "first");
    visitor.record_str("env", "e");
    visitor.record_str("service_name", "second");
    visitor.record_str("service", "third");
    assert_eq!(
        visitor.finish(Level::Error),
        "{environment=\"e\",svc=\"first\",level=\"error\"}"
    );
}

#[test]
fn values_are_quoted() {
    let keys = select_keys();
    let mut visitor = LabelSelectorVisitor::new(&keys);
    visitor.record_str("zone", "a\"b");
    assert_eq!(
        visitor.finish(Level::Trace),
        "{az=\"a\\\"b\",level=\"trace\"}"
    );
}

#[test]
fn order_of_the_dictionary() {
    assert!(text_comes_before("", "a"));
    assert!(!text_comes_before("", ""));
    assert!(!text_comes_before("a", ""));
    assert!(text_comes_before("a", "b"));
    assert!(!text_comes_before("b", "a"));
    assert!(text_comes_before("ab", "abc"));
    assert!(!text_comes_before("abc", "ab"));
    assert!(!text_comes_before("abc", "abc"));
    assert!(text_comes_before("Z", "a"));
    assert!(text_comes_before("a_b", "aab"));
    assert!(text_comes_before("abd", "abe"));
}

#[test]
fn label_map_lookup() {
    let keys = select_keys();
    assert_eq!(keys.get("env").map(|l| l.inner()), Some("environment"));
    assert_eq!(keys.get("service_name").map(|l| l.inner()), Some("svc"));
    assert!(keys.get("nope").is_none());
    assert!(keys.get("").is_none());
}
