use tracing_loki::error::ErrorInner;
use tracing_loki::labels::FormattedLabels;
use tracing_loki::labels::ValidatedLabel;
use tracing_loki::level::Level;

#[test]
fn simple() {
    assert_eq!(
        FormattedLabels::new().finish(Level::Trace),
        r#"{level="trace"}"#,
    );
    assert_eq!(
        FormattedLabels::new().finish(Level::Debug),
        r#"{level="debug"}"#,
    );
    assert_eq!(
        FormattedLabels::new().finish(Level::Info),
        r#"{level="info"}"#,
    );
    assert_eq!(
        FormattedLabels::new().finish(Level::Warn),
        r#"{level="warn"}"#,
    );
    assert_eq!(
        FormattedLabels::new().finish(Level::Error),
        r#"{level="error"}"#,
    );
}

#[test]
fn level() {
    assert!(ValidatedLabel::new("level".into()).is_err());
}

#[test]
fn duplicate() {
    let mut labels = FormattedLabels::new();
    let validated = ValidatedLabel::new("abc".into()).unwrap();
    labels.add(validated.clone(), "abc").unwrap();
    assert!(labels.clone().add(validated.clone(), "def").is_err());
    assert!(labels.clone().add(validated.clone(), "abc").is_err());
    assert!(labels.clone().add(validated.clone(), "").is_err());
}

#[test]
fn selector_with_base_label() {
    let mut labels = FormattedLabels::new();
    labels
        .add(ValidatedLabel::new("host".into()).unwrap(), "mine")
        .unwrap();
    assert_eq!(labels.finish(Level::Info), r#"{host="mine",level="info"}"#);
}

#[test]
fn reserved_level_is_reported() {
    let error = ValidatedLabel::new("level".into()).unwrap_err();
    assert!(matches!(error.0, ErrorInner::ReservedLabelLevel));
    assert_eq!(error.message(), "cannot add custom label for \"level\"");
}

#[test]
fn empty_key_is_refused() {
    let error = ValidatedLabel::new(String::new()).unwrap_err();
    assert!(matches!(error.0, ErrorInner::EmptyLabel));
    assert_eq!(error.message(), "empty label key");
    assert!(ValidatedLabel::new("_".into()).is_ok());
    assert!(ValidatedLabel::new("a".into()).is_ok());
}
