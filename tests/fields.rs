use tracing_logstash::{
    level_value, DefaultSpanRecorder, DisplayLevelFilter, FieldConfig, FieldRecorder, FieldSpec,
    Level, RecordedValue, SpanStore, Visibility,
};
use std::sync::Arc;

fn names(v: &[String]) -> Vec<&str> {
    v.iter().map(|s| s.as_str()).collect()
}

#[test]
fn catalog_partitions_by_visibility_in_order() {
    let config = FieldConfig::new(vec![
        FieldSpec::new("a"),
        FieldSpec::new("b").with_visibility(Visibility::EventOnly),
        FieldSpec::new("c").with_visibility(Visibility::SpanOnly),
        FieldSpec::renamed("d", "src_d"),
        FieldSpec::new("a"),
    ]);
    assert_eq!(names(&config.span_field_names), vec!["a", "c", "d"]);
    assert_eq!(names(&config.event_field_names), vec!["a", "b", "d"]);
    assert_eq!(config.field_index("src_d"), Some(2));
    assert_eq!(config.field_index("d"), None);
    assert_eq!(config.event_field_index("b"), Some(1));
    assert_eq!(config.field_index("b"), None);
    assert_eq!(config.event_field_index("c"), None);
}

#[test]
fn catalog_lookup_is_stable() {
    let config = FieldConfig::new(vec![FieldSpec::new("x"), FieldSpec::new("y")]);
    let first = config.field_index("y");
    let second = config.field_index("y");
    assert_eq!(first, Some(1));
    assert_eq!(first, second);
    assert_eq!(config.event_field_index("x"), config.event_field_index("x"));
}

#[test]
fn recorder_overwrites_and_ignores_unknown_names() {
    let config = Arc::new(FieldConfig::new(vec![FieldSpec::new("x"), FieldSpec::new("y")]));
    let mut r = DefaultSpanRecorder::from_config(config);
    assert!(r.fields.iter().all(|v| v.is_unset()));
    r.record_field("x", RecordedValue::U64(1));
    r.record_field("x", RecordedValue::U64(2));
    r.record_field("z", RecordedValue::U64(3));
    assert_eq!(r.fields, vec![RecordedValue::U64(2), RecordedValue::Unset]);
}

#[test]
fn span_store_keeps_first_recorder_and_drops_closed_spans() {
    let config = Arc::new(FieldConfig::new(vec![FieldSpec::new("x")]));
    let mut store = SpanStore::new();
    let mut first = DefaultSpanRecorder::from_config(config.clone());
    first.record_field("x", RecordedValue::Bool(true));
    assert!(store.on_new_span(5, first));
    assert!(!store.on_new_span(5, DefaultSpanRecorder::from_config(config.clone())));
    assert_eq!(store.get(5).unwrap().fields, vec![RecordedValue::Bool(true)]);
    store.record(5, "x", RecordedValue::Bool(false));
    store.record(6, "x", RecordedValue::Bool(false));
    assert_eq!(store.get(5).unwrap().fields, vec![RecordedValue::Bool(false)]);
    assert!(store.get(6).is_none());
    store.on_close(5);
    assert!(store.get(5).is_none());
}

#[test]
fn level_values_are_fixed() {
    assert_eq!(level_value(&Level::Error), 3);
    assert_eq!(level_value(&Level::Warn), 4);
    assert_eq!(level_value(&Level::Info), 5);
    assert_eq!(level_value(&Level::Trace), 6);
    assert_eq!(level_value(&Level::Debug), 7);
    assert_eq!(Level::Debug.as_str(), "DEBUG");
}

#[test]
fn level_filter_decisions() {
    assert!(!DisplayLevelFilter::Off.is_enabled(Level::Info, Level::Error));
    assert!(DisplayLevelFilter::All.is_enabled(Level::Info, Level::Trace));
    let at_debug = DisplayLevelFilter::Level(Level::Debug);
    assert!(at_debug.is_enabled(Level::Error, Level::Debug));
    assert!(at_debug.is_enabled(Level::Error, Level::Trace));
    assert!(!at_debug.is_enabled(Level::Error, Level::Info));
    assert!(DisplayLevelFilter::Event.is_enabled(Level::Warn, Level::Warn));
    assert!(!DisplayLevelFilter::Event.is_enabled(Level::Warn, Level::Error));
}

#[test]
fn recorded_value_conversions() {
    assert_eq!(RecordedValue::from(-3i64), RecordedValue::I64(-3));
    assert_eq!(RecordedValue::from(3u64), RecordedValue::U64(3));
    assert_eq!(RecordedValue::from(true), RecordedValue::Bool(true));
    assert_eq!(RecordedValue::from("s".to_owned()), RecordedValue::String("s".to_owned()));
}
