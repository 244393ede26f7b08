use serde_json::Value;
use tracing_logstash::{
    DefaultSpanFormat, DisplayLevelFilter, LoggerName,
    EventRecord, FieldRecorder, FieldSpec, Level, LogTimestamp, LogstashFormat, Metadata,
    RecordedValue, SpanFrame, SpanStore,
};

fn metadata(name: &str, target: &str, level: Level) -> Metadata {
    Metadata {
        name: name.to_owned(),
        target: target.to_owned(),
        level,
        file: None,
        line: None,
    }
}

fn event(
    format: &LogstashFormat,
    level: Level,
    message: Option<&str>,
    fields: Vec<(&str, RecordedValue)>,
) -> EventRecord {
    let mut recorder = format.event_recorder();
    for (name, value) in fields {
        recorder.record_field(name, value);
    }
    EventRecord {
        metadata: metadata("event", "output", level),
        message: message.map(|m| m.to_owned()),
        fields: recorder,
    }
}

fn format_line(
    format: &LogstashFormat,
    event: &EventRecord,
    scope: &Vec<SpanFrame>,
    store: &SpanStore,
    thread_name: Option<&str>,
) -> Value {
    let line = format
        .format_event(
            event,
            scope,
            store,
            &LogTimestamp::from_unix_nanos(1_577_836_800_000_000_000),
            &thread_name.map(|t| t.to_owned()),
            &Vec::new(),
        )
        .unwrap();
    serde_json::from_str(&line).unwrap()
}

#[test]
fn test_serialize_log_timestamp() {
    let timestamp = LogTimestamp::from_unix_nanos(1_577_836_800_000_000_000);
    let serialized = timestamp.to_json().unwrap();
    assert_eq!(serialized, "\"2020-01-01T00:00:00Z\"");
}

#[test]
fn simple_log_format() {
    let format = LogstashFormat::default().with_constants(vec![
        ("service.name".to_owned(), "tracing-logstash".to_owned()),
        ("service.environment".to_owned(), "testing".to_owned()),
    ]);
    let ev = event(&format, Level::Info, Some("test"), vec![]);
    let output_json = format_line(
        &format,
        &ev,
        &Vec::new(),
        &SpanStore::new(),
        Some("simple_log_format"),
    );
    let expected_json: Value = serde_json::from_str(&format!(
        r#"{{
            "@version": "1",
            "@timestamp": {},
            "thread_name": "simple_log_format",
            "logger_name": "output",
            "level": "INFO",
            "level_value": 5,
            "service.name": "tracing-logstash",
            "service.environment": "testing",
            "message": "test"
        }}"#,
        output_json["@timestamp"]
    ))
    .unwrap();
    assert_eq!(output_json, expected_json);
    assert_eq!(output_json["@timestamp"], "2020-01-01T00:00:00Z");
}

#[test]
fn basic_event_has_exactly_the_default_keys() {
    let format = LogstashFormat::default()
        .with_constants(vec![("service.name".to_owned(), "demo".to_owned())]);
    let ev = event(&format, Level::Info, Some("test"), vec![]);
    let out = format_line(&format, &ev, &Vec::new(), &SpanStore::new(), Some("main"));
    let obj = out.as_object().unwrap();
    let mut keys: Vec<&str> = obj.keys().map(|k| k.as_str()).collect();
    keys.sort();
    let mut expected = vec![
        "@version",
        "@timestamp",
        "thread_name",
        "logger_name",
        "level",
        "level_value",
        "service.name",
        "message",
    ];
    expected.sort();
    assert_eq!(keys, expected);
    assert_eq!(out["level"], "INFO");
    assert_eq!(out["level_value"], 5);
    assert_eq!(out["message"], "test");
    assert_eq!(out["service.name"], "demo");
}

#[test]
fn record_keeps_the_fixed_order_of_fields() {
    let format = LogstashFormat::default()
        .with_constants(vec![("service.name".to_owned(), "demo".to_owned())]);
    let ev = event(&format, Level::Warn, Some("hi"), vec![]);
    let line = format
        .format_event(
            &ev,
            &Vec::new(),
            &SpanStore::new(),
            &LogTimestamp::from_unix_nanos(0),
            &Some("main".to_owned()),
            &vec![("dyn".to_owned(), "d".to_owned())],
        )
        .unwrap();
    assert_eq!(
        line,
        "{\"@version\":\"1\",\"@timestamp\":\"1970-01-01T00:00:00Z\",\"thread_name\":\"main\",\
         \"logger_name\":\"output\",\"level\":\"WARN\",\"level_value\":4,\
         \"service.name\":\"demo\",\"dyn\":\"d\",\"message\":\"hi\"}"
    );
}

#[test]
fn nested_spans_event_value_wins() {
    let format = LogstashFormat::default()
        .with_span_fields(vec![FieldSpec::new("x"), FieldSpec::new("y")]);
    let mut store = SpanStore::new();
    let mut outer = format.span_recorder();
    outer.record_field("x", RecordedValue::I64(1));
    store.on_new_span(1, outer);
    let mut inner = format.span_recorder();
    inner.record_field("y", RecordedValue::I64(2));
    store.on_new_span(2, inner);
    let scope = vec![
        SpanFrame { id: 2, metadata: metadata("inner", "app", Level::Info) },
        SpanFrame { id: 1, metadata: metadata("outer", "app", Level::Info) },
    ];
    let ev = event(&format, Level::Info, Some("m"), vec![("y", RecordedValue::I64(3))]);
    let out = format_line(&format, &ev, &scope, &store, None);
    assert_eq!(out["x"], 1);
    assert_eq!(out["y"], 3);
    assert!(out.get("thread_name").is_none());
}

#[test]
fn inner_span_value_wins_over_outer() {
    let format = LogstashFormat::default().with_span_fields(vec![FieldSpec::new("x")]);
    let mut store = SpanStore::new();
    let mut outer = format.span_recorder();
    outer.record_field("x", RecordedValue::String("outer".to_owned()));
    store.on_new_span(1, outer);
    let mut inner = format.span_recorder();
    inner.record_field("x", RecordedValue::String("inner".to_owned()));
    store.on_new_span(2, inner);
    let scope = vec![
        SpanFrame { id: 2, metadata: metadata("inner", "app", Level::Info) },
        SpanFrame { id: 1, metadata: metadata("outer", "app", Level::Info) },
    ];
    let ev = event(&format, Level::Info, None, vec![]);
    let out = format_line(&format, &ev, &scope, &store, None);
    assert_eq!(out["x"], "inner");
}

#[test]
fn unregistered_field_is_not_written() {
    let format = LogstashFormat::default().with_span_fields(vec![FieldSpec::new("known")]);
    let ev = event(
        &format,
        Level::Info,
        Some("m"),
        vec![
            ("unknown", RecordedValue::Bool(true)),
            ("known", RecordedValue::U64(7)),
        ],
    );
    let out = format_line(&format, &ev, &Vec::new(), &SpanStore::new(), None);
    assert!(out.get("unknown").is_none());
    assert_eq!(out["known"], 7);
}

#[test]
fn unset_slots_are_not_written() {
    let format = LogstashFormat::default()
        .with_span_fields(vec![FieldSpec::new("a"), FieldSpec::new("b")]);
    let mut store = SpanStore::new();
    let mut span = format.span_recorder();
    span.record_field("a", RecordedValue::Null);
    store.on_new_span(9, span);
    let scope = vec![SpanFrame { id: 9, metadata: metadata("s", "app", Level::Info) }];
    let ev = event(&format, Level::Info, None, vec![]);
    let out = format_line(&format, &ev, &scope, &store, None);
    assert!(out.get("b").is_none());
    assert_eq!(out["a"], Value::Null);
}

#[test]
fn stack_trace_absent_when_event_filtered() {
    let format = LogstashFormat::default()
        .with_stack_trace(Some((DisplayLevelFilter::Off, DisplayLevelFilter::All)));
    let ev = event(&format, Level::Info, Some("m"), vec![]);
    let out = format_line(&format, &ev, &Vec::new(), &SpanStore::new(), None);
    assert!(out.get("stack_trace").is_none());

    let format = LogstashFormat::default().with_stack_trace(Some((
        DisplayLevelFilter::Level(Level::Debug),
        DisplayLevelFilter::All,
    )));
    let out = format_line(&format, &ev, &Vec::new(), &SpanStore::new(), None);
    assert!(out.get("stack_trace").is_none());
}

#[test]
fn stack_trace_lists_spans_from_the_root() {
    let format = LogstashFormat::default()
        .with_stack_trace(Some((DisplayLevelFilter::All, DisplayLevelFilter::All)));
    let mut outer = metadata("outer", "app::outer", Level::Info);
    outer.file = Some("src/outer.rs".to_owned());
    outer.line = Some(10);
    let inner = metadata("inner", "app::inner", Level::Debug);
    let scope = vec![
        SpanFrame { id: 2, metadata: inner },
        SpanFrame { id: 1, metadata: outer },
    ];
    let mut ev = event(&format, Level::Info, Some("m"), vec![]);
    ev.metadata.file = Some("src/main.rs".to_owned());
    ev.metadata.line = Some(42);
    let out = format_line(&format, &ev, &scope, &SpanStore::new(), None);
    assert_eq!(
        out["stack_trace"],
        "  at app::outer(src/outer.rs:10)\n  at app::inner(<unknown>:0)\n  at output(src/main.rs:42)"
    );

    let format = LogstashFormat::default().with_stack_trace(Some((
        DisplayLevelFilter::All,
        DisplayLevelFilter::Event,
    )));
    let out = format_line(&format, &ev, &scope, &SpanStore::new(), None);
    assert_eq!(
        out["stack_trace"],
        "  at app::outer(src/outer.rs:10)\n  at output(src/main.rs:42)"
    );
}

#[test]
fn repeated_constant_keeps_first() {
    let format = LogstashFormat::default().with_constants(vec![
        ("k".to_owned(), "first".to_owned()),
        ("k".to_owned(), "second".to_owned()),
        ("level".to_owned(), "shadow".to_owned()),
    ]);
    let ev = event(&format, Level::Error, None, vec![]);
    let line = format
        .format_event(
            &ev,
            &Vec::new(),
            &SpanStore::new(),
            &LogTimestamp::from_unix_nanos(0),
            &None,
            &Vec::new(),
        )
        .unwrap();
    assert_eq!(line.matches("\"k\"").count(), 1);
    assert_eq!(line.matches("\"level\"").count(), 1);
    let out: Value = serde_json::from_str(&line).unwrap();
    assert_eq!(out["k"], "first");
    assert_eq!(out["level"], "ERROR");
}

#[test]
fn constant_wins_over_event_field() {
    let format = LogstashFormat::default()
        .with_span_fields(vec![FieldSpec::new("user")])
        .with_constants(vec![("user".to_owned(), "constant".to_owned())]);
    let ev = event(
        &format,
        Level::Info,
        None,
        vec![("user", RecordedValue::String("event".to_owned()))],
    );
    let out = format_line(&format, &ev, &Vec::new(), &SpanStore::new(), None);
    assert_eq!(out["user"], "constant");
}

#[test]
fn dynamic_fields_follow_constants() {
    let format = LogstashFormat::default()
        .with_constants(vec![("a".to_owned(), "const".to_owned())]);
    let ev = event(&format, Level::Info, None, vec![]);
    let line = format
        .format_event(
            &ev,
            &Vec::new(),
            &SpanStore::new(),
            &LogTimestamp::from_unix_nanos(0),
            &None,
            &vec![
                ("a".to_owned(), "dyn".to_owned()),
                ("dyn_string".to_owned(), "fnord".to_owned()),
                ("dyn_string".to_owned(), "should_be_ignored".to_owned()),
            ],
        )
        .unwrap();
    let out: Value = serde_json::from_str(&line).unwrap();
    assert_eq!(out["a"], "const");
    assert_eq!(out["dyn_string"], "fnord");
}

#[test]
fn round_trip_reports_level_and_message() {
    for (level, name, value) in [
        (Level::Error, "ERROR", 3),
        (Level::Warn, "WARN", 4),
        (Level::Info, "INFO", 5),
        (Level::Trace, "TRACE", 6),
        (Level::Debug, "DEBUG", 7),
    ] {
        let format = LogstashFormat::default();
        let ev = event(&format, level, Some("say \"hi\"\n\\ back"), vec![]);
        let out = format_line(&format, &ev, &Vec::new(), &SpanStore::new(), None);
        assert_eq!(out["level"], name);
        assert_eq!(out["level_value"], value);
        assert_eq!(out["message"], "say \"hi\"\n\\ back");
    }
}

#[test]
fn message_is_escaped_in_the_line() {
    let format = LogstashFormat::default().with_timestamp(false).with_version(false);
    let ev = event(&format, Level::Info, Some("a\"b"), vec![]);
    let line = format
        .format_event(
            &ev,
            &Vec::new(),
            &SpanStore::new(),
            &LogTimestamp::from_unix_nanos(0),
            &None,
            &Vec::new(),
        )
        .unwrap();
    assert_eq!(
        line,
        "{\"logger_name\":\"output\",\"level\":\"INFO\",\"level_value\":5,\"message\":\"a\\\"b\"}"
    );
}

#[test]
fn timestamp_out_of_range_is_an_error() {
    let format = LogstashFormat::default();
    let ev = event(&format, Level::Info, None, vec![]);
    let r = format.format_event(
        &ev,
        &Vec::new(),
        &SpanStore::new(),
        &LogTimestamp::from_unix_nanos(i128::MAX),
        &None,
        &Vec::new(),
    );
    assert!(matches!(r, Err(tracing_logstash::FormatError::Timestamp)));

    let format = LogstashFormat::default().with_timestamp(false);
    let r = format.format_event(
        &ev,
        &Vec::new(),
        &SpanStore::new(),
        &LogTimestamp::from_unix_nanos(i128::MAX),
        &None,
        &Vec::new(),
    );
    assert!(r.is_ok());
}

#[test]
fn logger_name_from_nearest_span() {
    let format = LogstashFormat::default().with_logger_name(Some(LoggerName::Span));
    let ev = event(&format, Level::Info, None, vec![]);
    let scope = vec![
        SpanFrame { id: 2, metadata: metadata("inner", "app::db", Level::Info) },
        SpanFrame { id: 1, metadata: metadata("outer", "app", Level::Info) },
    ];
    let out = format_line(&format, &ev, &scope, &SpanStore::new(), None);
    assert_eq!(out["logger_name"], "app::db::inner");
    let out = format_line(&format, &ev, &Vec::new(), &SpanStore::new(), None);
    assert_eq!(out["logger_name"], "output");
    let format = LogstashFormat::default().with_logger_name(None);
    let out = format_line(&format, &ev, &Vec::new(), &SpanStore::new(), None);
    assert!(out.get("logger_name").is_none());
}

#[test]
fn span_list_from_root_with_fields_and_location() {
    let format = LogstashFormat::default()
        .with_span_fields(vec![FieldSpec::new("name"), FieldSpec::new("x")])
        .with_span_list(Some(DisplayLevelFilter::All))
        .span_format(DefaultSpanFormat::default().with_location(true).with_fields(true));
    let mut store = SpanStore::new();
    let mut outer = format.span_recorder();
    outer.record_field("x", RecordedValue::I64(-5));
    outer.record_field("name", RecordedValue::String("shadowed".to_owned()));
    store.on_new_span(1, outer);
    let mut outer_md = metadata("outer", "app", Level::Warn);
    outer_md.file = Some("a.rs".to_owned());
    outer_md.line = Some(3);
    let scope = vec![
        SpanFrame { id: 2, metadata: metadata("inner", "app", Level::Trace) },
        SpanFrame { id: 1, metadata: outer_md },
    ];
    let ev = event(&format, Level::Info, None, vec![]);
    let out = format_line(&format, &ev, &scope, &store, None);
    let expected: Value = serde_json::from_str(
        r#"[
            {"name": "outer", "target": "app", "level": "WARN", "file": "a.rs", "line": 3, "x": -5},
            {"name": "inner", "target": "app", "level": "TRACE"}
        ]"#,
    )
    .unwrap();
    assert_eq!(out["spans"], expected);
    assert_eq!(out["name"], "shadowed");

    let format = format.with_span_list(Some(DisplayLevelFilter::Level(Level::Debug)));
    let out = format_line(&format, &ev, &scope, &store, None);
    assert_eq!(out["spans"].as_array().unwrap().len(), 1);
    assert_eq!(out["spans"][0]["name"], "inner");
}

#[test]
fn numbers_and_booleans_are_written_as_json() {
    let format = LogstashFormat::default().with_span_fields(vec![
        FieldSpec::new("neg"),
        FieldSpec::new("min"),
        FieldSpec::new("max"),
        FieldSpec::new("flag"),
        FieldSpec::new("ratio"),
    ]);
    let ev = event(
        &format,
        Level::Info,
        None,
        vec![
            ("neg", RecordedValue::I64(-120)),
            ("min", RecordedValue::I64(i64::MIN)),
            ("max", RecordedValue::U64(u64::MAX)),
            ("flag", RecordedValue::Bool(false)),
            ("ratio", RecordedValue::Float("0.5".to_owned())),
        ],
    );
    let line = format
        .format_event(
            &ev,
            &Vec::new(),
            &SpanStore::new(),
            &LogTimestamp::from_unix_nanos(0),
            &None,
            &Vec::new(),
        )
        .unwrap();
    assert!(line.ends_with(
        "\"neg\":-120,\"min\":-9223372036854775808,\"max\":18446744073709551615,\"flag\":false,\"ratio\":0.5}"
    ));
}

#[test]
fn control_characters_are_escaped() {
    let format = LogstashFormat::default().with_timestamp(false).with_version(false);
    let ev = event(&format, Level::Info, Some("\u{1}\t\u{1f}/"), vec![]);
    let line = format
        .format_event(
            &ev,
            &Vec::new(),
            &SpanStore::new(),
            &LogTimestamp::from_unix_nanos(0),
            &None,
            &Vec::new(),
        )
        .unwrap();
    assert!(line.ends_with("\"message\":\"\\u0001\\t\\u001f/\"}"));
}

#[test]
fn timestamps_of_years_zero_to_9999_are_written() {
    let first = LogTimestamp::from_unix_nanos(-62_167_219_200_000_000_000);
    assert_eq!(first.to_json().unwrap(), "\"0000-01-01T00:00:00Z\"");
    let last = LogTimestamp::from_unix_nanos(253_402_300_799_999_999_999);
    assert_eq!(last.text().unwrap(), "9999-12-31T23:59:59.999999999Z");
    assert!(matches!(
        LogTimestamp::from_unix_nanos(-62_167_219_200_000_000_001).text(),
        Err(tracing_logstash::FormatError::Timestamp)
    ));
    assert!(matches!(
        LogTimestamp::from_unix_nanos(253_402_300_800_000_000_000).text(),
        Err(tracing_logstash::FormatError::Timestamp)
    ));
}
