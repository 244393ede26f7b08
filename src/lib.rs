//! Formats structured diagnostic events as single-line JSON records in the
//! logstash layout.
//!
//! Field values recorded on spans and events are kept in dense slots of a
//! field catalog. An event's record is built from fixed metadata, a stack
//! trace, constant and dynamic fields, a span list, the event's own fields
//! and the fields of its enclosing spans; a key is written by its first
//! writer only.

pub mod event_recorder;
pub mod fields;
pub mod format;
pub mod json;
pub mod level;
pub mod logstash;
pub mod scope;
pub mod span_recorder;

pub use event_recorder::DefaultEventRecorder;
pub use fields::{FieldConfig, FieldRecorder, FieldSpec, RecordedValue, Visibility};
pub use format::DefaultSpanFormat;
pub use json::OutputValue;
pub use level::{level_value, DisplayLevelFilter, Level, LoggerName};
pub use logstash::{EventRecord, FormatError, LogTimestamp, LogstashFormat};
pub use scope::{Metadata, SpanFrame, SpanStore};
pub use span_recorder::DefaultSpanRecorder;
