use crate::event_recorder::DefaultEventRecorder;
use crate::fields::{has_key, share_config, FieldConfig, FieldSpec, RecordedValue, Scalar};
use crate::format::{
    first_wins, keyed, law_first_write_wins, law_unset_not_written, lemma_first_wins_keys, lemma_first_wins_map,
    lemma_first_wins_unique, recorded_members, DefaultSpanFormat, FieldWriter,
};
use crate::json::{
    decimal, fields_model, joined, json_quoted, lemma_joined_step, members_model, push_decimal,
    quote, record_text, render_record, JsonField, OutputValue,
};
use crate::level::{level_value, DisplayLevelFilter, Level, LoggerName};
use crate::scope::{Metadata, SpanFrame, SpanStore};
use crate::span_recorder::DefaultSpanRecorder;
use std::sync::Arc;
use vstd::prelude::*;
use vstd::string::*;

verus! {

/// An event as the formatter sees it: where it was raised, its message and
/// the catalogued fields recorded on it.
pub struct EventRecord {
    pub metadata: Metadata,
    pub message: Option<String>,
    pub fields: DefaultEventRecorder,
}

/// Display options of the logstash output format.
pub struct LogstashFormat {
    pub display_version: bool,
    pub display_timestamp: bool,
    pub display_logger_name: Option<LoggerName>,
    pub display_thread_name: bool,
    pub display_level: bool,
    pub display_level_value: bool,
    pub display_span_list: Option<DisplayLevelFilter>,
    pub display_stack_trace: Option<(DisplayLevelFilter, DisplayLevelFilter)>,
    pub span_format: DefaultSpanFormat,
    pub span_fields: Arc<FieldConfig>,
    pub constants: Vec<(String, String)>,
}

pub type Field = (Seq<char>, JsonField);

pub open spec fn text_field(key: Seq<char>, value: Seq<char>) -> Field {
    (key, JsonField::Scalar(Scalar::Text(value)))
}

pub open spec fn when(b: bool, f: Field) -> Seq<Field> {
    if b {
        seq![f]
    } else {
        Seq::empty()
    }
}

/// Fields written as they are given, one string each.
pub open spec fn string_fields(pairs: Seq<(String, String)>) -> Seq<Field> {
    pairs.map_values(|p: (String, String)| text_field(p.0@, p.1@))
}

/// Scalar members lifted to output fields.
pub open spec fn scalar_fields(ms: Seq<(Seq<char>, Scalar)>) -> Seq<Field> {
    ms.map_values(|m: (Seq<char>, Scalar)| (m.0, JsonField::Scalar(m.1)))
}

/// The enclosing spans from the outermost to the innermost, for a chain
/// given from the innermost out.
pub open spec fn root_first(scope: Seq<SpanFrame>) -> Seq<SpanFrame> {
    Seq::new(scope.len(), |i: int| scope[scope.len() - 1 - i])
}

/// One line of a stack trace.
pub open spec fn frame_line(md: Metadata) -> Seq<char> {
    "  at "@ + md.target@ + "("@ + (match md.file {
        Some(f) => f@,
        None => "<unknown>"@,
    }) + ":"@ + decimal(
        match md.line {
            Some(l) => l as nat,
            None => 0,
        },
    ) + ")"@
}

/// The stack trace lines of the frames that `filter` shows, in order.
pub open spec fn trace_lines(frames: Seq<SpanFrame>, filter: DisplayLevelFilter, event_level: Level) -> Seq<
    Seq<char>,
>
    decreases frames.len(),
{
    if frames.len() == 0 {
        Seq::empty()
    } else {
        let prev = trace_lines(frames.drop_last(), filter, event_level);
        if filter.enabled(event_level, frames.last().metadata.level) {
            prev.push(frame_line(frames.last().metadata))
        } else {
            prev
        }
    }
}

/// The stack trace of an event: a line per enclosing span that `filter`
/// shows, from the root, then the event's own line.
pub open spec fn stack_trace_text(
    event: Metadata,
    scope: Seq<SpanFrame>,
    filter: DisplayLevelFilter,
) -> Seq<char> {
    joined(trace_lines(root_first(scope), filter, event.level).push(frame_line(event)), "\n"@)
}

/// The fields of the enclosing spans, innermost span first.
pub open spec fn scope_members(scope: Seq<SpanFrame>, store: SpanStore) -> Seq<(Seq<char>, Scalar)>
    decreases scope.len(),
{
    if scope.len() == 0 {
        Seq::empty()
    } else {
        scope_members(scope.drop_last(), store) + match store.recorder(scope.last().id) {
            Some(r) => recorded_members(r.config.span_field_names@, r.fields@),
            None => Seq::empty(),
        }
    }
}

impl LogstashFormat {
    pub open spec fn wf(&self) -> bool {
        self.span_fields.wf()
    }

    /// The objects of the span list: one per enclosing span that `filter`
    /// shows, in the order of `frames`.
    pub open spec fn span_list(
        self,
        frames: Seq<SpanFrame>,
        store: SpanStore,
        filter: DisplayLevelFilter,
        event_level: Level,
    ) -> Seq<Seq<(Seq<char>, Scalar)>>
        decreases frames.len(),
    {
        if frames.len() == 0 {
            Seq::empty()
        } else {
            let prev = self.span_list(frames.drop_last(), store, filter, event_level);
            let f = frames.last();
            if filter.enabled(event_level, f.metadata.level) {
                prev.push(self.span_format.span_object(f, store.recorder(f.id)))
            } else {
                prev
            }
        }
    }

    pub open spec fn logger_name_text(self, event: Metadata, scope: Seq<SpanFrame>, l: LoggerName) -> Seq<
        char,
    > {
        match l {
            LoggerName::Event => event.target@,
            LoggerName::Span => if scope.len() > 0 {
                scope[0].metadata.target@ + "::"@ + scope[0].metadata.name@
            } else {
                event.target@
            },
        }
    }

    /// The fixed metadata fields, in their order.
    pub open spec fn fixed_fields(
        self,
        event: Metadata,
        scope: Seq<SpanFrame>,
        timestamp: Seq<char>,
        thread_name: Option<String>,
    ) -> Seq<Field> {
        when(self.display_version, text_field("@version"@, "1"@)) + when(
            self.display_timestamp,
            text_field("@timestamp"@, timestamp),
        ) + when(
            self.display_thread_name && thread_name is Some,
            text_field("thread_name"@, thread_name->0@),
        ) + match self.display_logger_name {
            Some(l) => seq![text_field("logger_name"@, self.logger_name_text(event, scope, l))],
            None => Seq::empty(),
        } + when(self.display_level, text_field("level"@, event.level.name())) + when(
            self.display_level_value,
            ("level_value"@, JsonField::Scalar(Scalar::Int(event.level.numeric() as int))),
        )
    }

    /// The stack trace field, when one is configured and the event's own
    /// level passes the event filter.
    pub open spec fn stack_trace_fields(self, event: Metadata, scope: Seq<SpanFrame>) -> Seq<Field> {
        match self.display_stack_trace {
            Some((event_filter, span_filter)) => when(
                event_filter.enabled(event.level, event.level),
                text_field("stack_trace"@, stack_trace_text(event, scope, span_filter)),
            ),
            None => Seq::empty(),
        }
    }

    /// The span list field, when one is configured.
    pub open spec fn span_list_fields(self, event: Metadata, scope: Seq<SpanFrame>, store: SpanStore) -> Seq<
        Field,
    > {
        match self.display_span_list {
            Some(filter) => seq![
                ("spans"@, JsonField::Objects(
                    self.span_list(root_first(scope), store, filter, event.level),
                )),
            ],
            None => Seq::empty(),
        }
    }

    /// The event's own fields: its message, then its recorded fields.
    pub open spec fn own_fields(self, event: EventRecord) -> Seq<Field> {
        when(event.message is Some, text_field("message"@, event.message->0@)) + scalar_fields(
            recorded_members(event.fields.config.event_field_names@, event.fields.fields@),
        )
    }

    /// Every field offered for an event, in the order in which they are
    /// offered; `first_wins` of it is what is written.
    pub open spec fn candidates(
        self,
        event: EventRecord,
        scope: Seq<SpanFrame>,
        store: SpanStore,
        timestamp: Seq<char>,
        thread_name: Option<String>,
        dynamics: Seq<(String, String)>,
    ) -> Seq<Field> {
        self.fixed_fields(event.metadata, scope, timestamp, thread_name) + self.stack_trace_fields(
            event.metadata,
            scope,
        ) + string_fields(self.constants@) + string_fields(dynamics) + self.span_list_fields(
            event.metadata,
            scope,
            store,
        ) + self.own_fields(event) + scalar_fields(scope_members(scope, store))
    }

    /// The fields written for an event.
    pub open spec fn event_fields_spec(
        self,
        event: EventRecord,
        scope: Seq<SpanFrame>,
        store: SpanStore,
        timestamp: Seq<char>,
        thread_name: Option<String>,
        dynamics: Seq<(String, String)>,
    ) -> Seq<Field> {
        first_wins(
            Seq::empty(),
            self.candidates(event, scope, store, timestamp, thread_name, dynamics),
        )
    }
}

/// A field holding a string.
fn text_output(key: &str, value: String) -> (r: (String, OutputValue))
    ensures
        r.0@ == key@,
        r.1.model() == JsonField::Scalar(Scalar::Text(value@)),
{
    (String::from_str(key), OutputValue::Value(RecordedValue::String(value)))
}

proof fn lemma_fields_model_push(v: Seq<(String, OutputValue)>, e: (String, OutputValue))
    ensures
        fields_model(v.push(e)) == fields_model(v).push((e.0@, e.1.model())),
{
    assert(fields_model(v.push(e)) =~= fields_model(v).push((e.0@, e.1.model())));
}

proof fn lemma_members_model_concat(a: Seq<(String, RecordedValue)>, b: Seq<(String, RecordedValue)>)
    ensures
        members_model(a + b) == members_model(a) + members_model(b),
{
    assert(members_model(a + b) =~= members_model(a) + members_model(b));
}

/// Appends one line of a stack trace, without its newline.
fn push_frame_line(out: &mut String, md: &Metadata)
    ensures
        final(out)@ == old(out)@ + frame_line(*md),
{
    out.append("  at ");
    out.append(md.target.as_str());
    out.append("(");
    match &md.file {
        Some(f) => out.append(f.as_str()),
        None => out.append("<unknown>"),
    }
    out.append(":");
    match md.line {
        Some(l) => push_decimal(out, l as u64),
        None => push_decimal(out, 0),
    }
    out.append(")");
    assert(final(out)@ =~= old(out)@ + frame_line(*md));
}

/// The stack trace of an event.
pub fn stack_trace(event: &Metadata, scope: &Vec<SpanFrame>, filter: DisplayLevelFilter) -> (r: String)
    ensures
        r@ == stack_trace_text(*event, scope@, filter),
{
    let n = scope.len();
    let ghost frames = root_first(scope@);
    let mut out = String::new();
    let mut count: usize = 0;
    let mut i: usize = 0;
    while i < n
        invariant
            i <= n,
            n == scope.len(),
            frames == root_first(scope@),
            count == trace_lines(frames.take(i as int), filter, event.level).len(),
            count <= i,
            out@ == joined(trace_lines(frames.take(i as int), filter, event.level), "\n"@),
        decreases n - i,
    {
        let frame = &scope[n - 1 - i];
        let ghost lines = trace_lines(frames.take(i as int), filter, event.level);
        assert(frames.take(i + 1).drop_last() == frames.take(i as int));
        assert(frames.take(i + 1).last() == *frame);
        if filter.is_enabled(event.level, frame.metadata.level) {
            let ghost lines2 = lines.push(frame_line(frame.metadata));
            if count > 0 {
                out.append("\n");
            }
            push_frame_line(&mut out, &frame.metadata);
            proof {
                lemma_joined_step(lines2, "\n"@, lines.len() as int);
                assert(lines2.take(lines.len() as int) == lines);
                assert(lines2.take(lines.len() as int + 1) == lines2);
                if count == 0 {
                    assert(out@ == joined(lines, "\n"@) + Seq::<char>::empty() + frame_line(
                        frame.metadata,
                    ));
                }
            }
            count = count + 1;
        }
        i = i + 1;
    }
    assert(frames.take(n as int) == frames);
    let ghost lines = trace_lines(frames, filter, event.level);
    let ghost all = lines.push(frame_line(*event));
    if count > 0 {
        out.append("\n");
    }
    push_frame_line(&mut out, event);
    proof {
        lemma_joined_step(all, "\n"@, lines.len() as int);
        assert(all.take(lines.len() as int) == lines);
        assert(all.take(lines.len() as int + 1) == all);
        if count == 0 {
            assert(out@ == joined(lines, "\n"@) + Seq::<char>::empty() + frame_line(*event));
        }
    }
    out
}

/// The written slots of a recorder under their keys, in slot order.
pub fn recorded_entries(names: &Vec<String>, values: &Vec<RecordedValue>) -> (r: Vec<
    (String, RecordedValue),
>)
    ensures
        members_model(r@) == recorded_members(names@, values@),
{
    let mut out: Vec<(String, RecordedValue)> = Vec::new();
    let mut i: usize = 0;
    while i < values.len()
        invariant
            i <= values.len(),
            members_model(out@) == recorded_members(names@, values@.take(i as int)),
        decreases values.len() - i,
    {
        assert(values@.take(i + 1).drop_last() == values@.take(i as int));
        if !values[i].is_unset() && i < names.len() {
            let ghost before = out@;
            out.push((names[i].clone(), values[i].duplicate()));
            assert(members_model(out@) =~= members_model(before).push(
                (names@[i as int]@, values@[i as int].scalar()),
            ));
        }
        i = i + 1;
    }
    assert(values@.take(values.len() as int) == values@);
    out
}

/// The recorded fields of the enclosing spans, innermost span first.
pub fn scope_entries(scope: &Vec<SpanFrame>, store: &SpanStore) -> (r: Vec<(String, RecordedValue)>)
    requires
        store.wf(),
    ensures
        members_model(r@) == scope_members(scope@, *store),
{
    let mut out: Vec<(String, RecordedValue)> = Vec::new();
    let mut i: usize = 0;
    while i < scope.len()
        invariant
            i <= scope.len(),
            store.wf(),
            members_model(out@) == scope_members(scope@.take(i as int), *store),
        decreases scope.len() - i,
    {
        assert(scope@.take(i + 1).drop_last() == scope@.take(i as int));
        assert(scope@.take(i + 1).last() == scope@[i as int]);
        match store.get(scope[i].id) {
            Some(rec) => {
                let more = recorded_entries(&rec.config.span_field_names, &rec.fields);
                let ghost before = out@;
                let mut j: usize = 0;
                while j < more.len()
                    invariant
                        j <= more.len(),
                        out@ == before + more@.take(j as int),
                    decreases more.len() - j,
                {
                    out.push((more[j].0.clone(), more[j].1.duplicate()));
                    assert(out@ == before + more@.take(j + 1));
                    j = j + 1;
                }
                assert(more@.take(more.len() as int) == more@);
                proof {
                    lemma_members_model_concat(before, more@);
                }
            },
            None => {},
        }
        i = i + 1;
    }
    assert(scope@.take(scope.len() as int) == scope@);
    out
}

/// A field holding a string, when `b` holds.
fn optional_text(b: bool, key: &str, value: &str) -> (r: Vec<(String, OutputValue)>)
    ensures
        fields_model(r@) == when(b, text_field(key@, value@)),
{
    let mut out: Vec<(String, OutputValue)> = Vec::new();
    if b {
        out.push(text_output(key, String::from_str(value)));
        proof {
            lemma_fields_model_push(Seq::empty(), out@.last());
        }
    }
    out
}

/// Moves the fields of `more` to the end of `out`.
fn append_outputs(out: &mut Vec<(String, OutputValue)>, more: Vec<(String, OutputValue)>)
    ensures
        fields_model(final(out)@) == fields_model(old(out)@) + fields_model(more@),
{
    let ghost a = out@;
    let ghost b = more@;
    let mut more = more;
    out.append(&mut more);
    assert(fields_model(out@) =~= fields_model(a) + fields_model(b));
}

/// Appends scalar members to `out` as output fields.
fn push_scalar_outputs(out: &mut Vec<(String, OutputValue)>, members: &Vec<(String, RecordedValue)>)
    ensures
        fields_model(final(out)@) == fields_model(old(out)@) + scalar_fields(members_model(members@)),
{
    let ghost first = fields_model(out@);
    let mut i: usize = 0;
    while i < members.len()
        invariant
            i <= members.len(),
            fields_model(out@) == first + scalar_fields(members_model(members@.take(i as int))),
        decreases members.len() - i,
    {
        let ghost before = out@;
        out.push((members[i].0.clone(), OutputValue::Value(members[i].1.duplicate())));
        proof {
            lemma_fields_model_push(before, out@.last());
            assert(scalar_fields(members_model(members@.take(i + 1))) =~= scalar_fields(
                members_model(members@.take(i as int)),
            ).push((members@[i as int].0@, JsonField::Scalar(members@[i as int].1.scalar()))));
        }
        i = i + 1;
    }
    assert(members@.take(members.len() as int) == members@);
}

/// Pairs of strings as output fields.
fn string_outputs(pairs: &Vec<(String, String)>) -> (r: Vec<(String, OutputValue)>)
    ensures
        fields_model(r@) == string_fields(pairs@),
{
    let mut out: Vec<(String, OutputValue)> = Vec::new();
    let mut i: usize = 0;
    while i < pairs.len()
        invariant
            i <= pairs.len(),
            fields_model(out@) == string_fields(pairs@.take(i as int)),
        decreases pairs.len() - i,
    {
        let ghost before = out@;
        out.push((pairs[i].0.clone(), OutputValue::Value(RecordedValue::String(pairs[i].1.clone()))));
        proof {
            lemma_fields_model_push(before, out@.last());
            assert(string_fields(pairs@.take(i + 1)) =~= string_fields(pairs@.take(i as int)).push(
                text_field(pairs@[i as int].0@, pairs@[i as int].1@),
            ));
        }
        i = i + 1;
    }
    assert(pairs@.take(pairs.len() as int) == pairs@);
    out
}

/// Writes every field of `items`, in order, unless its key was written
/// before.
fn write_all(
    w: &mut FieldWriter<OutputValue>,
    items: Vec<(String, OutputValue)>,
    Ghost(cands): Ghost<Seq<(Seq<char>, OutputValue)>>,
)
    requires
        old(w).writes(Seq::empty(), cands),
    ensures
        final(w).writes(Seq::empty(), cands + keyed(items@)),
{
    let ghost all = items@;
    let mut items = items;
    let ghost mut done: Seq<(Seq<char>, OutputValue)> = cands;
    let mut i: usize = 0;
    assert(all.len() == items.len());
    while items.len() > 0
        invariant
            w.writes(Seq::empty(), done),
            i + items.len() == all.len(),
            all.len() <= usize::MAX,
            items@ == all.subrange(i as int, all.len() as int),
            done == cands + keyed(all.take(i as int)),
        decreases items.len(),
    {
        let (key, value) = items.remove(0);
        proof {
            assert(all[i as int] == (key, value));
        }
        let ghost k = key@;
        w.add(key, value, Ghost(Seq::empty()), Ghost(done));
        proof {
            assert(keyed(all.take(i + 1)) =~= keyed(all.take(i as int)).push((k, value)));
            assert(cands + keyed(all.take(i + 1)) =~= done.push((k, value)));
            done = done.push((k, value));
            assert(items@ =~= all.subrange(i + 1, all.len() as int));
        }
        i = i + 1;
    }
    assert(all.take(i as int) == all);
}

impl LogstashFormat {
    fn logger_name(&self, event: &Metadata, scope: &Vec<SpanFrame>, l: LoggerName) -> (r: String)
        ensures
            r@ == self.logger_name_text(*event, scope@, l),
    {
        match l {
            LoggerName::Event => event.target.clone(),
            LoggerName::Span => {
                if scope.len() > 0 {
                    let mut s = scope[0].metadata.target.clone();
                    s.append("::");
                    s.append(scope[0].metadata.name.as_str());
                    s
                } else {
                    event.target.clone()
                }
            },
        }
    }

    /// The fixed metadata fields.
    fn fixed_outputs(
        &self,
        event: &Metadata,
        scope: &Vec<SpanFrame>,
        timestamp: &String,
        thread_name: &Option<String>,
    ) -> (r: Vec<(String, OutputValue)>)
        ensures
            fields_model(r@) == self.fixed_fields(*event, scope@, timestamp@, *thread_name),
    {
        let mut out = optional_text(self.display_version, "@version", "1");
        let ts = optional_text(self.display_timestamp, "@timestamp", timestamp.as_str());
        append_outputs(&mut out, ts);
        let thread = match thread_name {
            Some(name) => optional_text(self.display_thread_name, "thread_name", name.as_str()),
            None => Vec::new(),
        };
        append_outputs(&mut out, thread);
        let logger = match self.display_logger_name {
            Some(l) => {
                let name = self.logger_name(event, scope, l);
                optional_text(true, "logger_name", name.as_str())
            },
            None => Vec::new(),
        };
        append_outputs(&mut out, logger);
        let level = optional_text(self.display_level, "level", event.level.as_str());
        append_outputs(&mut out, level);
        let mut value: Vec<(String, OutputValue)> = Vec::new();
        if self.display_level_value {
            value.push(
                (
                    String::from_str("level_value"),
                    OutputValue::Value(RecordedValue::U64(level_value(&event.level))),
                ),
            );
            proof {
                lemma_fields_model_push(Seq::empty(), value@.last());
            }
        }
        append_outputs(&mut out, value);
        out
    }

    /// The stack trace field, if it is written.
    fn stack_trace_outputs(&self, event: &Metadata, scope: &Vec<SpanFrame>) -> (r: Vec<
        (String, OutputValue),
    >)
        ensures
            fields_model(r@) == self.stack_trace_fields(*event, scope@),
    {
        let mut out: Vec<(String, OutputValue)> = Vec::new();
        if let Some((event_filter, span_filter)) = self.display_stack_trace {
            if event_filter.is_enabled(event.level, event.level) {
                out.push(text_output("stack_trace", stack_trace(event, scope, span_filter)));
                proof {
                    lemma_fields_model_push(Seq::empty(), out@.last());
                }
            }
        }
        out
    }

    /// The objects of the span list, from the root span to the innermost.
    fn span_list_objects(
        &self,
        scope: &Vec<SpanFrame>,
        store: &SpanStore,
        filter: DisplayLevelFilter,
        event_level: Level,
    ) -> (r: Vec<Vec<(String, RecordedValue)>>)
        requires
            store.wf(),
        ensures
            r@.map_values(|o: Vec<(String, RecordedValue)>| members_model(o@)) == self.span_list(
                root_first(scope@),
                *store,
                filter,
                event_level,
            ),
    {
        let n = scope.len();
        let ghost frames = root_first(scope@);
        let mut out: Vec<Vec<(String, RecordedValue)>> = Vec::new();
        let mut i: usize = 0;
        while i < n
            invariant
                i <= n,
                n == scope.len(),
                store.wf(),
                frames == root_first(scope@),
                out@.map_values(|o: Vec<(String, RecordedValue)>| members_model(o@))
                    == self.span_list(frames.take(i as int), *store, filter, event_level),
            decreases n - i,
        {
            let frame = &scope[n - 1 - i];
            assert(frames.take(i + 1).drop_last() == frames.take(i as int));
            assert(frames.take(i + 1).last() == *frame);
            if filter.is_enabled(event_level, frame.metadata.level) {
                let rec = store.get(frame.id);
                let object = self.span_format.format_span(frame, rec);
                let ghost before = out@;
                out.push(object);
                assert(out@.map_values(|o: Vec<(String, RecordedValue)>| members_model(o@))
                    =~= before.map_values(
                    |o: Vec<(String, RecordedValue)>| members_model(o@),
                ).push(members_model(object@)));
            }
            i = i + 1;
        }
        assert(frames.take(n as int) == frames);
        out
    }

    /// The span list field, if it is written.
    fn span_list_outputs(&self, event: &Metadata, scope: &Vec<SpanFrame>, store: &SpanStore) -> (r: Vec<
        (String, OutputValue),
    >)
        requires
            store.wf(),
        ensures
            fields_model(r@) == self.span_list_fields(*event, scope@, *store),
    {
        let mut out: Vec<(String, OutputValue)> = Vec::new();
        if let Some(filter) = self.display_span_list {
            let objects = self.span_list_objects(scope, store, filter, event.level);
            out.push((String::from_str("spans"), OutputValue::Spans(objects)));
            proof {
                lemma_fields_model_push(Seq::empty(), out@.last());
            }
        }
        out
    }

    /// The event's own fields.
    fn own_outputs(&self, event: &EventRecord) -> (r: Vec<(String, OutputValue)>)
        ensures
            fields_model(r@) == self.own_fields(*event),
    {
        let mut out: Vec<(String, OutputValue)> = Vec::new();
        if let Some(message) = &event.message {
            out.push(text_output("message", message.clone()));
            proof {
                lemma_fields_model_push(Seq::empty(), out@.last());
            }
        }
        let entries = recorded_entries(&event.fields.config.event_field_names, &event.fields.fields);
        push_scalar_outputs(&mut out, &entries);
        out
    }
}

proof fn lemma_model_append(c: Seq<(Seq<char>, OutputValue)>, p: Seq<(String, OutputValue)>)
    ensures
        (c + keyed(p)).map_values(|m: (Seq<char>, OutputValue)| (m.0, m.1.model())) == c.map_values(
            |m: (Seq<char>, OutputValue)| (m.0, m.1.model()),
        ) + fields_model(p),
{
    assert((c + keyed(p)).map_values(|m: (Seq<char>, OutputValue)| (m.0, m.1.model())) =~= c.map_values(
        |m: (Seq<char>, OutputValue)| (m.0, m.1.model()),
    ) + fields_model(p));
}

impl LogstashFormat {
    /// The fields written for an event, in order: every field offered by
    /// the fixed metadata, the stack trace, the constants, the dynamic
    /// fields, the span list, the event's own fields and the enclosing
    /// spans' fields, each key kept from its first writer only.
    pub fn event_fields(
        &self,
        event: &EventRecord,
        scope: &Vec<SpanFrame>,
        store: &SpanStore,
        timestamp: &String,
        thread_name: &Option<String>,
        dynamics: &Vec<(String, String)>,
    ) -> (r: Vec<(String, OutputValue)>)
        requires
            store.wf(),
        ensures
            fields_model(r@) == self.event_fields_spec(
                *event,
                scope@,
                *store,
                timestamp@,
                *thread_name,
                dynamics@,
            ),
    {
        let ghost g = |m: (Seq<char>, OutputValue)| (m.0, m.1.model());
        let mut w: FieldWriter<OutputValue> = FieldWriter::new(Vec::new());
        assert(Seq::<String>::empty().map_values(|s: String| s@) == Seq::<Seq<char>>::empty());
        let ghost mut cands: Seq<(Seq<char>, OutputValue)> = Seq::empty();
        assert(cands.map_values(g) == Seq::<Field>::empty());

        let part = self.fixed_outputs(&event.metadata, scope, timestamp, thread_name);
        let ghost p = part@;
        write_all(&mut w, part, Ghost(cands));
        proof {
            lemma_model_append(cands, p);
            cands = cands + keyed(p);
        }
        let part = self.stack_trace_outputs(&event.metadata, scope);
        let ghost p = part@;
        write_all(&mut w, part, Ghost(cands));
        proof {
            lemma_model_append(cands, p);
            cands = cands + keyed(p);
        }
        let part = string_outputs(&self.constants);
        let ghost p = part@;
        write_all(&mut w, part, Ghost(cands));
        proof {
            lemma_model_append(cands, p);
            cands = cands + keyed(p);
        }
        let part = string_outputs(dynamics);
        let ghost p = part@;
        write_all(&mut w, part, Ghost(cands));
        proof {
            lemma_model_append(cands, p);
            cands = cands + keyed(p);
        }
        let part = self.span_list_outputs(&event.metadata, scope, store);
        let ghost p = part@;
        write_all(&mut w, part, Ghost(cands));
        proof {
            lemma_model_append(cands, p);
            cands = cands + keyed(p);
        }
        let part = self.own_outputs(event);
        let ghost p = part@;
        write_all(&mut w, part, Ghost(cands));
        proof {
            lemma_model_append(cands, p);
            cands = cands + keyed(p);
        }
        let members = scope_entries(scope, store);
        let mut part: Vec<(String, OutputValue)> = Vec::new();
        push_scalar_outputs(&mut part, &members);
        let ghost p = part@;
        write_all(&mut w, part, Ghost(cands));
        proof {
            lemma_model_append(cands, p);
            cands = cands + keyed(p);
            assert(cands.map_values(g) == self.candidates(
                *event,
                scope@,
                *store,
                timestamp@,
                *thread_name,
                dynamics@,
            ));
            lemma_first_wins_map(Seq::empty(), cands, |v: OutputValue| v.model());
            let f = |v: OutputValue| v.model();
            assert(cands.map_values(|m: (Seq<char>, OutputValue)| (m.0, f(m.1))) =~= cands.map_values(g));
            let fw = first_wins(Seq::empty(), cands);
            assert(fw.map_values(|m: (Seq<char>, OutputValue)| (m.0, f(m.1))) =~= fw.map_values(g));
            assert(fields_model(w.fields@) =~= keyed(w.fields@).map_values(g));
        }
        w.fields
    }
}

impl Default for LogstashFormat {
    /// Every fixed field shown, the logger name taken from the event, no
    /// stack trace, no span list, an empty catalog and no constants.
    fn default() -> (r: LogstashFormat)
        ensures
            r.wf(),
            r.display_version,
            r.display_timestamp,
            r.display_logger_name == Some(LoggerName::Event),
            r.display_thread_name,
            r.display_level,
            r.display_level_value,
            r.display_span_list is None,
            r.display_stack_trace is None,
            !r.span_format.display_location,
            !r.span_format.display_fields,
            r.span_fields.span_slots() == Seq::<crate::fields::Slot>::empty(),
            r.span_fields.event_slots() == Seq::<crate::fields::Slot>::empty(),
            r.constants@ == Seq::<(String, String)>::empty(),
    {
        LogstashFormat {
            display_version: true,
            display_timestamp: true,
            display_logger_name: Some(LoggerName::Event),
            display_thread_name: true,
            display_level: true,
            display_level_value: true,
            display_span_list: None,
            display_stack_trace: None,
            span_format: DefaultSpanFormat::default(),
            span_fields: Arc::new(FieldConfig::default()),
            constants: Vec::new(),
        }
    }
}

impl LogstashFormat {
    pub fn with_timestamp(self, display_timestamp: bool) -> (r: LogstashFormat)
        ensures
            r == (LogstashFormat { display_timestamp, ..self }),
    {
        LogstashFormat { display_timestamp, ..self }
    }

    pub fn with_version(self, display_version: bool) -> (r: LogstashFormat)
        ensures
            r == (LogstashFormat { display_version, ..self }),
    {
        LogstashFormat { display_version, ..self }
    }

    pub fn with_logger_name(self, display_logger_name: Option<LoggerName>) -> (r: LogstashFormat)
        ensures
            r == (LogstashFormat { display_logger_name, ..self }),
    {
        LogstashFormat { display_logger_name, ..self }
    }

    pub fn with_thread_name(self, display_thread_name: bool) -> (r: LogstashFormat)
        ensures
            r == (LogstashFormat { display_thread_name, ..self }),
    {
        LogstashFormat { display_thread_name, ..self }
    }

    pub fn with_level(self, display_level: bool) -> (r: LogstashFormat)
        ensures
            r == (LogstashFormat { display_level, ..self }),
    {
        LogstashFormat { display_level, ..self }
    }

    pub fn with_level_value(self, display_level_value: bool) -> (r: LogstashFormat)
        ensures
            r == (LogstashFormat { display_level_value, ..self }),
    {
        LogstashFormat { display_level_value, ..self }
    }

    pub fn with_span_list(self, display_span_list: Option<DisplayLevelFilter>) -> (r: LogstashFormat)
        ensures
            r == (LogstashFormat { display_span_list, ..self }),
    {
        LogstashFormat { display_span_list, ..self }
    }

    pub fn with_stack_trace(
        self,
        display_stack_trace: Option<(DisplayLevelFilter, DisplayLevelFilter)>,
    ) -> (r: LogstashFormat)
        ensures
            r == (LogstashFormat { display_stack_trace, ..self }),
    {
        LogstashFormat { display_stack_trace, ..self }
    }

    /// Replaces the field catalog with one built from `span_fields`.
    pub fn with_span_fields(self, span_fields: Vec<FieldSpec>) -> (r: LogstashFormat)
        ensures
            r.wf(),
            r.span_fields.span_slots() == crate::fields::catalog_slots(span_fields@, true),
            r.span_fields.event_slots() == crate::fields::catalog_slots(span_fields@, false),
            r == (LogstashFormat { span_fields: r.span_fields, ..self }),
    {
        LogstashFormat { span_fields: Arc::new(FieldConfig::new(span_fields)), ..self }
    }

    /// Constant fields written on every event, in order.
    pub fn with_constants(self, constants: Vec<(String, String)>) -> (r: LogstashFormat)
        ensures
            r == (LogstashFormat { constants, ..self }),
    {
        LogstashFormat { constants, ..self }
    }

    pub fn span_format(self, span_format: DefaultSpanFormat) -> (r: LogstashFormat)
        ensures
            r == (LogstashFormat { span_format, ..self }),
    {
        LogstashFormat { span_format, ..self }
    }

    /// A fresh recorder for a new span, on this format's catalog.
    pub fn span_recorder(&self) -> (r: DefaultSpanRecorder)
        requires
            self.wf(),
        ensures
            r.wf(),
            *r.config == *self.span_fields,
            forall|i: int| 0 <= i < r.fields.len() ==> #[trigger] r.fields@[i] is Unset,
    {
        DefaultSpanRecorder::from_config(share_config(&self.span_fields))
    }

    /// A fresh recorder for an event, on this format's catalog.
    pub fn event_recorder(&self) -> (r: DefaultEventRecorder)
        requires
            self.wf(),
        ensures
            r.wf(),
            *r.config == *self.span_fields,
            forall|i: int| 0 <= i < r.fields.len() ==> #[trigger] r.fields@[i] is Unset,
    {
        DefaultEventRecorder::from_config(share_config(&self.span_fields))
    }
}

/// Why an event could not be formatted.
#[derive(Debug)]
pub enum FormatError {
    /// The JSON encoder refused a key or a value.
    Json(serde_json::Error),
    /// The timestamp could not be written in RFC 3339 form.
    Timestamp,
}

/// The RFC 3339 text, in UTC, of the instant `unix_nanos` nanoseconds after
/// the Unix epoch.
pub uninterp spec fn rfc3339_of(unix_nanos: int) -> Seq<char>;

/// Whether the instant falls in the years 0000 to 9999 (UTC), the years
/// that RFC 3339 can write.
pub open spec fn rfc3339_in_range(unix_nanos: int) -> bool {
    -62_167_219_200_000_000_000 <= unix_nanos < 253_402_300_800_000_000_000
}

/// Relies on `time::OffsetDateTime::from_unix_timestamp_nanos` and on its
/// `format` with the `Rfc3339` description: the RFC 3339 text of the
/// instant. The first fails only outside its range of seconds, which holds
/// the years 0000 to 9999; the second fails only for a year outside 0000
/// to 9999 or an offset that a UTC value does not have.
#[verifier::external_body]
fn rfc3339(unix_nanos: i128) -> (r: Option<String>)
    ensures
        rfc3339_in_range(unix_nanos as int) ==> r is Some,
        r matches Some(t) ==> t@ == rfc3339_of(unix_nanos as int),
{
    let t = time::OffsetDateTime::from_unix_timestamp_nanos(unix_nanos).ok()?;
    t.format(&time::format_description::well_known::Rfc3339).ok()
}

/// An instant, as nanoseconds since the Unix epoch (UTC).
#[derive(Clone, Copy, Debug, PartialEq, Eq, Structural)]
pub struct LogTimestamp {
    pub unix_nanos: i128,
}

impl LogTimestamp {
    pub fn from_unix_nanos(unix_nanos: i128) -> (r: LogTimestamp)
        ensures
            r.unix_nanos == unix_nanos,
    {
        LogTimestamp { unix_nanos }
    }

    /// The instant in RFC 3339 form.
    pub fn text(&self) -> (r: Result<String, FormatError>)
        ensures
            rfc3339_in_range(self.unix_nanos as int) ==> r is Ok,
            r matches Ok(t) ==> t@ == rfc3339_of(self.unix_nanos as int),
            r matches Err(e) ==> e is Timestamp,
    {
        match rfc3339(self.unix_nanos) {
            Some(t) => Ok(t),
            None => Err(FormatError::Timestamp),
        }
    }

    /// The instant as a JSON string in RFC 3339 form.
    pub fn to_json(&self) -> (r: Result<String, FormatError>)
        ensures
            rfc3339_in_range(self.unix_nanos as int) ==> r is Ok,
            r matches Ok(t) ==> t@ == json_quoted(rfc3339_of(self.unix_nanos as int)),
            r matches Err(e) ==> e is Timestamp,
    {
        let t = match self.text() {
            Ok(t) => t,
            Err(e) => return Err(e),
        };
        match quote(t.as_str()) {
            Ok(q) => Ok(q),
            Err(e) => Err(FormatError::Json(e)),
        }
    }
}

impl LogstashFormat {
    /// Formats one event as a JSON object: the fields of `event_fields`,
    /// with the timestamp taken from `now`.
    pub fn format_event(
        &self,
        event: &EventRecord,
        scope: &Vec<SpanFrame>,
        store: &SpanStore,
        now: &LogTimestamp,
        thread_name: &Option<String>,
        dynamics: &Vec<(String, String)>,
    ) -> (r: Result<String, FormatError>)
        requires
            store.wf(),
        ensures
            r matches Ok(line) ==> line@ == record_text(
                self.event_fields_spec(
                    *event,
                    scope@,
                    *store,
                    rfc3339_of(now.unix_nanos as int),
                    *thread_name,
                    dynamics@,
                ),
            ),
            !self.display_timestamp || rfc3339_in_range(now.unix_nanos as int) ==> r is Ok,
            r matches Err(e) ==> e is Timestamp && self.display_timestamp,
    {
        let timestamp = if self.display_timestamp {
            match now.text() {
                Ok(t) => t,
                Err(e) => return Err(e),
            }
        } else {
            String::new()
        };
        let fields = self.event_fields(event, scope, store, &timestamp, thread_name, dynamics);
        proof {
            if !self.display_timestamp {
                assert(self.event_fields_spec(*event, scope@, *store, timestamp@, *thread_name, dynamics@)
                    == self.event_fields_spec(
                    *event,
                    scope@,
                    *store,
                    rfc3339_of(now.unix_nanos as int),
                    *thread_name,
                    dynamics@,
                ));
            }
        }
        match render_record(&fields) {
            Ok(line) => Ok(line),
            Err(e) => Err(FormatError::Json(e)),
        }
    }
}

/// First write wins across the whole record: when `i` is the first
/// offered field with its key, in the fixed order of the sources, the
/// record holds that field, and no other value under its key.
pub proof fn law_event_first_write_wins(
    format: LogstashFormat,
    event: EventRecord,
    scope: Seq<SpanFrame>,
    store: SpanStore,
    timestamp: Seq<char>,
    thread_name: Option<String>,
    dynamics: Seq<(String, String)>,
    i: int,
)
    requires
        ({
            let c = format.candidates(event, scope, store, timestamp, thread_name, dynamics);
            &&& 0 <= i < c.len()
            &&& forall|j: int| 0 <= j < i ==> #[trigger] c[j].0 != c[i].0
        }),
    ensures
        ({
            let c = format.candidates(event, scope, store, timestamp, thread_name, dynamics);
            let out = format.event_fields_spec(event, scope, store, timestamp, thread_name, dynamics);
            &&& out.contains(c[i])
            &&& forall|q: int| 0 <= q < out.len() && #[trigger] out[q].0 == c[i].0 ==> out[q] == c[i]
        }),
{
    let c = format.candidates(event, scope, store, timestamp, thread_name, dynamics);
    law_first_write_wins(Seq::empty(), c, i);
}

/// A record holds only keys that some source offered: a field name that
/// no catalog slot, constant, dynamic field or fixed field carries is never
/// written.
pub proof fn law_event_writes_only_offered_keys(
    format: LogstashFormat,
    event: EventRecord,
    scope: Seq<SpanFrame>,
    store: SpanStore,
    timestamp: Seq<char>,
    thread_name: Option<String>,
    dynamics: Seq<(String, String)>,
    k: Seq<char>,
)
    requires
        has_key(format.event_fields_spec(event, scope, store, timestamp, thread_name, dynamics), k),
    ensures
        has_key(format.candidates(event, scope, store, timestamp, thread_name, dynamics), k),
{
    let c = format.candidates(event, scope, store, timestamp, thread_name, dynamics);
    lemma_first_wins_keys(Seq::empty(), c, k);
}

/// Whether every slot that a recorder would write under `k` is unset.
pub open spec fn unset_under(names: Seq<String>, values: Seq<RecordedValue>, k: Seq<char>) -> bool {
    forall|j: int|
        0 <= j < values.len() && j < names.len() && #[trigger] names[j]@ == k ==> values[j] is Unset
}

proof fn lemma_scope_unset(scope: Seq<SpanFrame>, store: SpanStore, k: Seq<char>)
    requires
        forall|i: int|
            0 <= i < scope.len() ==> (#[trigger] store.recorder(scope[i].id) matches Some(r)
                ==> unset_under(r.config.span_field_names@, r.fields@, k)),
    ensures
        !has_key(scope_members(scope, store), k),
    decreases scope.len(),
{
    if scope.len() > 0 {
        let d = scope.drop_last();
        assert forall|i: int| 0 <= i < d.len() implies (#[trigger] store.recorder(d[i].id) matches Some(r)
            ==> unset_under(r.config.span_field_names@, r.fields@, k)) by {
            assert(d[i] == scope[i]);
        }
        lemma_scope_unset(d, store, k);
        let last = match store.recorder(scope.last().id) {
            Some(r) => recorded_members(r.config.span_field_names@, r.fields@),
            None => Seq::empty(),
        };
        if let Some(r) = store.recorder(scope.last().id) {
            assert(store.recorder(scope[scope.len() - 1].id) == Some(r));
            law_unset_not_written(r.config.span_field_names@, r.fields@, k);
        }
        let m = scope_members(scope, store);
        if has_key(m, k) {
            let q = choose|q: int| 0 <= q < m.len() && #[trigger] m[q].0 == k;
            let n = scope_members(d, store).len();
            if q < n {
                assert(scope_members(d, store)[q].0 == k);
            } else {
                assert(last[q - n].0 == k);
            }
        }
    }
}

proof fn lemma_lifted_keys(ms: Seq<(Seq<char>, Scalar)>, k: Seq<char>)
    requires
        !has_key(ms, k),
    ensures
        !has_key(scalar_fields(ms), k),
{
    if has_key(scalar_fields(ms), k) {
        let q = choose|q: int| 0 <= q < ms.len() && #[trigger] scalar_fields(ms)[q].0 == k;
        assert(ms[q].0 == k);
    }
}

/// A slot that was never written does not show in the record: when every
/// recorder slot, of the event and of its enclosing spans, that would
/// write under `k` is unset, and no other source offers `k`, the record has
/// no field `k`.
pub proof fn law_event_unset_not_written(
    format: LogstashFormat,
    event: EventRecord,
    scope: Seq<SpanFrame>,
    store: SpanStore,
    timestamp: Seq<char>,
    thread_name: Option<String>,
    dynamics: Seq<(String, String)>,
    k: Seq<char>,
)
    requires
        !has_key(
            format.fixed_fields(event.metadata, scope, timestamp, thread_name)
                + format.stack_trace_fields(event.metadata, scope) + string_fields(
                format.constants@,
            ) + string_fields(dynamics) + format.span_list_fields(event.metadata, scope, store),
            k,
        ),
        event.message is Some ==> k != "message"@,
        unset_under(event.fields.config.event_field_names@, event.fields.fields@, k),
        forall|i: int|
            0 <= i < scope.len() ==> (#[trigger] store.recorder(scope[i].id) matches Some(r)
                ==> unset_under(r.config.span_field_names@, r.fields@, k)),
    ensures
        !has_key(format.event_fields_spec(event, scope, store, timestamp, thread_name, dynamics), k),
{
    let c = format.candidates(event, scope, store, timestamp, thread_name, dynamics);
    let before = format.fixed_fields(event.metadata, scope, timestamp, thread_name)
        + format.stack_trace_fields(event.metadata, scope) + string_fields(format.constants@)
        + string_fields(dynamics) + format.span_list_fields(event.metadata, scope, store);
    let msg = when(event.message is Some, text_field("message"@, event.message->0@));
    let own = recorded_members(event.fields.config.event_field_names@, event.fields.fields@);
    let sm = scope_members(scope, store);
    law_unset_not_written(event.fields.config.event_field_names@, event.fields.fields@, k);
    lemma_lifted_keys(own, k);
    lemma_scope_unset(scope, store, k);
    lemma_lifted_keys(sm, k);
    assert(c == before + msg + scalar_fields(own) + scalar_fields(sm));
    if has_key(c, k) {
        let q = choose|q: int| 0 <= q < c.len() && #[trigger] c[q].0 == k;
        let n1 = before.len() as int;
        let n2 = n1 + msg.len();
        let n3 = n2 + own.len();
        if q < n1 {
            assert(before[q].0 == k);
        } else if q < n2 {
            assert(msg[q - n1].0 == k);
        } else if q < n3 {
            assert(scalar_fields(own)[q - n2].0 == k);
        } else {
            assert(scalar_fields(sm)[q - n3].0 == k);
        }
    }
    if has_key(format.event_fields_spec(event, scope, store, timestamp, thread_name, dynamics), k) {
        lemma_first_wins_keys(Seq::empty(), c, k);
    }
}

/// A record never holds two fields under one key.
pub proof fn law_event_keys_unique(
    format: LogstashFormat,
    event: EventRecord,
    scope: Seq<SpanFrame>,
    store: SpanStore,
    timestamp: Seq<char>,
    thread_name: Option<String>,
    dynamics: Seq<(String, String)>,
)
    ensures
        ({
            let out = format.event_fields_spec(event, scope, store, timestamp, thread_name, dynamics);
            forall|p: int, q: int| 0 <= p < q < out.len() ==> #[trigger] out[p].0 != #[trigger] out[q].0
        }),
{
    let c = format.candidates(event, scope, store, timestamp, thread_name, dynamics);
    lemma_first_wins_unique(Seq::<Seq<char>>::empty(), c);
}

/// The keys of the fixed fields, the stack trace and the span list are
/// told apart from `level`, `level_value` and `message`.
proof fn lemma_reserved_keys_distinct()
    ensures
        "@version"@ != "level"@,
        "@timestamp"@ != "level"@,
        "thread_name"@ != "level"@,
        "logger_name"@ != "level"@,
        "@version"@ != "level_value"@,
        "@timestamp"@ != "level_value"@,
        "thread_name"@ != "level_value"@,
        "logger_name"@ != "level_value"@,
        "level"@ != "level_value"@,
        "@version"@ != "message"@,
        "@timestamp"@ != "message"@,
        "thread_name"@ != "message"@,
        "logger_name"@ != "message"@,
        "level"@ != "message"@,
        "level_value"@ != "message"@,
        "stack_trace"@ != "message"@,
        "spans"@ != "message"@,
{
    reveal_strlit("level");
    reveal_strlit("level_value");
    reveal_strlit("message");
    reveal_strlit("@version");
    reveal_strlit("@timestamp");
    reveal_strlit("thread_name");
    reveal_strlit("logger_name");
    reveal_strlit("stack_trace");
    reveal_strlit("spans");
    assert("level"@.len() == 5);
    assert("level_value"@.len() == 11);
    assert("message"@.len() == 7);
    assert("@version"@.len() == 8);
    assert("@timestamp"@.len() == 10);
    assert("thread_name"@.len() == 11);
    assert("logger_name"@.len() == 11);
    assert("stack_trace"@.len() == 11);
    assert("spans"@.len() == 5);
    assert("thread_name"@[0] != "level_value"@[0]);
    assert("logger_name"@[1] != "level_value"@[1]);
}

/// When the event filter of the stack trace rejects the event's own level,
/// no stack trace is offered, whatever the span filter and the enclosing
/// spans; and the record has no `stack_trace` field unless a constant, a
/// dynamic field or a recorded field carries that name.
pub proof fn law_stack_trace_absent_when_event_rejected(
    format: LogstashFormat,
    event: EventRecord,
    scope: Seq<SpanFrame>,
    store: SpanStore,
    timestamp: Seq<char>,
    thread_name: Option<String>,
    dynamics: Seq<(String, String)>,
)
    requires
        format.display_stack_trace matches Some((event_filter, _)) && !event_filter.enabled(
            event.metadata.level,
            event.metadata.level,
        ),
    ensures
        format.stack_trace_fields(event.metadata, scope) == Seq::<Field>::empty(),
        !has_key(
            string_fields(format.constants@) + string_fields(dynamics) + format.own_fields(event)
                + scalar_fields(scope_members(scope, store)),
            "stack_trace"@,
        ) ==> !has_key(
            format.event_fields_spec(event, scope, store, timestamp, thread_name, dynamics),
            "stack_trace"@,
        ),
{
    let k = "stack_trace"@;
    let md = event.metadata;
    let c = format.candidates(event, scope, store, timestamp, thread_name, dynamics);
    let fixed = format.fixed_fields(md, scope, timestamp, thread_name);
    let rest = string_fields(format.constants@) + string_fields(dynamics) + format.own_fields(event)
        + scalar_fields(scope_members(scope, store));
    let sl = format.span_list_fields(md, scope, store);
    if !has_key(rest, k) {
        lemma_stack_trace_key_distinct();
        let bl = fields_before_level(format, md, scope, timestamp, thread_name);
        lemma_before_level_keys(format, md, scope, timestamp, thread_name);
        let lv = when(format.display_level, text_field("level"@, md.level.name()));
        let vv = when(
            format.display_level_value,
            ("level_value"@, JsonField::Scalar(Scalar::Int(md.level.numeric() as int))),
        );
        assert(fixed == bl + lv + vv);
        let cs = string_fields(format.constants@);
        let ds = string_fields(dynamics);
        let own = format.own_fields(event);
        let sm = scalar_fields(scope_members(scope, store));
        assert(c == fixed + cs + ds + sl + own + sm);
        if has_key(c, k) {
            let q = choose|q: int| 0 <= q < c.len() && #[trigger] c[q].0 == k;
            let n1 = fixed.len() as int;
            let n2 = n1 + cs.len() + ds.len();
            let n3 = n2 + sl.len();
            if q < n1 {
                if q < bl.len() {
                    assert(fixed[q] == bl[q]);
                } else if q < bl.len() + lv.len() {
                    assert(fixed[q] == lv[q - bl.len()]);
                } else {
                    assert(fixed[q] == vv[q - bl.len() - lv.len()]);
                }
            } else if q < n2 {
                assert(rest[q - n1].0 == k);
            } else if q < n3 {
                assert(sl[q - n2].0 == "spans"@);
            } else {
                assert(rest[q - n3 + cs.len() + ds.len()].0 == k);
            }
        }
        if has_key(format.event_fields_spec(event, scope, store, timestamp, thread_name, dynamics), k) {
            lemma_first_wins_keys(Seq::empty(), c, k);
        }
    }
}

proof fn lemma_stack_trace_key_distinct()
    ensures
        "level"@ != "stack_trace"@,
        "level_value"@ != "stack_trace"@,
        "spans"@ != "stack_trace"@,
        "@version"@ != "stack_trace"@,
        "@timestamp"@ != "stack_trace"@,
        "thread_name"@ != "stack_trace"@,
        "logger_name"@ != "stack_trace"@,
{
    reveal_strlit("level");
    reveal_strlit("level_value");
    reveal_strlit("spans");
    reveal_strlit("@version");
    reveal_strlit("@timestamp");
    reveal_strlit("thread_name");
    reveal_strlit("logger_name");
    reveal_strlit("stack_trace");
    assert("level"@.len() == 5);
    assert("spans"@.len() == 5);
    assert("@version"@.len() == 8);
    assert("@timestamp"@.len() == 10);
    assert("stack_trace"@.len() == 11);
    assert("level_value"@[0] != "stack_trace"@[0]);
    assert("thread_name"@[0] != "stack_trace"@[0]);
    assert("logger_name"@[0] != "stack_trace"@[0]);
}

/// The fixed fields that precede `level`.
pub open spec fn fields_before_level(
    format: LogstashFormat,
    event: Metadata,
    scope: Seq<SpanFrame>,
    timestamp: Seq<char>,
    thread_name: Option<String>,
) -> Seq<Field> {
    when(format.display_version, text_field("@version"@, "1"@)) + when(
        format.display_timestamp,
        text_field("@timestamp"@, timestamp),
    ) + when(
        format.display_thread_name && thread_name is Some,
        text_field("thread_name"@, thread_name->0@),
    ) + match format.display_logger_name {
        Some(l) => seq![text_field("logger_name"@, format.logger_name_text(event, scope, l))],
        None => Seq::<Field>::empty(),
    }
}

proof fn lemma_before_level_keys(
    format: LogstashFormat,
    event: Metadata,
    scope: Seq<SpanFrame>,
    timestamp: Seq<char>,
    thread_name: Option<String>,
)
    ensures
        ({
            let b = fields_before_level(format, event, scope, timestamp, thread_name);
            forall|j: int|
                0 <= j < b.len() ==> #[trigger] b[j].0 != "level"@ && b[j].0 != "level_value"@
                    && b[j].0 != "message"@
        }),
{
    lemma_reserved_keys_distinct();
    let b = fields_before_level(format, event, scope, timestamp, thread_name);
    let b1 = when(format.display_version, text_field("@version"@, "1"@));
    let b2 = b1 + when(format.display_timestamp, text_field("@timestamp"@, timestamp));
    let b3 = b2 + when(
        format.display_thread_name && thread_name is Some,
        text_field("thread_name"@, thread_name->0@),
    );
    assert forall|j: int| 0 <= j < b.len() implies #[trigger] b[j].0 != "level"@ && b[j].0
        != "level_value"@ && b[j].0 != "message"@ by {
        if j < b1.len() {
            assert(b[j] == b1[j]);
        } else if j < b2.len() {
            assert(b[j] == b2[j]);
        } else if j < b3.len() {
            assert(b[j] == b3[j]);
        }
    }
}

/// The record reports the event's level by name and by number when they
/// are displayed.
pub proof fn law_event_reports_level(
    format: LogstashFormat,
    event: EventRecord,
    scope: Seq<SpanFrame>,
    store: SpanStore,
    timestamp: Seq<char>,
    thread_name: Option<String>,
    dynamics: Seq<(String, String)>,
)
    ensures
        ({
            let out = format.event_fields_spec(event, scope, store, timestamp, thread_name, dynamics);
            &&& format.display_level ==> out.contains(
                text_field("level"@, event.metadata.level.name()),
            )
            &&& format.display_level_value ==> out.contains(
                (
                    "level_value"@,
                    JsonField::Scalar(Scalar::Int(event.metadata.level.numeric() as int)),
                ),
            )
        }),
{
    lemma_reserved_keys_distinct();
    let md = event.metadata;
    let c = format.candidates(event, scope, store, timestamp, thread_name, dynamics);
    let fixed = format.fixed_fields(md, scope, timestamp, thread_name);
    let bl = fields_before_level(format, md, scope, timestamp, thread_name);
    lemma_before_level_keys(format, md, scope, timestamp, thread_name);
    let lv = when(format.display_level, text_field("level"@, md.level.name()));
    let vv = when(
        format.display_level_value,
        ("level_value"@, JsonField::Scalar(Scalar::Int(md.level.numeric() as int))),
    );
    assert(fixed == bl + lv + vv);
    assert(c == fixed + (c.subrange(fixed.len() as int, c.len() as int)));
    if format.display_level {
        let i = bl.len() as int;
        assert(c[i] == fixed[i]);
        assert forall|j: int| 0 <= j < i implies #[trigger] c[j].0 != c[i].0 by {
            assert(c[j] == bl[j]);
        }
        law_first_write_wins(Seq::empty(), c, i);
    }
    if format.display_level_value {
        let i = (bl.len() + lv.len()) as int;
        assert(c[i] == fixed[i]);
        assert forall|j: int| 0 <= j < i implies #[trigger] c[j].0 != c[i].0 by {
            assert(c[j] == fixed[j]);
            if j >= bl.len() {
                assert(fixed[j] == lv[j - bl.len()]);
            } else {
                assert(fixed[j] == bl[j]);
            }
        }
        law_first_write_wins(Seq::empty(), c, i);
    }
}

/// The record reports the event's message as given, when the event has one
/// and no constant or dynamic field takes the key `message` first.
pub proof fn law_event_reports_message(
    format: LogstashFormat,
    event: EventRecord,
    scope: Seq<SpanFrame>,
    store: SpanStore,
    timestamp: Seq<char>,
    thread_name: Option<String>,
    dynamics: Seq<(String, String)>,
)
    requires
        event.message is Some,
        forall|j: int| 0 <= j < format.constants.len() ==> #[trigger] format.constants@[j].0@ != "message"@,
        forall|j: int| 0 <= j < dynamics.len() ==> #[trigger] dynamics[j].0@ != "message"@,
    ensures
        format.event_fields_spec(event, scope, store, timestamp, thread_name, dynamics).contains(
            text_field("message"@, event.message->0@),
        ),
{
    lemma_reserved_keys_distinct();
    let md = event.metadata;
    let c = format.candidates(event, scope, store, timestamp, thread_name, dynamics);
    let fixed = format.fixed_fields(md, scope, timestamp, thread_name);
    let bl = fields_before_level(format, md, scope, timestamp, thread_name);
    lemma_before_level_keys(format, md, scope, timestamp, thread_name);
    let lv = when(format.display_level, text_field("level"@, md.level.name()));
    let vv = when(
        format.display_level_value,
        ("level_value"@, JsonField::Scalar(Scalar::Int(md.level.numeric() as int))),
    );
    assert(fixed == bl + lv + vv);
    let st = format.stack_trace_fields(md, scope);
    let cs = string_fields(format.constants@);
    let ds = string_fields(dynamics);
    let sl = format.span_list_fields(md, scope, store);
    let before = fixed + st + cs + ds + sl;
    let i = before.len() as int;
    assert(c == before + format.own_fields(event) + scalar_fields(scope_members(scope, store)));
    assert(c[i] == text_field("message"@, event.message->0@));
    assert forall|j: int| 0 <= j < i implies #[trigger] c[j].0 != c[i].0 by {
        assert(c[j] == before[j]);
        let n1 = fixed.len() as int;
        let n2 = n1 + st.len();
        let n3 = n2 + cs.len();
        let n4 = n3 + ds.len();
        if j < n1 {
            assert(before[j] == fixed[j]);
            if j < bl.len() {
                assert(fixed[j] == bl[j]);
            } else if j < bl.len() + lv.len() {
                assert(fixed[j] == lv[j - bl.len()]);
            } else {
                assert(fixed[j] == vv[j - bl.len() - lv.len()]);
            }
        } else if j < n2 {
            assert(before[j] == st[j - n1]);
        } else if j < n3 {
            assert(before[j] == cs[j - n2]);
        } else if j < n4 {
            assert(before[j] == ds[j - n3]);
        } else {
            assert(before[j] == sl[j - n4]);
        }
    }
    law_first_write_wins(Seq::empty(), c, i);
}

} // verus!
