use std::sync::Arc;
use vstd::prelude::*;
use vstd::string::*;

verus! {

/// Which recorders see a catalogued field.
#[derive(Clone, Copy, Debug, PartialEq, Eq, Structural)]
pub enum Visibility {
    /// Recorded on spans only.
    SpanOnly,
    /// Recorded on events only.
    EventOnly,
    /// Recorded on spans and on events.
    Both,
}

impl Visibility {
    pub open spec fn spec_records_span(self) -> bool {
        self is SpanOnly || self is Both
    }

    pub open spec fn spec_records_event(self) -> bool {
        self is EventOnly || self is Both
    }

    pub fn records_span(&self) -> (r: bool)
        ensures
            r == self.spec_records_span(),
    {
        match self {
            Visibility::SpanOnly => true,
            Visibility::EventOnly => false,
            Visibility::Both => true,
        }
    }

    pub fn records_event(&self) -> (r: bool)
        ensures
            r == self.spec_records_event(),
    {
        match self {
            Visibility::SpanOnly => false,
            Visibility::EventOnly => true,
            Visibility::Both => true,
        }
    }
}

/// One entry of the field catalog: the key written to the output, the name
/// of the recorded field it is taken from, and which recorders see it.
#[derive(Clone, Debug)]
pub struct FieldSpec {
    pub name: String,
    pub source: String,
    pub visibility: Visibility,
}

impl FieldSpec {
    /// A field recorded and written under the same name, on spans and events.
    pub fn new(name: &str) -> (r: FieldSpec)
        ensures
            r.name@ == name@,
            r.source@ == name@,
            r.visibility == Visibility::Both,
    {
        FieldSpec { name: String::from_str(name), source: String::from_str(name), visibility: Visibility::Both }
    }

    /// A field recorded under `source` and written under `name`, on spans
    /// and events.
    pub fn renamed(name: &str, source: &str) -> (r: FieldSpec)
        ensures
            r.name@ == name@,
            r.source@ == source@,
            r.visibility == Visibility::Both,
    {
        FieldSpec { name: String::from_str(name), source: String::from_str(source), visibility: Visibility::Both }
    }

    /// The same field with another visibility.
    pub fn with_visibility(self, visibility: Visibility) -> (r: FieldSpec)
        ensures
            r.name == self.name,
            r.source == self.source,
            r.visibility == visibility,
    {
        FieldSpec { visibility, ..self }
    }
}

/// A catalog slot: the output key and the recorded name it is taken from.
pub type Slot = (Seq<char>, Seq<char>);

/// Whether some pair in `pairs` has the key `key`.
pub open spec fn has_key<V>(pairs: Seq<(Seq<char>, V)>, key: Seq<char>) -> bool {
    exists|i: int| 0 <= i < pairs.len() && #[trigger] pairs[i].0 == key
}

/// The slots that `specs` give one namespace (spans when `span` holds,
/// events otherwise): the specs visible there, in order, each key taken by
/// its first spec only.
pub open spec fn catalog_slots(specs: Seq<FieldSpec>, span: bool) -> Seq<Slot>
    decreases specs.len(),
{
    if specs.len() == 0 {
        Seq::empty()
    } else {
        let prev = catalog_slots(specs.drop_last(), span);
        let s = specs.last();
        let visible = if span {
            s.visibility.spec_records_span()
        } else {
            s.visibility.spec_records_event()
        };
        if visible && !has_key(prev, s.name@) {
            prev.push((s.name@, s.source@))
        } else {
            prev
        }
    }
}

/// The slot that a value recorded under `name` goes to: the first slot
/// taken from that name.
pub open spec fn slot_of(slots: Seq<Slot>, name: Seq<char>) -> Option<int> {
    if exists|i: int| 0 <= i < slots.len() && #[trigger] slots[i].1 == name {
        Some(choose|i: int|
            0 <= i < slots.len() && slots[i].1 == name && forall|j: int|
                0 <= j < i ==> #[trigger] slots[j].1 != name)
    } else {
        None
    }
}

pub open spec fn slots_view(names: Seq<String>, sources: Seq<String>) -> Seq<Slot> {
    Seq::new(names.len(), |i: int| (names[i]@, sources[i]@))
}

/// The field catalog: for spans and for events, a dense slot per field.
pub struct FieldConfig {
    pub span_field_names: Vec<String>,
    pub span_field_sources: Vec<String>,
    pub event_field_names: Vec<String>,
    pub event_field_sources: Vec<String>,
}

impl FieldConfig {
    pub open spec fn wf(&self) -> bool {
        &&& self.span_field_names.len() == self.span_field_sources.len()
        &&& self.event_field_names.len() == self.event_field_sources.len()
    }

    pub open spec fn span_slots(&self) -> Seq<Slot> {
        slots_view(self.span_field_names@, self.span_field_sources@)
    }

    pub open spec fn event_slots(&self) -> Seq<Slot> {
        slots_view(self.event_field_names@, self.event_field_sources@)
    }

    /// Builds the catalog from `fields`, in order.
    pub fn new(fields: Vec<FieldSpec>) -> (r: FieldConfig)
        ensures
            r.wf(),
            r.span_slots() == catalog_slots(fields@, true),
            r.event_slots() == catalog_slots(fields@, false),
    {
        let (span_field_names, span_field_sources) = partition(&fields, true);
        let (event_field_names, event_field_sources) = partition(&fields, false);
        FieldConfig { span_field_names, span_field_sources, event_field_names, event_field_sources }
    }

    /// The span slot of the field recorded under `name`, if any.
    pub fn field_index(&self, name: &str) -> (r: Option<usize>)
        requires
            self.wf(),
        ensures
            r matches Some(i) ==> i < self.span_field_names.len() && slot_of(self.span_slots(), name@)
                == Some(i as int),
            r is None ==> slot_of(self.span_slots(), name@) is None,
    {
        let r = find_source(&self.span_field_sources, name);
        proof {
            let slots = self.span_slots();
            match r {
                Some(k) => {
                    assert forall|j: int| 0 <= j < k implies #[trigger] slots[j].1 != name@ by {
                        assert(self.span_field_sources@[j]@ != name@);
                    }
                    lemma_first_slot(slots, name@, k as int);
                },
                None => {
                    assert forall|j: int| 0 <= j < slots.len() implies #[trigger] slots[j].1 != name@ by {
                        assert(self.span_field_sources@[j]@ != name@);
                    }
                },
            }
        }
        r
    }

    /// The event slot of the field recorded under `name`, if any.
    pub fn event_field_index(&self, name: &str) -> (r: Option<usize>)
        requires
            self.wf(),
        ensures
            r matches Some(i) ==> i < self.event_field_names.len() && slot_of(self.event_slots(), name@)
                == Some(i as int),
            r is None ==> slot_of(self.event_slots(), name@) is None,
    {
        let r = find_source(&self.event_field_sources, name);
        proof {
            let slots = self.event_slots();
            match r {
                Some(k) => {
                    assert forall|j: int| 0 <= j < k implies #[trigger] slots[j].1 != name@ by {
                        assert(self.event_field_sources@[j]@ != name@);
                    }
                    lemma_first_slot(slots, name@, k as int);
                },
                None => {
                    assert forall|j: int| 0 <= j < slots.len() implies #[trigger] slots[j].1 != name@ by {
                        assert(self.event_field_sources@[j]@ != name@);
                    }
                },
            }
        }
        r
    }
}

/// A slot that is the first one taken from `name` is what `slot_of` gives.
proof fn lemma_first_slot(slots: Seq<Slot>, name: Seq<char>, k: int)
    requires
        0 <= k < slots.len(),
        slots[k].1 == name,
        forall|j: int| 0 <= j < k ==> #[trigger] slots[j].1 != name,
    ensures
        slot_of(slots, name) == Some(k),
{
    let c = choose|i: int|
        0 <= i < slots.len() && slots[i].1 == name && forall|j: int|
            0 <= j < i ==> #[trigger] slots[j].1 != name;
    assert(slots[k].1 == name);
    if c < k {
        assert(slots[c].1 != name);
    }
    if k < c {
        assert(slots[k].1 != name);
    }
}

impl Default for FieldConfig {
    /// An empty catalog.
    fn default() -> (r: FieldConfig)
        ensures
            r.wf(),
            r.span_slots() == Seq::<Slot>::empty(),
            r.event_slots() == Seq::<Slot>::empty(),
    {
        FieldConfig::new(Vec::new())
    }
}

fn partition(fields: &Vec<FieldSpec>, span: bool) -> (r: (Vec<String>, Vec<String>))
    ensures
        r.0.len() == r.1.len(),
        slots_view(r.0@, r.1@) == catalog_slots(fields@, span),
{
    let mut names: Vec<String> = Vec::new();
    let mut sources: Vec<String> = Vec::new();
    let mut i: usize = 0;
    while i < fields.len()
        invariant
            i <= fields.len(),
            names.len() == sources.len(),
            slots_view(names@, sources@) == catalog_slots(fields@.take(i as int), span),
        decreases fields.len() - i,
    {
        let f = &fields[i];
        let visible = if span {
            f.visibility.records_span()
        } else {
            f.visibility.records_event()
        };
        let ghost prev = slots_view(names@, sources@);
        assert(fields@.take(i + 1).drop_last() == fields@.take(i as int));
        let taken = contains_name(&names, &f.name);
        assert(taken == has_key(prev, f.name@)) by {
            if taken {
                let k = choose|k: int| 0 <= k < names.len() && #[trigger] names@[k]@ == f.name@;
                assert(prev[k].0 == f.name@);
            }
        }
        if visible && !taken {
            let name = f.name.clone();
            let source = f.source.clone();
            names.push(name);
            sources.push(source);
            assert(slots_view(names@, sources@) =~= prev.push((f.name@, f.source@)));
        }
        i = i + 1;
    }
    assert(fields@.take(fields.len() as int) == fields@);
    (names, sources)
}

/// Whether `name` occurs in `names`.
pub(crate) fn contains_name(names: &Vec<String>, name: &String) -> (r: bool)
    ensures
        r == exists|i: int| 0 <= i < names.len() && #[trigger] names@[i]@ == name@,
{
    let mut i: usize = 0;
    while i < names.len()
        invariant
            i <= names.len(),
            forall|j: int| 0 <= j < i ==> #[trigger] names@[j]@ != name@,
        decreases names.len() - i,
    {
        if names[i] == *name {
            return true;
        }
        i = i + 1;
    }
    false
}

fn find_source(sources: &Vec<String>, name: &str) -> (r: Option<usize>)
    ensures
        r matches Some(i) ==> i < sources.len() && sources@[i as int]@ == name@ && forall|j: int|
            0 <= j < i ==> #[trigger] sources@[j]@ != name@,
        r is None ==> forall|j: int| 0 <= j < sources.len() ==> #[trigger] sources@[j]@ != name@,
{
    let wanted = String::from_str(name);
    let mut i: usize = 0;
    while i < sources.len()
        invariant
            i <= sources.len(),
            wanted@ == name@,
            forall|j: int| 0 <= j < i ==> #[trigger] sources@[j]@ != name@,
        decreases sources.len() - i,
    {
        if sources[i] == wanted {
            return Some(i);
        }
        i = i + 1;
    }
    None
}

/// A recorded value as it is written to the output.
pub enum Scalar {
    Null,
    Bool(bool),
    Int(int),
    /// A number, given by its JSON text.
    Number(Seq<char>),
    Text(Seq<char>),
}

/// A value captured from a span or an event field. `Unset` marks a slot
/// that was never written and is never written out; `Null` is a value
/// explicitly recorded as absent, written as `null`.
#[derive(Clone, Debug, PartialEq)]
pub enum RecordedValue {
    Unset,
    Null,
    /// A floating-point number, held as its JSON text.
    Float(String),
    I64(i64),
    U64(u64),
    Bool(bool),
    String(String),
}

impl RecordedValue {
    pub open spec fn scalar(self) -> Scalar {
        match self {
            RecordedValue::Unset => Scalar::Null,
            RecordedValue::Null => Scalar::Null,
            RecordedValue::Float(t) => Scalar::Number(t@),
            RecordedValue::I64(v) => Scalar::Int(v as int),
            RecordedValue::U64(v) => Scalar::Int(v as int),
            RecordedValue::Bool(b) => Scalar::Bool(b),
            RecordedValue::String(s) => Scalar::Text(s@),
        }
    }

    pub fn is_unset(&self) -> (r: bool)
        ensures
            r == (*self is Unset),
    {
        match self {
            RecordedValue::Unset => true,
            _ => false,
        }
    }

    /// A copy of the value.
    pub fn duplicate(&self) -> (r: RecordedValue)
        ensures
            r == *self,
    {
        match self {
            RecordedValue::Unset => RecordedValue::Unset,
            RecordedValue::Null => RecordedValue::Null,
            RecordedValue::Float(t) => RecordedValue::Float(t.clone()),
            RecordedValue::I64(v) => RecordedValue::I64(*v),
            RecordedValue::U64(v) => RecordedValue::U64(*v),
            RecordedValue::Bool(b) => RecordedValue::Bool(*b),
            RecordedValue::String(s) => RecordedValue::String(s.clone()),
        }
    }
}

impl From<i64> for RecordedValue {
    fn from(v: i64) -> (r: RecordedValue) {
        RecordedValue::I64(v)
    }
}

impl vstd::std_specs::convert::FromSpecImpl<i64> for RecordedValue {
    open spec fn obeys_from_spec() -> bool {
        true
    }

    open spec fn from_spec(v: i64) -> RecordedValue {
        RecordedValue::I64(v)
    }
}

impl From<u64> for RecordedValue {
    fn from(v: u64) -> (r: RecordedValue) {
        RecordedValue::U64(v)
    }
}

impl vstd::std_specs::convert::FromSpecImpl<u64> for RecordedValue {
    open spec fn obeys_from_spec() -> bool {
        true
    }

    open spec fn from_spec(v: u64) -> RecordedValue {
        RecordedValue::U64(v)
    }
}

impl From<bool> for RecordedValue {
    fn from(v: bool) -> (r: RecordedValue) {
        RecordedValue::Bool(v)
    }
}

impl vstd::std_specs::convert::FromSpecImpl<bool> for RecordedValue {
    open spec fn obeys_from_spec() -> bool {
        true
    }

    open spec fn from_spec(v: bool) -> RecordedValue {
        RecordedValue::Bool(v)
    }
}

impl From<String> for RecordedValue {
    fn from(v: String) -> (r: RecordedValue) {
        RecordedValue::String(v)
    }
}

impl vstd::std_specs::convert::FromSpecImpl<String> for RecordedValue {
    open spec fn obeys_from_spec() -> bool {
        true
    }

    open spec fn from_spec(v: String) -> RecordedValue {
        RecordedValue::String(v)
    }
}

/// The values of a recorder after `value` is recorded under `name`: the
/// slot that `name` maps to is overwritten, and nothing changes when the
/// name has no slot.
pub open spec fn after_record(
    values: Seq<RecordedValue>,
    slots: Seq<Slot>,
    name: Seq<char>,
    value: RecordedValue,
) -> Seq<RecordedValue> {
    match slot_of(slots, name) {
        Some(i) => values.update(i, value),
        None => values,
    }
}

/// Some index `k <= i` of `slots` is the first one taken from `name`.
proof fn lemma_first_source(slots: Seq<Slot>, name: Seq<char>, i: int) -> (k: int)
    requires
        0 <= i < slots.len(),
        slots[i].1 == name,
    ensures
        0 <= k <= i,
        slots[k].1 == name,
        forall|j: int| 0 <= j < k ==> #[trigger] slots[j].1 != name,
    decreases i,
{
    if exists|j: int| 0 <= j < i && #[trigger] slots[j].1 == name {
        let j = choose|j: int| 0 <= j < i && #[trigger] slots[j].1 == name;
        lemma_first_source(slots, name, j)
    } else {
        i
    }
}

/// The slot that `slot_of` gives is a slot taken from `name`.
pub proof fn lemma_slot_of_in_range(slots: Seq<Slot>, name: Seq<char>)
    ensures
        slot_of(slots, name) matches Some(k) ==> 0 <= k < slots.len() && slots[k].1 == name,
{
    if exists|i: int| 0 <= i < slots.len() && #[trigger] slots[i].1 == name {
        let i = choose|i: int| 0 <= i < slots.len() && #[trigger] slots[i].1 == name;
        let k = lemma_first_source(slots, name, i);
        lemma_first_slot(slots, name, k);
    }
}

/// A slot that no record call targets stays unset: recording `value`
/// under `name` changes only the slot that `name` maps to.
pub proof fn law_unwritten_slot_stays_unset(
    values: Seq<RecordedValue>,
    slots: Seq<Slot>,
    name: Seq<char>,
    value: RecordedValue,
    i: int,
)
    requires
        0 <= i < values.len(),
        values.len() == slots.len(),
        values[i] is Unset,
        slot_of(slots, name) != Some(i),
    ensures
        after_record(values, slots, name, value)[i] is Unset,
        after_record(values, slots, name, value).len() == values.len(),
{
    lemma_slot_of_in_range(slots, name);
}

/// Catalog lookups are stable: for one catalog and one name, every lookup
/// gives the same slot, for spans and for events.
pub proof fn law_slot_lookup_stable(
    config: FieldConfig,
    name: Seq<char>,
    first: Option<usize>,
    second: Option<usize>,
    span: bool,
)
    requires
        config.wf(),
        ({
            let slots = if span {
                config.span_slots()
            } else {
                config.event_slots()
            };
            &&& first matches Some(i) ==> slot_of(slots, name) == Some(i as int)
            &&& first is None ==> slot_of(slots, name) is None
            &&& second matches Some(i) ==> slot_of(slots, name) == Some(i as int)
            &&& second is None ==> slot_of(slots, name) is None
        }),
    ensures
        first == second,
{
}

/// Something that stores field values by name.
pub trait FieldRecorder {
    spec fn valid(&self) -> bool;

    fn record_field(&mut self, name: &str, value: RecordedValue)
        requires
            old(self).valid(),
        ensures
            final(self).valid(),
    ;
}

/// `n` unset slots.
pub fn unset_values(n: usize) -> (r: Vec<RecordedValue>)
    ensures
        r.len() == n,
        forall|i: int| 0 <= i < n ==> #[trigger] r@[i] is Unset,
{
    let mut r: Vec<RecordedValue> = Vec::new();
    let mut i: usize = 0;
    while i < n
        invariant
            i <= n,
            r.len() == i,
            forall|j: int| 0 <= j < i ==> #[trigger] r@[j] is Unset,
        decreases n - i,
    {
        r.push(RecordedValue::Unset);
        i = i + 1;
    }
    r
}

/// Relies on `Arc::clone`: the new handle points to the same value.
#[verifier::external_body]
pub(crate) fn share_config(config: &Arc<FieldConfig>) -> (r: Arc<FieldConfig>)
    ensures
        *r == **config,
{
    Arc::clone(config)
}

} // verus!
