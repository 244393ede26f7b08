use crate::fields::{contains_name, has_key, RecordedValue, Scalar};
use crate::json::members_model;
use crate::scope::SpanFrame;
use crate::span_recorder::DefaultSpanRecorder;
use vstd::prelude::*;
use vstd::string::*;

verus! {

/// The pairs of `c` that are written when the keys in `seen` are taken
/// already: a pair is kept when its key is not in `seen` and no earlier
/// pair of `c` has it. The first writer of a key wins; later ones are
/// dropped, not merged.
pub open spec fn first_wins<V>(seen: Seq<Seq<char>>, c: Seq<(Seq<char>, V)>) -> Seq<(Seq<char>, V)>
    decreases c.len(),
{
    if c.len() == 0 {
        Seq::empty()
    } else {
        let prev = first_wins(seen, c.drop_last());
        let e = c.last();
        if seen.contains(e.0) || has_key(c.drop_last(), e.0) {
            prev
        } else {
            prev.push(e)
        }
    }
}

/// The pairs with each key replaced by its text.
pub open spec fn keyed<T>(c: Seq<(String, T)>) -> Seq<(Seq<char>, T)> {
    c.map_values(|e: (String, T)| (e.0@, e.1))
}

/// The values of the recorded slots that were written, under their keys,
/// in slot order.
pub open spec fn recorded_members(names: Seq<String>, values: Seq<RecordedValue>) -> Seq<
    (Seq<char>, Scalar),
>
    decreases values.len(),
{
    if values.len() == 0 {
        Seq::empty()
    } else {
        let prev = recorded_members(names, values.drop_last());
        let i = values.len() - 1;
        if values.last() is Unset || i >= names.len() {
            prev
        } else {
            prev.push((names[i]@, values.last().scalar()))
        }
    }
}

/// A list of output pairs that drops every pair whose key was written
/// before.
pub struct FieldWriter<T> {
    pub seen: Vec<String>,
    pub fields: Vec<(String, T)>,
}

pub open spec fn seen_has(seen: Seq<String>, k: Seq<char>) -> bool {
    exists|i: int| 0 <= i < seen.len() && #[trigger] seen[i]@ == k
}

impl<T> FieldWriter<T> {
    /// The writer holds what `first_wins(seed, cands)` keeps.
    pub open spec fn writes(&self, seed: Seq<Seq<char>>, cands: Seq<(Seq<char>, T)>) -> bool {
        &&& keyed(self.fields@) == first_wins(seed, cands)
        &&& forall|k: Seq<char>|
            #[trigger] seen_has(self.seen@, k) == (seed.contains(k) || has_key(cands, k))
    }

    pub(crate) fn new(seed: Vec<String>) -> (r: FieldWriter<T>)
        ensures
            r.writes(seed@.map_values(|s: String| s@), Seq::empty()),
    {
        let r = FieldWriter { seen: seed, fields: Vec::new() };
        proof {
            let sv = r.seen@.map_values(|s: String| s@);
            assert(keyed(r.fields@) == Seq::<(Seq<char>, T)>::empty());
            assert forall|k: Seq<char>| #[trigger] seen_has(r.seen@, k) == sv.contains(k) by {
                if seen_has(r.seen@, k) {
                    let i = choose|i: int| 0 <= i < r.seen.len() && #[trigger] r.seen@[i]@ == k;
                    assert(sv[i] == k);
                }
            }
        }
        r
    }

    /// Writes `(key, value)` unless `key` was written before.
    pub(crate) fn add(
        &mut self,
        key: String,
        value: T,
        Ghost(seed): Ghost<Seq<Seq<char>>>,
        Ghost(cands): Ghost<Seq<(Seq<char>, T)>>,
    )
        requires
            old(self).writes(seed, cands),
        ensures
            final(self).writes(seed, cands.push((key@, value))),
    {
        let ghost c2 = cands.push((key@, value));
        assert(c2.drop_last() == cands);
        if !contains_name(&self.seen, &key) {
            let ghost k = key@;
            proof {
                assert(!seen_has(self.seen@, k));
            }
            let ghost old_fields = self.fields@;
            self.seen.push(key.clone());
            self.fields.push((key, value));
            proof {
                assert(keyed(self.fields@) == keyed(old_fields).push((k, value)));
                assert forall|q: Seq<char>| #[trigger] seen_has(self.seen@, q) == (seed.contains(q)
                    || has_key(c2, q)) by {
                    let n = self.seen.len() - 1;
                    if seen_has(self.seen@, q) {
                        let i = choose|i: int| 0 <= i < self.seen.len() && #[trigger] self.seen@[i]@ == q;
                        if i < n {
                            assert(seen_has(old(self).seen@, q));
                            if has_key(cands, q) {
                                let j = choose|j: int| 0 <= j < cands.len() && #[trigger] cands[j].0 == q;
                                assert(c2[j].0 == q);
                            }
                        } else {
                            assert(c2[cands.len() as int].0 == q);
                        }
                    }
                    if has_key(c2, q) {
                        let j = choose|j: int| 0 <= j < c2.len() && #[trigger] c2[j].0 == q;
                        if j < cands.len() {
                            assert(cands[j].0 == q);
                            assert(seen_has(old(self).seen@, q));
                            let i = choose|i: int| 0 <= i < old(self).seen.len() && #[trigger] old(self).seen@[i]@ == q;
                            assert(self.seen@[i]@ == q);
                        } else {
                            assert(self.seen@[n]@ == q);
                        }
                    }
                    if seed.contains(q) {
                        assert(seen_has(old(self).seen@, q));
                        let i = choose|i: int| 0 <= i < old(self).seen.len() && #[trigger] old(self).seen@[i]@ == q;
                        assert(self.seen@[i]@ == q);
                    }
                }
            }
        } else {
            proof {
                assert(seen_has(self.seen@, key@));
                assert forall|q: Seq<char>| #[trigger] seen_has(self.seen@, q) == (seed.contains(q)
                    || has_key(c2, q)) by {
                    if has_key(c2, q) {
                        let j = choose|j: int| 0 <= j < c2.len() && #[trigger] c2[j].0 == q;
                        if j < cands.len() {
                            assert(cands[j].0 == q);
                        }
                    }
                    if has_key(cands, q) {
                        let j = choose|j: int| 0 <= j < cands.len() && #[trigger] cands[j].0 == q;
                        assert(c2[j].0 == q);
                    }
                }
            }
        }
    }
}

/// Which parts of a span are written in the span list.
#[derive(Clone, Copy, Debug, PartialEq, Eq, Structural)]
pub struct DefaultSpanFormat {
    pub display_location: bool,
    pub display_fields: bool,
}

impl Default for DefaultSpanFormat {
    fn default() -> (r: DefaultSpanFormat)
        ensures
            !r.display_location,
            !r.display_fields,
    {
        DefaultSpanFormat { display_location: false, display_fields: false }
    }
}

/// The keys of a span object that its recorded fields cannot take.
pub open spec fn reserved_span_keys() -> Seq<Seq<char>> {
    seq!["name"@, "target"@, "level"@, "file"@, "line"@]
}

impl DefaultSpanFormat {
    pub fn with_location(self, display_location: bool) -> (r: DefaultSpanFormat)
        ensures
            r.display_location == display_location,
            r.display_fields == self.display_fields,
    {
        DefaultSpanFormat { display_location, ..self }
    }

    pub fn with_fields(self, display_fields: bool) -> (r: DefaultSpanFormat)
        ensures
            r.display_fields == display_fields,
            r.display_location == self.display_location,
    {
        DefaultSpanFormat { display_fields, ..self }
    }

    /// The members of the object that describes `frame` in the span list.
    pub open spec fn span_object(self, frame: SpanFrame, recorder: Option<DefaultSpanRecorder>) -> Seq<
        (Seq<char>, Scalar),
    > {
        let md = frame.metadata;
        let base = seq![
            ("name"@, Scalar::Text(md.name@)),
            ("target"@, Scalar::Text(md.target@)),
            ("level"@, Scalar::Text(md.level.name())),
        ];
        let file = if self.display_location && md.file is Some {
            seq![("file"@, Scalar::Text(md.file->0@))]
        } else {
            Seq::empty()
        };
        let line = if self.display_location && md.line is Some {
            seq![("line"@, Scalar::Int(md.line->0 as int))]
        } else {
            Seq::empty()
        };
        let fields = if self.display_fields && recorder is Some {
            first_wins(
                reserved_span_keys(),
                recorded_members(
                    recorder->0.config.span_field_names@,
                    recorder->0.fields@,
                ),
            )
        } else {
            Seq::empty()
        };
        base + file + line + fields
    }

    /// The members of the object that describes `frame` in the span list.
    pub fn format_span(&self, frame: &SpanFrame, recorder: Option<&DefaultSpanRecorder>) -> (r: Vec<
        (String, RecordedValue),
    >)
        requires
            recorder matches Some(x) ==> x.wf(),
        ensures
            members_model(r@) == self.span_object(
                *frame,
                match recorder {
                    Some(x) => Some(*x),
                    None => None,
                },
            ),
    {
        let md = &frame.metadata;
        let mut out: Vec<(String, RecordedValue)> = Vec::new();
        out.push((String::from_str("name"), RecordedValue::String(md.name.clone())));
        out.push((String::from_str("target"), RecordedValue::String(md.target.clone())));
        out.push((String::from_str("level"), RecordedValue::String(String::from_str(md.level.as_str()))));
        let ghost base = members_model(out@);
        if self.display_location {
            if let Some(file) = &md.file {
                out.push((String::from_str("file"), RecordedValue::String(file.clone())));
            }
            if let Some(line) = md.line {
                out.push((String::from_str("line"), RecordedValue::U64(line as u64)));
            }
        }
        let ghost located = members_model(out@);
        assert(located == self.span_object(*frame, None));
        if self.display_fields {
            if let Some(rec) = recorder {
                let fields = recorded_fields(
                    &rec.config.span_field_names,
                    &rec.fields,
                    reserved_keys(),
                );
                let ghost before = out@;
                let mut i: usize = 0;
                while i < fields.len()
                    invariant
                        i <= fields.len(),
                        out@ == before + fields@.take(i as int),
                    decreases fields.len() - i,
                {
                    out.push((fields[i].0.clone(), fields[i].1.duplicate()));
                    assert(out@ == before + fields@.take(i + 1));
                    i = i + 1;
                }
                assert(fields@.take(fields.len() as int) == fields@);
                assert(members_model(out@) == members_model(before) + members_model(fields@));
                return out;
            }
        }
        out
    }
}

/// The reserved keys of a span object.
fn reserved_keys() -> (r: Vec<String>)
    ensures
        r@.map_values(|s: String| s@) == reserved_span_keys(),
{
    let mut r: Vec<String> = Vec::new();
    r.push(String::from_str("name"));
    r.push(String::from_str("target"));
    r.push(String::from_str("level"));
    r.push(String::from_str("file"));
    r.push(String::from_str("line"));
    assert(r@.map_values(|s: String| s@) == reserved_span_keys());
    r
}

/// The written slots of a recorder, under their keys and in slot order,
/// with the keys in `seed` and repeated keys left out.
pub fn recorded_fields(names: &Vec<String>, values: &Vec<RecordedValue>, seed: Vec<String>) -> (r: Vec<
    (String, RecordedValue),
>)
    requires
        names.len() == values.len(),
    ensures
        members_model(r@) == first_wins(
            seed@.map_values(|s: String| s@),
            recorded_members(names@, values@),
        ),
{
    let ghost seen0 = seed@.map_values(|s: String| s@);
    let mut w: FieldWriter<RecordedValue> = FieldWriter::new(seed);
    let ghost mut cands: Seq<(Seq<char>, RecordedValue)> = Seq::empty();
    let mut i: usize = 0;
    while i < values.len()
        invariant
            i <= values.len(),
            names.len() == values.len(),
            w.writes(seen0, cands),
            cands.map_values(|m: (Seq<char>, RecordedValue)| (m.0, m.1.scalar()))
                == recorded_members(names@, values@.take(i as int)),
        decreases values.len() - i,
    {
        assert(values@.take(i + 1).drop_last() == values@.take(i as int));
        if !values[i].is_unset() {
            let ghost c2 = cands.push((names@[i as int]@, values@[i as int]));
            w.add(names[i].clone(), values[i].duplicate(), Ghost(seen0), Ghost(cands));
            proof {
                assert(c2.map_values(|m: (Seq<char>, RecordedValue)| (m.0, m.1.scalar())) == cands.map_values(
                    |m: (Seq<char>, RecordedValue)| (m.0, m.1.scalar()),
                ).push((names@[i as int]@, values@[i as int].scalar())));
                cands = c2;
            }
        }
        i = i + 1;
    }
    assert(values@.take(values.len() as int) == values@);
    proof {
        let f = |v: RecordedValue| v.scalar();
        lemma_first_wins_map(seen0, cands, f);
        assert(cands.map_values(|m: (Seq<char>, RecordedValue)| (m.0, f(m.1))) =~= cands.map_values(
            |m: (Seq<char>, RecordedValue)| (m.0, m.1.scalar()),
        ));
        let fw = first_wins(seen0, cands);
        assert(fw.map_values(|m: (Seq<char>, RecordedValue)| (m.0, f(m.1))) =~= fw.map_values(
            |m: (Seq<char>, RecordedValue)| (m.0, m.1.scalar()),
        ));
        assert(members_model(w.fields@) == keyed(w.fields@).map_values(
            |m: (Seq<char>, RecordedValue)| (m.0, m.1.scalar()),
        ));
    }
    w.fields
}

/// Dropping repeated keys commutes with mapping the values.
pub proof fn lemma_first_wins_map<A, B>(
    seen: Seq<Seq<char>>,
    c: Seq<(Seq<char>, A)>,
    f: spec_fn(A) -> B,
)
    ensures
        first_wins(seen, c).map_values(|m: (Seq<char>, A)| (m.0, f(m.1))) == first_wins(
            seen,
            c.map_values(|m: (Seq<char>, A)| (m.0, f(m.1))),
        ),
    decreases c.len(),
{
    let g = |m: (Seq<char>, A)| (m.0, f(m.1));
    if c.len() > 0 {
        lemma_first_wins_map(seen, c.drop_last(), f);
        assert(c.map_values(g).drop_last() == c.drop_last().map_values(g));
        let k = c.last().0;
        assert(has_key(c.drop_last(), k) == has_key(c.drop_last().map_values(g), k)) by {
            if has_key(c.drop_last(), k) {
                let j = choose|j: int|
                    0 <= j < c.drop_last().len() && #[trigger] c.drop_last()[j].0 == k;
                assert(c.drop_last().map_values(g)[j].0 == k);
            }
            if has_key(c.drop_last().map_values(g), k) {
                let j = choose|j: int|
                    0 <= j < c.drop_last().len() && #[trigger] c.drop_last().map_values(g)[j].0
                        == k;
                assert(c.drop_last()[j].0 == k);
            }
        }
    }
}

/// Every pair that `first_wins` keeps is the first pair of `c` with its key,
/// and its key is not in `seen`.
pub proof fn lemma_first_wins_kept<V>(seen: Seq<Seq<char>>, c: Seq<(Seq<char>, V)>)
    ensures
        forall|q: int|
            #![trigger first_wins(seen, c)[q]]
            0 <= q < first_wins(seen, c).len() ==> exists|i: int|
                #![trigger c[i]]
                0 <= i < c.len() && first_wins(seen, c)[q] == c[i] && !seen.contains(c[i].0)
                    && forall|j: int| 0 <= j < i ==> #[trigger] c[j].0 != c[i].0,
    decreases c.len(),
{
    if c.len() > 0 {
        let d = c.drop_last();
        lemma_first_wins_kept(seen, d);
        let fw = first_wins(seen, c);
        let fd = first_wins(seen, d);
        assert forall|q: int| #![trigger fw[q]] 0 <= q < fw.len() implies exists|i: int|
            #![trigger c[i]]
            0 <= i < c.len() && fw[q] == c[i] && !seen.contains(c[i].0) && forall|j: int|
                0 <= j < i ==> #[trigger] c[j].0 != c[i].0 by {
            if q < fd.len() {
                let i = choose|i: int|
                    #![trigger d[i]]
                    0 <= i < d.len() && fd[q] == d[i] && !seen.contains(d[i].0) && forall|j: int|
                        0 <= j < i ==> #[trigger] d[j].0 != d[i].0;
                assert(c[i] == d[i]);
                assert forall|j: int| 0 <= j < i implies #[trigger] c[j].0 != c[i].0 by {
                    assert(c[j] == d[j]);
                }
            } else {
                let i = c.len() - 1;
                assert(fw[q] == c[i]);
                assert forall|j: int| 0 <= j < i implies #[trigger] c[j].0 != c[i].0 by {
                    if c[j].0 == c[i].0 {
                        assert(d[j].0 == c.last().0);
                    }
                }
            }
        }
    }
}

/// The first pair of `c` with a key that `seen` does not hold is kept.
pub proof fn lemma_first_wins_first<V>(seen: Seq<Seq<char>>, c: Seq<(Seq<char>, V)>, i: int)
    requires
        0 <= i < c.len(),
        !seen.contains(c[i].0),
        forall|j: int| 0 <= j < i ==> #[trigger] c[j].0 != c[i].0,
    ensures
        first_wins(seen, c).contains(c[i]),
    decreases c.len(),
{
    let d = c.drop_last();
    if i < c.len() - 1 {
        assert(d[i] == c[i]);
        assert forall|j: int| 0 <= j < i implies #[trigger] d[j].0 != d[i].0 by {
            assert(d[j] == c[j]);
        }
        lemma_first_wins_first(seen, d, i);
        let p = choose|p: int| 0 <= p < first_wins(seen, d).len() && first_wins(seen, d)[p] == c[i];
        assert(first_wins(seen, c)[p] == c[i]);
    } else {
        if has_key(d, c[i].0) {
            let j = choose|j: int| 0 <= j < d.len() && #[trigger] d[j].0 == c[i].0;
            assert(c[j].0 == c[i].0);
        }
        assert(first_wins(seen, c).last() == c[i]);
    }
}

/// No two pairs that `first_wins` keeps share a key.
pub proof fn lemma_first_wins_unique<V>(seen: Seq<Seq<char>>, c: Seq<(Seq<char>, V)>)
    ensures
        forall|p: int, q: int|
            0 <= p < q < first_wins(seen, c).len() ==> #[trigger] first_wins(seen, c)[p].0
                != #[trigger] first_wins(seen, c)[q].0,
    decreases c.len(),
{
    if c.len() > 0 {
        let d = c.drop_last();
        lemma_first_wins_unique(seen, d);
        lemma_first_wins_kept(seen, d);
        let fw = first_wins(seen, c);
        let fd = first_wins(seen, d);
        assert forall|p: int, q: int| 0 <= p < q < fw.len() implies #[trigger] fw[p].0
            != #[trigger] fw[q].0 by {
            if q >= fd.len() {
                let i = choose|i: int|
                    #![trigger d[i]]
                    0 <= i < d.len() && fd[p] == d[i] && !seen.contains(d[i].0) && forall|j: int|
                        0 <= j < i ==> #[trigger] d[j].0 != d[i].0;
                assert(fw[q] == c.last());
                if fw[p].0 == fw[q].0 {
                    assert(d[i].0 == c.last().0);
                }
            }
        }
    }
}

/// A key that `first_wins` writes is offered by some pair and not taken in
/// `seen`.
pub proof fn lemma_first_wins_keys<V>(seen: Seq<Seq<char>>, c: Seq<(Seq<char>, V)>, k: Seq<char>)
    requires
        has_key(first_wins(seen, c), k),
    ensures
        has_key(c, k),
        !seen.contains(k),
{
    lemma_first_wins_kept(seen, c);
    let q = choose|q: int| 0 <= q < first_wins(seen, c).len() && #[trigger] first_wins(seen, c)[q].0 == k;
    let i = choose|i: int|
        #![trigger c[i]]
        0 <= i < c.len() && first_wins(seen, c)[q] == c[i] && !seen.contains(c[i].0) && forall|j: int|
            0 <= j < i ==> #[trigger] c[j].0 != c[i].0;
    assert(c[i].0 == k);
}

/// First write wins: when the first pair offered under a key is `c[i]`, the
/// output holds `c[i]`, and every pair it holds under that key is `c[i]`:
/// later pairs under the key are dropped, not merged.
pub proof fn law_first_write_wins<V>(seen: Seq<Seq<char>>, c: Seq<(Seq<char>, V)>, i: int)
    requires
        0 <= i < c.len(),
        !seen.contains(c[i].0),
        forall|j: int| 0 <= j < i ==> #[trigger] c[j].0 != c[i].0,
    ensures
        first_wins(seen, c).contains(c[i]),
        forall|q: int|
            0 <= q < first_wins(seen, c).len() && #[trigger] first_wins(seen, c)[q].0 == c[i].0
                ==> first_wins(seen, c)[q] == c[i],
{
    lemma_first_wins_first(seen, c, i);
    lemma_first_wins_kept(seen, c);
    let fw = first_wins(seen, c);
    assert forall|q: int| 0 <= q < fw.len() && #[trigger] fw[q].0 == c[i].0 implies fw[q] == c[i] by {
        let i2 = choose|i2: int|
            #![trigger c[i2]]
            0 <= i2 < c.len() && fw[q] == c[i2] && !seen.contains(c[i2].0) && forall|j: int|
                0 <= j < i2 ==> #[trigger] c[j].0 != c[i2].0;
        if i2 < i {
            assert(c[i2].0 != c[i].0);
        } else if i < i2 {
            assert(c[i].0 != c[i2].0);
        }
    }
}

/// Unset slots are never written: a key whose slots are all unset is not
/// among a recorder's written members.
pub proof fn law_unset_not_written(names: Seq<String>, values: Seq<RecordedValue>, k: Seq<char>)
    requires
        forall|j: int| 0 <= j < values.len() && j < names.len() && #[trigger] names[j]@ == k ==> values[j] is Unset,
    ensures
        !has_key(recorded_members(names, values), k),
    decreases values.len(),
{
    if values.len() > 0 {
        law_unset_not_written(names, values.drop_last(), k);
        let i = values.len() - 1;
        if !(values.last() is Unset) && i < names.len() {
            assert(names[i]@ != k);
            let m = recorded_members(names, values);
            if has_key(m, k) {
                let q = choose|q: int| 0 <= q < m.len() && #[trigger] m[q].0 == k;
                assert(q < m.len() - 1);
                assert(recorded_members(names, values.drop_last())[q].0 == k);
            }
        }
    }
}

} // verus!
