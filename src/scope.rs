use crate::fields::{FieldRecorder, RecordedValue};
use crate::level::Level;
use crate::span_recorder::DefaultSpanRecorder;
use vstd::prelude::*;

verus! {

/// What is known of a span or an event where it was raised.
#[derive(Clone, Debug)]
pub struct Metadata {
    pub name: String,
    pub target: String,
    pub level: Level,
    pub file: Option<String>,
    pub line: Option<u32>,
}

/// One span of the chain enclosing an event.
#[derive(Clone, Debug)]
pub struct SpanFrame {
    /// The identifier under which the span's recorder is stored.
    pub id: u64,
    pub metadata: Metadata,
}

/// The recorders of the live spans, keyed by span identifier. A recorder
/// is stored when its span is first seen and removed when the span closes.
pub struct SpanStore {
    pub entries: Vec<(u64, DefaultSpanRecorder)>,
}

impl SpanStore {
    pub open spec fn wf(&self) -> bool {
        &&& forall|i: int, j: int|
            0 <= i < j < self.entries.len() ==> #[trigger] self.entries@[i].0
                != #[trigger] self.entries@[j].0
        &&& forall|i: int| 0 <= i < self.entries.len() ==> (#[trigger] self.entries@[i]).1.wf()
    }

    pub open spec fn contains(&self, id: u64) -> bool {
        exists|i: int| 0 <= i < self.entries.len() && #[trigger] self.entries@[i].0 == id
    }

    /// The recorder stored for `id`.
    pub open spec fn recorder(&self, id: u64) -> Option<DefaultSpanRecorder> {
        if self.contains(id) {
            Some(
                self.entries@[choose|i: int|
                    0 <= i < self.entries.len() && #[trigger] self.entries@[i].0 == id].1,
            )
        } else {
            None
        }
    }

    pub fn new() -> (r: SpanStore)
        ensures
            r.wf(),
            forall|id: u64| !r.contains(id),
    {
        SpanStore { entries: Vec::new() }
    }

    /// With unique ids, the entry at `k` is the one stored for its id.
    proof fn lemma_recorder_at(&self, k: int)
        requires
            self.wf(),
            0 <= k < self.entries.len(),
        ensures
            self.contains(self.entries@[k].0),
            self.recorder(self.entries@[k].0) == Some(self.entries@[k].1),
    {
        let id = self.entries@[k].0;
        assert(self.contains(id));
        let c = choose|i: int| 0 <= i < self.entries.len() && #[trigger] self.entries@[i].0 == id;
        if c < k {
            assert(self.entries@[c].0 != self.entries@[k].0);
        } else if k < c {
            assert(self.entries@[k].0 != self.entries@[c].0);
        }
    }

    fn position(&self, id: u64) -> (r: Option<usize>)
        requires
            self.wf(),
        ensures
            r matches Some(k) ==> k < self.entries.len() && self.entries@[k as int].0 == id
                && self.recorder(id) == Some(self.entries@[k as int].1),
            r is None ==> !self.contains(id) && self.recorder(id) is None,
    {
        let mut k: usize = 0;
        while k < self.entries.len()
            invariant
                k <= self.entries.len(),
                self.wf(),
                forall|j: int| 0 <= j < k ==> #[trigger] self.entries@[j].0 != id,
            decreases self.entries.len() - k,
        {
            if self.entries[k].0 == id {
                proof {
                    self.lemma_recorder_at(k as int);
                }
                return Some(k);
            }
            k = k + 1;
        }
        None
    }

    /// The recorder of span `id`, if one is stored.
    pub fn get(&self, id: u64) -> (r: Option<&DefaultSpanRecorder>)
        requires
            self.wf(),
        ensures
            r matches Some(x) ==> self.recorder(id) == Some(*x),
            r is None ==> self.recorder(id) is None,
    {
        match self.position(id) {
            Some(k) => Some(&self.entries[k].1),
            None => None,
        }
    }

    /// Stores `recorder` for a span seen for the first time. A span that
    /// already has a recorder keeps it.
    pub fn on_new_span(&mut self, id: u64, recorder: DefaultSpanRecorder) -> (inserted: bool)
        requires
            old(self).wf(),
            recorder.wf(),
        ensures
            final(self).wf(),
            inserted == !old(self).contains(id),
            final(self).recorder(id) == if inserted {
                Some(recorder)
            } else {
                old(self).recorder(id)
            },
            forall|other: u64| other != id ==> final(self).recorder(other) == old(self).recorder(other),
    {
        match self.position(id) {
            Some(_) => false,
            None => {
                let ghost before = self.entries@;
                self.entries.push((id, recorder));
                proof {
                    let n = before.len() as int;
                    assert forall|i: int, j: int|
                        0 <= i < j < self.entries.len() implies #[trigger] self.entries@[i].0
                        != #[trigger] self.entries@[j].0 by {
                        if j == n {
                            assert(before[i].0 != id);
                        }
                    }
                    assert forall|other: u64| other != id implies final(self).recorder(other)
                        == old(self).recorder(other) by {
                        if old(self).contains(other) {
                            let c = choose|i: int|
                                0 <= i < before.len() && #[trigger] before[i].0 == other;
                            old(self).lemma_recorder_at(c);
                            self.lemma_recorder_at(c);
                        } else if self.contains(other) {
                            let d = choose|i: int|
                                0 <= i < self.entries.len() && #[trigger] self.entries@[i].0 == other;
                            assert(before[d].0 == other);
                        }
                    }
                    self.lemma_recorder_at(n);
                }
                true
            },
        }
    }

    /// Records a value on the recorder of span `id`; a span without a
    /// recorder is left alone.
    pub fn record(&mut self, id: u64, name: &str, value: RecordedValue)
        requires
            old(self).wf(),
        ensures
            final(self).wf(),
            forall|other: u64| #[trigger] final(self).contains(other) == old(self).contains(other),
            forall|other: u64| other != id ==> final(self).recorder(other) == old(self).recorder(other),
            old(self).recorder(id) matches Some(r) ==> final(self).recorder(id) matches Some(n) && n.config
                == r.config && n.fields@ == crate::fields::after_record(
                r.fields@,
                r.config.span_slots(),
                name@,
                value,
            ),
    {
        match self.position(id) {
            Some(k) => {
                let ghost before = self.entries@;
                let (key, mut recorder) = self.entries.remove(k);
                recorder.record_field(name, value);
                self.entries.insert(k, (key, recorder));
                proof {
                    assert(self.entries@ == before.update(k as int, (key, recorder)));
                    assert forall|other: u64| #[trigger] final(self).contains(other) == old(
                        self,
                    ).contains(other) by {
                        if old(self).contains(other) {
                            let c = choose|i: int|
                                0 <= i < before.len() && #[trigger] before[i].0 == other;
                            assert(self.entries@[c].0 == other);
                        }
                        if self.contains(other) {
                            let d = choose|i: int|
                                0 <= i < self.entries.len() && #[trigger] self.entries@[i].0 == other;
                            assert(before[d].0 == other);
                        }
                    }
                    assert forall|other: u64| other != id implies final(self).recorder(other)
                        == old(self).recorder(other) by {
                        if old(self).contains(other) {
                            let c = choose|i: int|
                                0 <= i < before.len() && #[trigger] before[i].0 == other;
                            old(self).lemma_recorder_at(c);
                            self.lemma_recorder_at(c);
                        }
                    }
                    self.lemma_recorder_at(k as int);
                }
            },
            None => {},
        }
    }

    /// Drops the recorder of a span that closed.
    pub fn on_close(&mut self, id: u64)
        requires
            old(self).wf(),
        ensures
            final(self).wf(),
            !final(self).contains(id),
            forall|other: u64| other != id ==> final(self).recorder(other) == old(self).recorder(other),
    {
        match self.position(id) {
            Some(k) => {
                let ghost before = self.entries@;
                self.entries.remove(k);
                proof {
                    assert(self.entries@ == before.remove(k as int));
                    assert forall|other: u64| other != id implies final(self).recorder(other)
                        == old(self).recorder(other) by {
                        if old(self).contains(other) {
                            let c = choose|i: int|
                                0 <= i < before.len() && #[trigger] before[i].0 == other;
                            assert(c != k);
                            let c2 = if c < k { c } else { c - 1 };
                            assert(self.entries@[c2] == before[c]);
                            old(self).lemma_recorder_at(c);
                            self.lemma_recorder_at(c2);
                        } else if self.contains(other) {
                            let d = choose|i: int|
                                0 <= i < self.entries.len() && #[trigger] self.entries@[i].0 == other;
                            let d2 = if d < k { d } else { d + 1 };
                            assert(before[d2].0 == other);
                        }
                    }
                    if self.contains(id) {
                        let d = choose|i: int|
                            0 <= i < self.entries.len() && #[trigger] self.entries@[i].0 == id;
                        if d < k {
                            assert(before[d].0 != before[k as int].0);
                        } else {
                            assert(before[k as int].0 != before[d + 1].0);
                        }
                    }
                }
            },
            None => {},
        }
    }
}

} // verus!
