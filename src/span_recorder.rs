use crate::fields::{after_record, unset_values, FieldConfig, FieldRecorder, RecordedValue};
use std::sync::Arc;
use vstd::prelude::*;

verus! {

/// The fields recorded on one span, one value per span slot of the catalog.
/// A slot that was never written stays `Unset` and is never written out.
pub struct DefaultSpanRecorder {
    pub config: Arc<FieldConfig>,
    pub fields: Vec<RecordedValue>,
}

impl DefaultSpanRecorder {
    pub open spec fn wf(&self) -> bool {
        &&& self.config.wf()
        &&& self.fields.len() == self.config.span_field_names.len()
    }

    /// A recorder with every slot unset.
    pub fn from_config(config: Arc<FieldConfig>) -> (r: DefaultSpanRecorder)
        requires
            config.wf(),
        ensures
            r.wf(),
            r.config == config,
            forall|i: int| 0 <= i < r.fields.len() ==> #[trigger] r.fields@[i] is Unset,
    {
        let n = config.span_field_names.len();
        DefaultSpanRecorder { config, fields: unset_values(n) }
    }
}

impl FieldRecorder for DefaultSpanRecorder {
    open spec fn valid(&self) -> bool {
        self.wf()
    }

    fn record_field(&mut self, name: &str, value: RecordedValue)
        ensures
            final(self).config == old(self).config,
            final(self).fields@ == after_record(
                old(self).fields@,
                old(self).config.span_slots(),
                name@,
                value,
            ),
    {
        if let Some(i) = self.config.field_index(name) {
            self.fields.set(i, value);
        }
    }
}

} // verus!
