use crate::fields::{after_record, unset_values, FieldConfig, FieldRecorder, RecordedValue};
use std::sync::Arc;
use vstd::prelude::*;

verus! {

/// The fields recorded on one event, one value per event slot of the catalog.
pub struct DefaultEventRecorder {
    pub config: Arc<FieldConfig>,
    pub fields: Vec<RecordedValue>,
}

impl DefaultEventRecorder {
    pub open spec fn wf(&self) -> bool {
        &&& self.config.wf()
        &&& self.fields.len() == self.config.event_field_names.len()
    }

    /// A recorder with every slot unset.
    pub fn from_config(config: Arc<FieldConfig>) -> (r: DefaultEventRecorder)
        requires
            config.wf(),
        ensures
            r.wf(),
            r.config == config,
            forall|i: int| 0 <= i < r.fields.len() ==> #[trigger] r.fields@[i] is Unset,
    {
        let n = config.event_field_names.len();
        DefaultEventRecorder { config, fields: unset_values(n) }
    }
}

impl FieldRecorder for DefaultEventRecorder {
    open spec fn valid(&self) -> bool {
        self.wf()
    }

    fn record_field(&mut self, name: &str, value: RecordedValue)
        ensures
            final(self).config == old(self).config,
            final(self).fields@ == after_record(
                old(self).fields@,
                old(self).config.event_slots(),
                name@,
                value,
            ),
    {
        if let Some(i) = self.config.event_field_index(name) {
            self.fields.set(i, value);
        }
    }
}

} // verus!
