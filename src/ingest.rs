//! The ingestion state that both phases share: the uncategorised feature
//! type and the progress counters.
use vstd::prelude::*;
use crate::process::{Entry, Plan, Row, plan_for, plan_bucket, emit_bucket, emitted, bytes_of};
use crate::progress::{Progress, Stage, sat_add};

verus! {

pub struct Ingest {
    /// The feature type of uncategorised elements, which are never written.
    pub place_other: u64,
    pub progress: Progress,
}

impl Ingest {
    pub fn new(place_other: u64, stages: &Vec<Stage>) -> (r: Ingest)
        ensures
            r.place_other == place_other,
            r.progress.stages@.len() == stages@.len(),
            forall|i: int| 0 <= i < stages@.len() ==> {
                let st = #[trigger] r.progress.stages@[i];
                &&& st.stage == stages@[i]
                &&& st.count == 0 && st.ticks == 0 && st.errors@.len() == 0
                &&& !st.started && !st.ended
            },
    {
        Ingest { place_other, progress: Progress::new(stages) }
    }

    /// Plans the records of one bucket.
    pub fn plan(&self, entries: Vec<Entry>) -> (plans: Vec<Plan>)
        requires
            forall|i: int| 0 <= i < entries@.len() ==> (#[trigger] entries@[i]).record.fits(),
        ensures
            plans@.len() == entries@.len(),
            forall|i: int| 0 <= i < entries@.len() ==> plan_for(self.place_other, (#[trigger] entries@[i]).record,
                entries@[i].deps@, plans@[i]),
    {
        plan_bucket(self.place_other, entries)
    }

    /// The rows of one bucket, from its plans and their encodings; the
    /// bucket's records are counted as processed, whether or not they
    /// yielded a row.
    pub fn finish_bucket(&mut self, plans: Vec<Plan>, encoded: Vec<Option<Vec<u8>>>) -> (rows: Vec<Row>)
        requires
            plans@.len() == encoded@.len(),
        ensures
            rows@.map_values(|r: Row| r@) == emitted(plans@, encoded@.map_values(|e| bytes_of(e))),
            final(self).place_other == old(self).place_other,
            final(self).progress.same_stages(&old(self).progress),
            forall|i: int| 0 <= i < final(self).progress.stages@.len() ==> {
                let (a, b) = (old(self).progress.stages@[i], #[trigger] final(self).progress.stages@[i]);
                b.count == if a.stage == Stage::Process { sat_add(a.count, plans@.len() as u64) } else { a.count }
            },
    {
        let n = plans.len() as u64;
        let rows = emit_bucket(plans, encoded);
        self.progress.add(Stage::Process, n);
        rows
    }
}

} // verus!
