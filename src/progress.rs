//! Counters of the ingestion stages: records done, errors met and seconds
//! spent, per stage.
use vstd::prelude::*;

verus! {

#[derive(Clone, Copy, Debug, PartialEq, Eq, Structural)]
pub enum Stage {
    Pbf,
    Process,
}

pub struct StageState {
    pub stage: Stage,
    pub count: u64,
    pub errors: Vec<String>,
    pub ticks: u64,
    pub started: bool,
    pub ended: bool,
}

impl StageState {
    /// The stage has started and not ended.
    pub open spec fn running(&self) -> bool {
        self.started && !self.ended
    }
}

pub struct Progress {
    pub stages: Vec<StageState>,
}

/// `n` added to `c`, held at `u64::MAX`.
pub open spec fn sat_add(c: u64, n: u64) -> u64 {
    if c + n > u64::MAX { u64::MAX } else { (c + n) as u64 }
}

impl Progress {
    /// The same stages, in the same order, as `p`.
    pub open spec fn same_stages(&self, p: &Progress) -> bool {
        &&& self.stages@.len() == p.stages@.len()
        &&& forall|i: int| 0 <= i < self.stages@.len() ==> (#[trigger] self.stages@[i]).stage == p.stages@[i].stage
    }

    pub fn new(stages: &Vec<Stage>) -> (r: Progress)
        ensures
            r.stages@.len() == stages@.len(),
            forall|i: int| 0 <= i < stages@.len() ==> {
                let st = #[trigger] r.stages@[i];
                &&& st.stage == stages@[i]
                &&& st.count == 0 && st.ticks == 0 && st.errors@.len() == 0
                &&& !st.started && !st.ended
            },
    {
        let mut r = Progress { stages: Vec::new() };
        let mut i: usize = 0;
        while i < stages.len()
            invariant
                i <= stages@.len(),
                r.stages@.len() == i,
                forall|k: int| 0 <= k < i ==> {
                    let st = #[trigger] r.stages@[k];
                    &&& st.stage == stages@[k]
                    &&& st.count == 0 && st.ticks == 0 && st.errors@.len() == 0
                    &&& !st.started && !st.ended
                },
            decreases stages@.len() - i,
        {
            r.stages.push(StageState {
                stage: stages[i],
                count: 0,
                errors: Vec::new(),
                ticks: 0,
                started: false,
                ended: false,
            });
            i = i + 1;
        }
        r
    }

    /// Marks stage `s` as started.
    pub fn start(&mut self, s: Stage)
        ensures
            final(self).same_stages(old(self)),
            forall|i: int| 0 <= i < final(self).stages@.len() ==> {
                let (a, b) = (old(self).stages@[i], #[trigger] final(self).stages@[i]);
                &&& b.count == a.count && b.ticks == a.ticks && b.errors@ == a.errors@ && b.ended == a.ended
                &&& b.started == (a.started || a.stage == s)
            },
    {
        self.update(s, 0, None, true, false);
    }

    /// Marks stage `s` as ended.
    pub fn end(&mut self, s: Stage)
        ensures
            final(self).same_stages(old(self)),
            forall|i: int| 0 <= i < final(self).stages@.len() ==> {
                let (a, b) = (old(self).stages@[i], #[trigger] final(self).stages@[i]);
                &&& b.count == a.count && b.ticks == a.ticks && b.errors@ == a.errors@ && b.started == a.started
                &&& b.ended == (a.ended || a.stage == s)
            },
    {
        self.update(s, 0, None, false, true);
    }

    /// Adds `n` to the count of stage `s`.
    pub fn add(&mut self, s: Stage, n: u64)
        ensures
            final(self).same_stages(old(self)),
            forall|i: int| 0 <= i < final(self).stages@.len() ==> {
                let (a, b) = (old(self).stages@[i], #[trigger] final(self).stages@[i]);
                &&& b.ticks == a.ticks && b.errors@ == a.errors@ && b.started == a.started && b.ended == a.ended
                &&& b.count == if a.stage == s { sat_add(a.count, n) } else { a.count }
            },
    {
        self.update(s, n, None, false, false);
    }

    /// Records an error against stage `s`.
    pub fn push_err(&mut self, s: Stage, err: String)
        ensures
            final(self).same_stages(old(self)),
            forall|i: int| 0 <= i < final(self).stages@.len() ==> {
                let (a, b) = (old(self).stages@[i], #[trigger] final(self).stages@[i]);
                &&& b.count == a.count && b.ticks == a.ticks && b.started == a.started && b.ended == a.ended
                &&& b.errors@ == if a.stage == s { a.errors@.push(err) } else { a.errors@ }
            },
    {
        self.update(s, 0, Some(err), false, false);
    }

    fn update(&mut self, s: Stage, n: u64, err: Option<String>, start: bool, end: bool)
        ensures
            final(self).same_stages(old(self)),
            forall|i: int| 0 <= i < final(self).stages@.len() ==> {
                let (a, b) = (old(self).stages@[i], #[trigger] final(self).stages@[i]);
                &&& b.ticks == a.ticks
                &&& b.started == (a.started || (start && a.stage == s))
                &&& b.ended == (a.ended || (end && a.stage == s))
                &&& b.count == if a.stage == s { sat_add(a.count, n) } else { a.count }
                &&& b.errors@ == if a.stage == s && err is Some { a.errors@.push(err.unwrap()) } else { a.errors@ }
            },
    {
        let ghost orig = self.stages@;
        let mut i: usize = 0;
        while i < self.stages.len()
            invariant
                i <= self.stages@.len(),
                self.stages@.len() == orig.len(),
                forall|k: int| i <= k < orig.len() ==> #[trigger] self.stages@[k] == orig[k],
                forall|k: int| 0 <= k < i ==> {
                    let (a, b) = (orig[k], #[trigger] self.stages@[k]);
                    &&& b.stage == a.stage && b.ticks == a.ticks
                    &&& b.started == (a.started || (start && a.stage == s))
                    &&& b.ended == (a.ended || (end && a.stage == s))
                    &&& b.count == if a.stage == s { sat_add(a.count, n) } else { a.count }
                    &&& b.errors@ == if a.stage == s && err is Some { a.errors@.push(err.unwrap()) } else { a.errors@ }
                },
            decreases self.stages@.len() - i,
        {
            if self.stages[i].stage == s {
                let mut st = self.stages.remove(i);
                st.count = if st.count > u64::MAX - n { u64::MAX } else { st.count + n };
                if start {
                    st.started = true;
                }
                if end {
                    st.ended = true;
                }
                match &err {
                    Some(e) => st.errors.push(e.clone()),
                    None => {},
                }
                self.stages.insert(i, st);
            }
            i = i + 1;
        }
    }

    /// One second has passed: every running stage gains a tick.
    pub fn tick(&mut self)
        ensures
            final(self).same_stages(old(self)),
            forall|i: int| 0 <= i < final(self).stages@.len() ==> {
                let (a, b) = (old(self).stages@[i], #[trigger] final(self).stages@[i]);
                &&& b.count == a.count && b.errors@ == a.errors@ && b.started == a.started && b.ended == a.ended
                &&& b.ticks == if a.running() { sat_add(a.ticks, 1) } else { a.ticks }
            },
    {
        let ghost orig = self.stages@;
        let mut i: usize = 0;
        while i < self.stages.len()
            invariant
                i <= self.stages@.len(),
                self.stages@.len() == orig.len(),
                forall|k: int| i <= k < orig.len() ==> #[trigger] self.stages@[k] == orig[k],
                forall|k: int| 0 <= k < i ==> {
                    let (a, b) = (orig[k], #[trigger] self.stages@[k]);
                    &&& b.stage == a.stage && b.count == a.count && b.errors@ == a.errors@
                    &&& b.started == a.started && b.ended == a.ended
                    &&& b.ticks == if a.running() { sat_add(a.ticks, 1) } else { a.ticks }
                },
            decreases self.stages@.len() - i,
        {
            let mut st = self.stages.remove(i);
            if st.started && !st.ended && st.ticks < u64::MAX {
                st.ticks = st.ticks + 1;
            }
            self.stages.insert(i, st);
            i = i + 1;
        }
    }

    /// Accounts for a batch of `len` records handed to the store: counted on
    /// success, its error recorded otherwise.
    pub fn record_batch(&mut self, s: Stage, len: u64, res: Result<(), String>)
        ensures
            final(self).same_stages(old(self)),
            forall|i: int| 0 <= i < final(self).stages@.len() ==> {
                let (a, b) = (old(self).stages@[i], #[trigger] final(self).stages@[i]);
                &&& b.ticks == a.ticks && b.started == a.started && b.ended == a.ended
                &&& b.count == if a.stage == s && res is Ok { sat_add(a.count, len) } else { a.count }
                &&& b.errors@ == if a.stage == s && res is Err { a.errors@.push(res->Err_0) } else { a.errors@ }
            },
    {
        match res {
            Ok(()) => self.add(s, len),
            Err(e) => self.push_err(s, e),
        }
    }
}

} // verus!
