//! The bounded log of player commands and their outcomes.
use vstd::prelude::*;

verus! {

/// How many records a log keeps.
pub const RECORD_LIMIT: usize = 256;

/// The most recent records, oldest first, at most `RECORD_LIMIT` of them, and
/// how many older records were dropped to make room (saturating).
pub struct Recording<T> {
    records: Vec<T>,
    dropped: u64,
}

impl<T> Recording<T> {
    pub closed spec fn spec_records(&self) -> Seq<T> {
        self.records@
    }

    pub closed spec fn spec_dropped(&self) -> u64 {
        self.dropped
    }

    /// A log keeps at most `RECORD_LIMIT` records.
    pub closed spec fn wf(&self) -> bool {
        self.records@.len() <= RECORD_LIMIT
    }

    /// An empty log that has dropped nothing.
    pub fn new() -> (r: Self)
        ensures
            r.wf(),
            r.spec_records().len() == 0,
            r.spec_dropped() == 0,
    {
        Recording { records: Vec::new(), dropped: 0 }
    }

    /// Appends a record; a full log first drops its oldest record and counts
    /// it, the count saturating.
    pub fn push(&mut self, record: T)
        requires
            old(self).wf(),
        ensures
            final(self).wf(),
            old(self).spec_records().len() < RECORD_LIMIT ==> final(self).spec_records() == old(
                self,
            ).spec_records().push(record) && final(self).spec_dropped() == old(self).spec_dropped(),
            old(self).spec_records().len() == RECORD_LIMIT ==> final(self).spec_records() == old(
                self,
            ).spec_records().drop_first().push(record) && final(self).spec_dropped() == if old(self).spec_dropped()
                == u64::MAX {
                u64::MAX
            } else {
                (old(self).spec_dropped() + 1) as u64
            },
    {
        if self.records.len() == RECORD_LIMIT {
            let ghost before = self.records@;
            self.records.remove(0);
            proof {
                assert(self.records@ =~= before.drop_first());
            }
            self.dropped = self.dropped.saturating_add(1);
        }
        self.records.push(record);
    }

    /// The records kept, oldest first.
    pub fn records(&self) -> (r: &Vec<T>)
        ensures
            r@ == self.spec_records(),
    {
        &self.records
    }

    /// How many records were dropped.
    pub fn dropped(&self) -> (r: u64)
        ensures
            r == self.spec_dropped(),
    {
        self.dropped
    }
}

} // verus!
