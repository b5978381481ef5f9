//! The unit of work that flows through the pipeline, and what each stage
//! does to it.

use vstd::prelude::*;
use vstd::multiset::Multiset;

verus! {

/// A record: its id, the value the stages compute for it, and whether it
/// has already gone round the feedback path once.
#[derive(Debug, Clone, Copy, PartialEq, Eq, Structural)]
pub struct Record {
    pub id: u32,
    pub value: u64,
    pub retried: bool,
}

/// The value a fully processed record carries: stage 1 doubles the id and
/// stage 2 adds one.
pub open spec fn checksum(id: u32) -> u64 {
    (2 * id + 1) as u64
}

/// The value a record carries after stage 1.
pub open spec fn stamped(id: u32) -> u64 {
    (2 * id) as u64
}

/// Stage 2 sends a record back to stage 1 once when its id is a multiple of
/// `every`; an `every` of zero sends nothing back.
pub open spec fn needs_feedback(r: Record, every: u32) -> bool {
    every != 0 && r.id % every == 0 && !r.retried
}

/// The ids of a sequence of records, with multiplicity.
pub open spec fn ids(s: Seq<Record>) -> Multiset<u32>
    decreases s.len(),
{
    if s.len() == 0 {
        Multiset::empty()
    } else {
        ids(s.drop_last()).insert(s.last().id)
    }
}

impl Record {
    /// A fresh record, as the producer makes it.
    pub fn new(id: u32) -> (r: Record)
        ensures
            r.id == id,
            r.value == 0,
            !r.retried,
    {
        Record { id, value: 0, retried: false }
    }

    /// The integrity check of one record: its value is the checksum of its id.
    pub fn is_valid(&self) -> (r: bool)
        ensures
            r == (self.value == checksum(self.id)),
    {
        self.value == 2 * (self.id as u64) + 1
    }
}

/// Whether stage 2 sends `r` back to stage 1.
pub fn route_back(r: &Record, every: u32) -> (b: bool)
    ensures
        b == needs_feedback(*r, every),
{
    every != 0 && r.id % every == 0 && !r.retried
}

/// Stage 1's work on a record: stamp its value from its id. Doing it again
/// on a record that came back changes nothing.
pub fn stage1_process(r: Record) -> (o: Record)
    ensures
        o.id == r.id,
        o.retried == r.retried,
        o.value == stamped(r.id),
{
    Record { value: 2 * (r.id as u64), ..r }
}

/// Stage 2's work on a record it forwards: seal the stamped value.
pub fn stage2_finish(r: Record) -> (o: Record)
    requires
        r.value == stamped(r.id),
    ensures
        o.id == r.id,
        o.retried == r.retried,
        o.value == checksum(r.id),
{
    Record { value: r.value + 1, ..r }
}

/// Stage 2's mark on a record it sends back.
pub fn mark_retried(r: Record) -> (o: Record)
    ensures
        o == (Record { retried: true, ..r }),
{
    Record { retried: true, ..r }
}

} // verus!
