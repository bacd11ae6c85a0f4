//! Lamport clocks.
use crate::text;
use crate::text::Relation;
use vstd::prelude::*;

verus! {

/// The logical time of an entry, with the identifier of whoever keeps it.
#[derive(Debug)]
pub struct LamportClock {
    pub id: String,
    pub time: i32,
}

/// The model of a clock.
pub struct ClockModel {
    pub id: Seq<char>,
    pub time: int,
}

impl View for LamportClock {
    type V = ClockModel;

    open spec fn view(&self) -> ClockModel {
        ClockModel { id: self.id@, time: self.time as int }
    }
}

/// The order of clocks: by time, then by identifier.
pub open spec fn clock_relation(a: ClockModel, b: ClockModel) -> Relation {
    if a.time < b.time {
        Relation::Before
    } else if a.time > b.time {
        Relation::After
    } else {
        text::text_relation(a.id, b.id)
    }
}

impl LamportClock {
    /// A clock at time zero.
    pub fn new(id: &str) -> (r: LamportClock)
        ensures
            r@ == (ClockModel { id: id@, time: 0 }),
    {
        LamportClock { id: text::owned(id), time: 0 }
    }

    /// The clock's identifier.
    pub fn id(&self) -> (r: &str)
        ensures
            r@ == self@.id,
    {
        self.id.as_str()
    }

    /// The clock's time.
    pub fn time(&self) -> (r: i32)
        ensures
            r == self@.time,
    {
        self.time
    }

    /// How two clocks are ordered.
    pub fn relate(&self, other: &LamportClock) -> (r: Relation)
        ensures
            r == clock_relation(self@, other@),
    {
        if self.time < other.time {
            Relation::Before
        } else if self.time > other.time {
            Relation::After
        } else {
            text::relate(self.id.as_str(), other.id.as_str())
        }
    }
}

impl Clone for LamportClock {
    fn clone(&self) -> (r: Self)
        ensures
            r@ == self@,
    {
        LamportClock { id: self.id.clone(), time: self.time }
    }
}

/// The clock with the smaller time comes first, and of two at the same time the one with the
/// smaller identifier.
pub proof fn lemma_order_of_clocks(a: &LamportClock, b: &LamportClock, r: Relation)
    requires
        call_ensures(LamportClock::relate, (a, b), r),
    ensures
        r == Relation::Before <==> a.time < b.time || (a.time == b.time && text::text_lt(
            a.id@,
            b.id@,
        )),
        r == Relation::Same <==> a.time == b.time && a.id@ == b.id@,
{
    text::lemma_text_lt_irreflexive(a.id@);
}

} // verus!
