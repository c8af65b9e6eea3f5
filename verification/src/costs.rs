//! Event types and the per-node cost snapshot consumed by stack rendering.
//!
//! A cost snapshot maps event-type identifiers to numeric costs; a lookup
//! distinguishes absence from a recorded zero.

use vstd::prelude::*;

verus! {

/// Identifier of a performance metric (an event type) for which a cost is
/// recorded and a flamegraph may be produced.
pub struct EventType {
    pub name: String,
}

impl View for EventType {
    type V = Seq<char>;

    open spec fn view(&self) -> Seq<char> {
        self.name@
    }
}

impl EventType {
    pub fn new(name: String) -> (r: EventType)
        ensures
            r@ == name@,
    {
        EventType { name }
    }
}

impl Clone for EventType {
    fn clone(&self) -> (r: Self)
        ensures
            r@ == self@,
    {
        EventType { name: self.name.clone() }
    }
}

/// The cost recorded for `ev` in the snapshot `cs`: the value of the most
/// recently inserted pair with that event type, `None` when there is none.
pub open spec fn cost_of(cs: Seq<(Seq<char>, u64)>, ev: Seq<char>) -> Option<u64>
    decreases cs.len(),
{
    if cs.len() == 0 {
        None
    } else if cs.last().0 == ev {
        Some(cs.last().1)
    } else {
        cost_of(cs.drop_last(), ev)
    }
}

/// A cost snapshot: the numeric cost recorded for each event type at one
/// call-tree node. Later insertions of an event type shadow earlier ones.
pub struct Costs {
    pub costs: Vec<(EventType, u64)>,
}

impl View for Costs {
    type V = Seq<(Seq<char>, u64)>;

    open spec fn view(&self) -> Seq<(Seq<char>, u64)> {
        self.costs@.map_values(|p: (EventType, u64)| (p.0@, p.1))
    }
}

impl Costs {
    /// An empty snapshot: no event type has a cost.
    pub fn new() -> (r: Costs)
        ensures
            r@ == Seq::<(Seq<char>, u64)>::empty(),
    {
        let r = Costs { costs: Vec::new() };
        proof {
            assert(r@ =~= Seq::<(Seq<char>, u64)>::empty());
        }
        r
    }

    /// Records `cost` for `event`, shadowing any earlier value.
    pub fn insert(&mut self, event: EventType, cost: u64)
        ensures
            final(self)@ == old(self)@.push((event@, cost)),
    {
        let ghost ev = event@;
        self.costs.push((event, cost));
        proof {
            assert(self@ =~= old(self)@.push((ev, cost)));
        }
    }

    /// Looks the cost for `event_type` up; absence is distinct from zero.
    pub fn cost_by_type(&self, event_type: &EventType) -> (r: Option<u64>)
        ensures
            r == cost_of(self@, event_type@),
    {
        let mut i: usize = self.costs.len();
        proof {
            assert(self@.take(i as int) =~= self@);
        }
        while i > 0
            invariant
                i <= self.costs.len(),
                cost_of(self@, event_type@) == cost_of(self@.take(i as int), event_type@),
            decreases i,
        {
            let p = &self.costs[i - 1];
            if p.0.name == event_type.name {
                proof {
                    assert(self@.take(i as int).last() == (p.0@, p.1));
                }
                return Some(p.1);
            }
            proof {
                assert(self@.take(i as int).last() == (p.0@, p.1));
                assert(self@.take(i as int).drop_last() =~= self@.take(i as int - 1));
            }
            i = i - 1;
        }
        proof {
            assert(self@.take(0) =~= Seq::<(Seq<char>, u64)>::empty());
        }
        None
    }
}

impl Clone for Costs {
    fn clone(&self) -> (r: Self)
        ensures
            r@ == self@,
    {
        let mut v: Vec<(EventType, u64)> = Vec::new();
        let mut i: usize = 0;
        while i < self.costs.len()
            invariant
                i <= self.costs.len(),
                v@.len() == i,
                forall|j: int|
                    0 <= j < i ==> (#[trigger] v@[j]).0@ == self.costs@[j].0@ && v@[j].1
                        == self.costs@[j].1,
            decreases self.costs.len() - i,
        {
            let p = &self.costs[i];
            let event = p.0.clone();
            v.push((event, p.1));
            i = i + 1;
        }
        let r = Costs { costs: v };
        proof {
            assert(r@ =~= self@);
        }
        r
    }
}

} // verus!
