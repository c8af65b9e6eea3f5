//! The ordered collection of all materialized call paths of one benchmark
//! run, with the incremental primitive a tree-walking driver calls once per
//! visited node.

use vstd::prelude::*;

use crate::costs::Costs;
use crate::stack::added_stack;
use crate::stack::new_stack;
use crate::stack::Stack;
use crate::stack::StackV;

verus! {

/// All materialized paths, in visitation order. Duplicate paths are kept;
/// any aggregation is left to the rendering engine.
pub struct Stacks(pub Vec<Stack>);

impl View for Stacks {
    type V = Seq<StackV>;

    open spec fn view(&self) -> Seq<StackV> {
        self.0@.map_values(|s: Stack| s@)
    }
}

impl Stacks {
    /// A collection holding no paths yet.
    pub fn new() -> (r: Stacks)
        ensures
            r@ == Seq::<StackV>::empty(),
    {
        let r = Stacks(Vec::new());
        proof {
            assert(r@ =~= Seq::<StackV>::empty());
        }
        r
    }

    /// Whether no path has been collected.
    pub fn is_empty(&self) -> (r: bool)
        ensures
            r == (self@.len() == 0),
    {
        self.0.is_empty()
    }

    /// Appends a fully built path verbatim.
    pub fn push(&mut self, value: Stack)
        ensures
            final(self)@ == old(self)@.push(value@),
    {
        let ghost v = value@;
        self.0.push(value);
        proof {
            assert(self@ =~= old(self)@.push(v));
        }
    }

    /// Visits one call-tree node: materializes the path through it and
    /// appends it. With `base` given, the new path copies `base`'s frames,
    /// appends the new frame, and carries the newly supplied snapshot —
    /// `base` itself is never touched and shares nothing with the result.
    /// Without `base` the new path is a fresh singleton.
    pub fn add(&mut self, item: &str, costs: Costs, is_inline: bool, base: Option<&Stack>)
        ensures
            (match base {
                Some(b) => final(self)@ == old(self)@.push(
                    added_stack(b@, item@, costs@, is_inline),
                ),
                None => final(self)@ == old(self)@.push(new_stack(item@, costs@, is_inline)),
            }),
    {
        let stack = match base {
            Some(last) => {
                let mut stack = last.clone();
                stack.add(item, costs, is_inline);
                stack
            },
            None => Stack::new(item, costs, is_inline),
        };
        self.push(stack);
    }

    /// The collected paths, for read-only forward traversal.
    pub fn iter(&self) -> (r: &Vec<Stack>)
        ensures
            r@.map_values(|s: Stack| s@) == self@,
    {
        &self.0
    }

    /// The most recently appended path, if any; a driver resuming a subtree
    /// walk fetches the parent path from here.
    pub fn last(&self) -> (r: Option<&Stack>)
        ensures
            (match r {
                Some(s) => self@.len() > 0 && s@ == self@.last(),
                None => self@.len() == 0,
            }),
    {
        let n = self.0.len();
        if n == 0 {
            None
        } else {
            Some(&self.0[n - 1])
        }
    }
}

} // verus!
