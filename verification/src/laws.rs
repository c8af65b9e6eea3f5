//! Properties that hold of every stack built through the public
//! constructors: what its frames are, which snapshot it carries, how it
//! renders, and what `contains` observes.

use vstd::prelude::*;

use crate::costs::cost_of;
use crate::flamegraph::all_ok;
use crate::flamegraph::stacks_ok_for;
use crate::num::dec_of;
use crate::stack::added_stack;
use crate::stack::has_entry;
use crate::stack::joined;
use crate::stack::line_of;
use crate::stack::new_stack;
use crate::stack::renders_ok;
use crate::stack::EntryV;
use crate::stack::StackV;

verus! {

/// One recorded extension of a stack: the arguments of one `add` call.
pub struct AddOp {
    pub label: Seq<char>,
    pub costs: Seq<(Seq<char>, u64)>,
    pub is_inline: bool,
}

/// The frame one extension appends.
pub open spec fn op_entry(op: AddOp) -> EntryV {
    EntryV { label: op.label, is_inline: op.is_inline }
}

/// The stack after the extensions in `ops`, applied in order.
pub open spec fn apply_adds(s: StackV, ops: Seq<AddOp>) -> StackV
    decreases ops.len(),
{
    if ops.len() == 0 {
        s
    } else {
        added_stack(
            apply_adds(s, ops.drop_last()),
            ops.last().label,
            ops.last().costs,
            ops.last().is_inline,
        )
    }
}

/// A stack built by `new` and then any sequence of `add` calls holds the
/// initial frame followed by the appended frames in call order, and carries
/// the snapshot supplied by the most recent call alone — never a sum across
/// calls.
pub proof fn lemma_built_stack(
    label: Seq<char>,
    costs: Seq<(Seq<char>, u64)>,
    is_inline: bool,
    ops: Seq<AddOp>,
)
    ensures
        ({
            let s = apply_adds(new_stack(label, costs, is_inline), ops);
            s.entries == seq![EntryV { label, is_inline }] + ops.map_values(
                |op: AddOp| op_entry(op),
            ) && s.costs == (if ops.len() == 0 {
                costs
            } else {
                ops.last().costs
            })
        }),
    decreases ops.len(),
{
    let f = |op: AddOp| op_entry(op);
    let s = apply_adds(new_stack(label, costs, is_inline), ops);
    if ops.len() == 0 {
        assert(s.entries =~= seq![EntryV { label, is_inline }] + ops.map_values(f));
    } else {
        lemma_built_stack(label, costs, is_inline, ops.drop_last());
        assert(ops.drop_last().map_values(f).push(f(ops.last())) =~= ops.map_values(f));
        assert(s.entries =~= seq![EntryV { label, is_inline }] + ops.map_values(f));
    }
}

/// Rendering a built stack for `ev` succeeds exactly when the most recent
/// snapshot records a cost for `ev`, and then yields the frames joined by
/// `;` in insertion order — each bracketed iff its inline flag is set —
/// followed by one space and that cost in decimal.
pub proof fn lemma_built_stack_renders(
    label: Seq<char>,
    costs: Seq<(Seq<char>, u64)>,
    is_inline: bool,
    ops: Seq<AddOp>,
    ev: Seq<char>,
)
    ensures
        ({
            let s = apply_adds(new_stack(label, costs, is_inline), ops);
            let last_costs = if ops.len() == 0 {
                costs
            } else {
                ops.last().costs
            };
            renders_ok(s, ev) == (cost_of(last_costs, ev) is Some) && (cost_of(last_costs, ev)
                matches Some(c) ==> line_of(s, ev) == joined(s.entries) + seq![' '] + dec_of(
                c as nat,
            ))
        }),
{
    lemma_built_stack(label, costs, is_inline, ops);
}

/// On a built stack, `contains(l, b)` observes exactly whether the pair
/// `(l, b)` was the initial frame or was appended by some `add` call,
/// however many other frames exist.
pub proof fn lemma_contains_built(
    label: Seq<char>,
    costs: Seq<(Seq<char>, u64)>,
    is_inline: bool,
    ops: Seq<AddOp>,
    l: Seq<char>,
    b: bool,
)
    ensures
        ({
            let s = apply_adds(new_stack(label, costs, is_inline), ops);
            has_entry(s.entries, l, b) <==> ((l == label && b == is_inline) || exists|i: int|
                0 <= i < ops.len() && (#[trigger] ops[i]).label == l && ops[i].is_inline == b)
        }),
{
    lemma_built_stack(label, costs, is_inline, ops);
    let s = apply_adds(new_stack(label, costs, is_inline), ops);
    let entries = s.entries;
    if has_entry(entries, l, b) {
        let i = choose|i: int|
            0 <= i < entries.len() && (#[trigger] entries[i]).label == l && entries[i].is_inline
                == b;
        if i == 0 {
            assert(l == label && b == is_inline);
        } else {
            assert(ops[i - 1].label == l && ops[i - 1].is_inline == b);
        }
    }
    if l == label && b == is_inline {
        assert(entries[0].label == l && entries[0].is_inline == b);
        assert(has_entry(entries, l, b));
    } else if exists|i: int|
        0 <= i < ops.len() && (#[trigger] ops[i]).label == l && ops[i].is_inline == b {
        let i = choose|i: int|
            0 <= i < ops.len() && (#[trigger] ops[i]).label == l && ops[i].is_inline == b;
        assert(entries[i + 1].label == l && entries[i + 1].is_inline == b);
        assert(has_entry(entries, l, b));
    }
}


/// Requesting an event type for which some framed path has no recorded
/// cost leaves the whole request unrenderable: no event type of it is
/// delivered, the render call fails instead. A path without frames renders
/// as an empty, costless line and is exempt.
pub proof fn lemma_missing_metric_aborts(
    types: Seq<Seq<char>>,
    stacks: Seq<StackV>,
    k: int,
    j: int,
)
    requires
        0 <= k < types.len(),
        0 <= j < stacks.len(),
        stacks[j].entries.len() > 0,
        cost_of(stacks[j].costs, types[k]) is None,
    ensures
        !stacks_ok_for(stacks, types[k]),
        !all_ok(types, stacks),
{
    assert(!renders_ok(stacks[j], types[k]));
}

} // verus!
