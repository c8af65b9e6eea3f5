//! One materialized call path: its frames, root first, and the cost snapshot
//! attributed to it, together with its collapsed-line rendering.

use vstd::prelude::*;
use vstd::string::StrSliceExecFns;
use vstd::string::StringExecFns;

use crate::costs::cost_of;
use crate::costs::Costs;
use crate::costs::EventType;
use crate::error::FlamegraphError;
use crate::num::dec_of;
use crate::num::u64_string;

verus! {

/// One call frame: its label and whether the compiler inlined it.
/// Immutable once constructed.
pub struct StackEntry {
    value: String,
    is_inline: bool,
}

/// Ghost description of one call frame.
#[verifier::ext_equal]
pub struct EntryV {
    pub label: Seq<char>,
    pub is_inline: bool,
}

impl View for StackEntry {
    type V = EntryV;

    closed spec fn view(&self) -> EntryV {
        EntryV { label: self.value@, is_inline: self.is_inline }
    }
}

impl Clone for StackEntry {
    fn clone(&self) -> (r: Self)
        ensures
            r@ == self@,
    {
        StackEntry { value: self.value.clone(), is_inline: self.is_inline }
    }
}

/// The collapsed rendering of one frame: `[label]` when the frame is
/// inlined, the bare label otherwise.
pub open spec fn render_entry(e: EntryV) -> Seq<char> {
    if e.is_inline {
        seq!['['] + e.label + seq![']']
    } else {
        e.label
    }
}

/// Frame renderings joined by `;`, root first.
pub open spec fn joined(entries: Seq<EntryV>) -> Seq<char>
    decreases entries.len(),
{
    if entries.len() == 0 {
        Seq::empty()
    } else if entries.len() == 1 {
        render_entry(entries[0])
    } else {
        joined(entries.drop_last()) + seq![';'] + render_entry(entries.last())
    }
}

/// One collapsed stack line: the joined frames, one space, the decimal cost.
pub open spec fn folded_line(entries: Seq<EntryV>, cost: u64) -> Seq<char> {
    joined(entries) + seq![' '] + dec_of(cost as nat)
}

/// Whether `entries` holds a frame with exactly this label and inline flag.
pub open spec fn has_entry(entries: Seq<EntryV>, label: Seq<char>, is_inline: bool) -> bool {
    exists|i: int|
        0 <= i < entries.len() && (#[trigger] entries[i]).label == label && entries[i].is_inline
            == is_inline
}

/// Ghost description of a stack: its frames and its cost snapshot.
#[verifier::ext_equal]
pub struct StackV {
    pub entries: Seq<EntryV>,
    pub costs: Seq<(Seq<char>, u64)>,
}

/// The stack produced by the singleton constructor.
pub open spec fn new_stack(label: Seq<char>, costs: Seq<(Seq<char>, u64)>, is_inline: bool) -> StackV {
    StackV { entries: seq![EntryV { label, is_inline }], costs }
}

/// The stack produced by appending one frame to `s` and replacing its cost
/// snapshot (last write wins, never a sum).
pub open spec fn added_stack(
    s: StackV,
    label: Seq<char>,
    costs: Seq<(Seq<char>, u64)>,
    is_inline: bool,
) -> StackV {
    StackV { entries: s.entries.push(EntryV { label, is_inline }), costs }
}

/// Whether rendering `s` for `ev` succeeds: a stack without frames renders
/// as an empty line, any other stack needs a cost recorded for `ev`.
pub open spec fn renders_ok(s: StackV, ev: Seq<char>) -> bool {
    s.entries.len() == 0 || cost_of(s.costs, ev) is Some
}

/// The text line rendering `s` for `ev` produces when it succeeds.
pub open spec fn line_of(s: StackV, ev: Seq<char>) -> Seq<char> {
    if s.entries.len() == 0 {
        Seq::empty()
    } else {
        folded_line(s.entries, cost_of(s.costs, ev)->Some_0)
    }
}

/// An ordered root-to-leaf call path and the cost snapshot of its most
/// recent extension.
pub struct Stack {
    pub entries: Vec<StackEntry>,
    pub costs: Costs,
}

impl View for Stack {
    type V = StackV;

    open spec fn view(&self) -> StackV {
        StackV {
            entries: self.entries@.map_values(|e: StackEntry| e@),
            costs: self.costs@,
        }
    }
}

fn render_entry_string(e: &StackEntry) -> (r: String)
    ensures
        r@ == render_entry(e@),
{
    if e.is_inline {
        let mut r = "[".to_owned();
        r.append(e.value.as_str());
        r.append("]");
        proof {
            reveal_strlit("[");
            reveal_strlit("]");
            assert(r@ =~= seq!['['] + e.value@ + seq![']']);
        }
        r
    } else {
        e.value.clone()
    }
}

impl Stack {
    /// A singleton path holding one frame and the supplied cost snapshot.
    pub fn new(item: &str, costs: Costs, is_inline: bool) -> (r: Self)
        ensures
            r@ == new_stack(item@, costs@, is_inline),
    {
        let mut entries: Vec<StackEntry> = Vec::new();
        entries.push(StackEntry { value: item.to_owned(), is_inline });
        let r = Stack { entries, costs };
        proof {
            assert(r@.entries =~= seq![EntryV { label: item@, is_inline }]);
            assert(r@ =~= new_stack(item@, costs@, is_inline));
        }
        r
    }

    /// Appends one frame and overwrites the cost snapshot with the supplied
    /// one; the previous snapshot is dropped, not summed into.
    pub fn add(&mut self, item: &str, costs: Costs, is_inline: bool)
        ensures
            final(self)@ == added_stack(old(self)@, item@, costs@, is_inline),
    {
        self.entries.push(StackEntry { value: item.to_owned(), is_inline });
        self.costs = costs;
        proof {
            assert(self@.entries =~= old(self)@.entries.push(
                EntryV { label: item@, is_inline },
            ));
            assert(self@ =~= added_stack(old(self)@, item@, costs@, is_inline));
        }
    }

    /// Whether some frame of this path has exactly this label and inline
    /// flag; used to detect recursive self-reference before extending a path.
    pub fn contains(&self, item: &str, is_inline: bool) -> (r: bool)
        ensures
            r == has_entry(self@.entries, item@, is_inline),
    {
        let needle = item.to_owned();
        let n = self.entries.len();
        let mut i: usize = 0;
        while i < n
            invariant
                n == self.entries.len(),
                i <= n,
                needle@ == item@,
                forall|j: int|
                    0 <= j < i ==> !((#[trigger] self@.entries[j]).label == item@
                        && self@.entries[j].is_inline == is_inline),
            decreases n - i,
        {
            let e = &self.entries[i];
            proof {
                assert(self@.entries[i as int] == self.entries@[i as int]@);
            }
            if e.is_inline == is_inline && e.value.eq(&needle) {
                proof {
                    assert(self@.entries[i as int].label == item@);
                }
                return true;
            }
            i = i + 1;
        }
        false
    }

    /// Renders this path as one collapsed line for `event_type`: the frames
    /// joined by `;` root first, then one space and the cost recorded for
    /// `event_type`. Fails when the snapshot holds no cost for it; a path
    /// without frames renders as the empty line.
    pub fn to_string(&self, event_type: &EventType) -> (r: Result<String, FlamegraphError>)
        ensures
            r is Ok <==> renders_ok(self@, event_type@),
            r matches Ok(line) ==> line@ == line_of(self@, event_type@),
            !renders_ok(self@, event_type@) ==> (r matches Err(FlamegraphError::MissingMetric(ev))
                && ev@ == event_type@),
    {
        let n = self.entries.len();
        if n == 0 {
            let r = String::new();
            return Ok(r);
        }
        let mut line = render_entry_string(&self.entries[0]);
        proof {
            assert(self@.entries.take(1) =~= seq![self@.entries[0]]);
        }
        let mut i: usize = 1;
        while i < n
            invariant
                n == self.entries.len(),
                1 <= i <= n,
                line@ == joined(self@.entries.take(i as int)),
            decreases n - i,
        {
            line.append(";");
            let part = render_entry_string(&self.entries[i]);
            line.append(part.as_str());
            proof {
                reveal_strlit(";");
                let pre = self@.entries.take(i as int);
                let cur = self@.entries.take(i as int + 1);
                assert(cur.drop_last() =~= pre);
                assert(cur.last() == self@.entries[i as int]);
                assert(line@ =~= joined(cur));
            }
            i = i + 1;
        }
        proof {
            assert(self@.entries.take(n as int) =~= self@.entries);
        }
        match self.costs.cost_by_type(event_type) {
            Some(cost) => {
                line.append(" ");
                let num = u64_string(cost);
                line.append(num.as_str());
                proof {
                    reveal_strlit(" ");
                    assert(line@ =~= folded_line(self@.entries, cost));
                }
                Ok(line)
            },
            None => Err(FlamegraphError::MissingMetric(event_type.name.clone())),
        }
    }
}

impl Clone for Stack {
    fn clone(&self) -> (r: Self)
        ensures
            r@ == self@,
    {
        let mut entries: Vec<StackEntry> = Vec::new();
        let mut i: usize = 0;
        while i < self.entries.len()
            invariant
                i <= self.entries.len(),
                entries@.len() == i,
                forall|j: int| 0 <= j < i ==> (#[trigger] entries@[j])@ == self.entries@[j]@,
            decreases self.entries.len() - i,
        {
            let e = self.entries[i].clone();
            entries.push(e);
            i = i + 1;
        }
        let r = Stack { entries, costs: self.costs.clone() };
        proof {
            assert(r@.entries =~= self@.entries);
            assert(r@ =~= self@);
        }
        r
    }
}

} // verus!
