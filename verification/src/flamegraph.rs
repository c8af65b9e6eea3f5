//! One-shot flamegraph render requests: for each requested event type, every
//! collected path is serialized to its collapsed line and the line set is
//! handed to the external rendering engine, which produces one complete SVG
//! per event type.

use vstd::prelude::*;

use crate::costs::EventType;
use crate::error::FlamegraphError;
use crate::num::dec_of;
use crate::num::lemma_dec_of_digits;
use crate::num::lemma_dec_of_injective;
use crate::stack::folded_line;
use crate::stack::joined;
use crate::stack::line_of;
use crate::stack::renders_ok;
use crate::stack::EntryV;
use crate::stack::StackV;
use crate::stacks::Stacks;

verus! {

/// Whether every collected path renders for `ev`.
pub open spec fn stacks_ok_for(stacks: Seq<StackV>, ev: Seq<char>) -> bool {
    forall|i: int| 0 <= i < stacks.len() ==> renders_ok(#[trigger] stacks[i], ev)
}

/// Whether every collected path renders for every requested event type.
pub open spec fn all_ok(types: Seq<Seq<char>>, stacks: Seq<StackV>) -> bool {
    forall|k: int| 0 <= k < types.len() ==> stacks_ok_for(stacks, #[trigger] types[k])
}

/// The first requested event type, in the order given, for which some
/// collected path has no recorded cost.
pub open spec fn first_missing_type(
    types: Seq<Seq<char>>,
    stacks: Seq<StackV>,
) -> Option<Seq<char>>
    decreases types.len(),
{
    if types.len() == 0 {
        None
    } else if !stacks_ok_for(stacks, types[0]) {
        Some(types[0])
    } else {
        first_missing_type(types.drop_first(), stacks)
    }
}

proof fn lemma_first_missing_at(types: Seq<Seq<char>>, stacks: Seq<StackV>, k: int)
    requires
        0 <= k < types.len(),
        forall|j: int| 0 <= j < k ==> stacks_ok_for(stacks, #[trigger] types[j]),
        !stacks_ok_for(stacks, types[k]),
    ensures
        first_missing_type(types, stacks) == Some(types[k]),
    decreases k,
{
    if k > 0 {
        let rest = types.drop_first();
        assert forall|j: int| 0 <= j < k - 1 implies stacks_ok_for(
            stacks,
            #[trigger] rest[j],
        ) by {
            assert(rest[j] == types[j + 1]);
        }
        assert(rest[k - 1] == types[k]);
        lemma_first_missing_at(rest, stacks, k - 1);
    }
}

/// Whether `line` is a frames part (possibly empty) followed by one space
/// and the decimal rendering of `c` — the shape of every line this library
/// hands to the engine, and the shape whose trailing number the engine
/// counts.
pub open spec fn split_line(line: Seq<char>, frames: Seq<char>, c: u64) -> bool {
    line == frames + seq![' '] + dec_of(c as nat)
}

/// Whether `line` is empty or has the frames-space-count shape.
pub open spec fn splittable(line: Seq<char>) -> bool {
    line.len() == 0 || exists|frames: Seq<char>, c: u64| split_line(line, frames, c)
}

/// A character the engine passes through untouched: printable ASCII other
/// than the space that separates the frames from the count.
pub open spec fn printable(c: char) -> bool {
    32 < (c as u32) && (c as u32) < 127
}

/// Whether `line` is empty or a non-blank, printable frames part followed
/// by one space and a decimal count — a line whose count the engine is sure
/// to take at face value. A frames part of the single character `#` is
/// excluded: its line starts with `# `, which the engine drops as a
/// comment.
pub open spec fn clean_line(line: Seq<char>) -> bool {
    line.len() == 0 || exists|frames: Seq<char>, c: u64|
        split_line(line, frames, c) && frames.len() > 0 && frames != seq!['#'] && (forall|j: int|
            0 <= j < frames.len() ==> printable(#[trigger] frames[j]))
}

/// The count carried by a frames-space-count line, zero for any other.
pub open spec fn line_count(line: Seq<char>) -> int {
    if exists|frames: Seq<char>, c: u64| split_line(line, frames, c) {
        (choose|frames: Seq<char>, c: u64| split_line(line, frames, c)).1 as int
    } else {
        0
    }
}

/// The summed counts of a line set.
pub open spec fn lines_total(lines: Seq<Seq<char>>) -> int
    decreases lines.len(),
{
    if lines.len() == 0 {
        0
    } else {
        lines_total(lines.drop_last()) + line_count(lines.last())
    }
}

/// The character views of a set of line strings.
pub open spec fn views_of(lines: Seq<String>) -> Seq<Seq<char>> {
    lines.map_values(|l: String| l@)
}

/// A line decomposes into frames and count in only one way: the count's
/// digits hold no space, so the separating space is the line's last.
proof fn lemma_split_unique(line: Seq<char>, f1: Seq<char>, c1: u64, f2: Seq<char>, c2: u64)
    requires
        split_line(line, f1, c1),
        split_line(line, f2, c2),
    ensures
        f1 == f2,
        c1 == c2,
{
    lemma_dec_of_digits(c1 as nat);
    lemma_dec_of_digits(c2 as nat);
    let d1 = dec_of(c1 as nat);
    let d2 = dec_of(c2 as nat);
    let l1 = f1 + seq![' '] + d1;
    let l2 = f2 + seq![' '] + d2;
    assert(l1.len() == f1.len() + 1 + d1.len());
    assert(l2.len() == f2.len() + 1 + d2.len());
    if f1.len() < f2.len() {
        let i = f2.len() as int;
        assert(l2[i] == ' ');
        assert(l1[i] == d1[i - f1.len() - 1]);
        assert(false);
    } else if f2.len() < f1.len() {
        let i = f1.len() as int;
        assert(l1[i] == ' ');
        assert(l2[i] == d2[i - f2.len() - 1]);
        assert(false);
    } else {
        assert forall|j: int| 0 <= j < f1.len() implies f1[j] == f2[j] by {
            assert(l1[j] == f1[j]);
            assert(l2[j] == f2[j]);
        }
        assert(f1 =~= f2);
        assert forall|j: int| 0 <= j < d1.len() implies d1[j] == d2[j] by {
            assert(l1[f1.len() + 1 + j] == d1[j]);
            assert(l2[f2.len() + 1 + j] == d2[j]);
        }
        assert(d1 =~= d2);
        lemma_dec_of_injective(c1 as nat, c2 as nat);
    }
}

proof fn lemma_line_count(line: Seq<char>, frames: Seq<char>, c: u64)
    requires
        split_line(line, frames, c),
    ensures
        line_count(line) == c,
{
    let (f2, c2) = choose|f2: Seq<char>, c2: u64| split_line(line, f2, c2);
    lemma_split_unique(line, frames, c, f2, c2);
}

/// A frame label the engine's line handling passes through whole: nonempty
/// printable ASCII without spaces, and not the single character `#` —
/// a path of that one frame renders to a line the engine drops as a
/// comment.
pub open spec fn clean_label(l: Seq<char>) -> bool {
    l.len() > 0 && l != seq!['#'] && forall|j: int|
        0 <= j < l.len() ==> printable(#[trigger] l[j])
}

/// Whether every frame label of `s` is clean.
pub open spec fn clean_stack(s: StackV) -> bool {
    forall|i: int| 0 <= i < s.entries.len() ==> clean_label((#[trigger] s.entries[i]).label)
}

/// Whether every frame label of every collected path is clean.
pub open spec fn clean_stacks(stacks: Seq<StackV>) -> bool {
    forall|i: int| 0 <= i < stacks.len() ==> clean_stack(#[trigger] stacks[i])
}

proof fn lemma_joined_clean(entries: Seq<EntryV>)
    requires
        entries.len() > 0,
        forall|i: int| 0 <= i < entries.len() ==> clean_label((#[trigger] entries[i]).label),
    ensures
        joined(entries).len() > 0,
        joined(entries) != seq!['#'],
        forall|j: int| 0 <= j < joined(entries).len() ==> printable(#[trigger] joined(entries)[j]),
    decreases entries.len(),
{
    if entries.len() == 1 {
        if entries[0].is_inline {
            assert(joined(entries)[0] == '[');
        } else {
            assert(joined(entries) == entries[0].label);
        }
    } else {
        lemma_joined_clean(entries.drop_last());
        assert(joined(entries).len() >= 3);
    }
}

/// The cost one collected path contributes to a type's total: its recorded
/// cost when it has frames and a cost, nothing otherwise.
pub open spec fn stack_count(s: StackV, ev: Seq<char>) -> int {
    if s.entries.len() == 0 {
        0
    } else if crate::costs::cost_of(s.costs, ev) is Some {
        crate::costs::cost_of(s.costs, ev)->Some_0 as int
    } else {
        0
    }
}

/// The summed cost of all collected paths for one event type.
pub open spec fn type_total(stacks: Seq<StackV>, ev: Seq<char>) -> int
    decreases stacks.len(),
{
    if stacks.len() == 0 {
        0
    } else {
        type_total(stacks.drop_last(), ev) + stack_count(stacks.last(), ev)
    }
}

proof fn lemma_type_total_step(stacks: Seq<StackV>, ev: Seq<char>, i: int)
    requires
        0 <= i < stacks.len(),
    ensures
        type_total(stacks.take(i + 1), ev) == type_total(stacks.take(i), ev) + stack_count(
            stacks[i],
            ev,
        ),
{
    assert(stacks.take(i + 1).drop_last() =~= stacks.take(i));
    assert(stacks.take(i + 1).last() == stacks[i]);
}

proof fn lemma_type_total_take_le(stacks: Seq<StackV>, ev: Seq<char>, i: int)
    requires
        0 <= i <= stacks.len(),
    ensures
        type_total(stacks.take(i), ev) <= type_total(stacks, ev),
    decreases stacks.len() - i,
{
    if i == stacks.len() {
        assert(stacks.take(i) =~= stacks);
    } else {
        lemma_type_total_step(stacks, ev, i);
        lemma_type_total_take_le(stacks, ev, i + 1);
    }
}

/// The line a path renders to carries exactly the path's contribution as
/// its count, and is clean when the path's labels are.
proof fn lemma_line_of_counted(s: StackV, ev: Seq<char>)
    requires
        renders_ok(s, ev),
    ensures
        splittable(line_of(s, ev)),
        line_count(line_of(s, ev)) == stack_count(s, ev),
        clean_stack(s) ==> clean_line(line_of(s, ev)),
{
    if s.entries.len() > 0 {
        let c = crate::costs::cost_of(s.costs, ev)->Some_0;
        assert(line_of(s, ev) == folded_line(s.entries, c));
        assert(split_line(line_of(s, ev), joined(s.entries), c));
        lemma_line_count(line_of(s, ev), joined(s.entries), c);
        if clean_stack(s) {
            lemma_joined_clean(s.entries);
        }
    } else {
        assert(line_of(s, ev).len() == 0);
        if exists|frames: Seq<char>, c: u64| split_line(line_of(s, ev), frames, c) {
            let (f, c) = choose|f: Seq<char>, c: u64| split_line(line_of(s, ev), f, c);
            lemma_dec_of_digits(c as nat);
            assert(false);
        }
    }
}

/// A line set that renders a stacks sequence, line by line, carries the
/// type's total as its summed counts.
proof fn lemma_lines_total(stacks: Seq<StackV>, ev: Seq<char>, lines: Seq<Seq<char>>)
    requires
        lines.len() == stacks.len(),
        forall|i: int| 0 <= i < stacks.len() ==> renders_ok(#[trigger] stacks[i], ev),
        forall|i: int| 0 <= i < lines.len() ==> #[trigger] lines[i] == line_of(stacks[i], ev),
    ensures
        lines_total(lines) == type_total(stacks, ev),
        forall|i: int| 0 <= i < lines.len() ==> splittable(#[trigger] lines[i]),
        clean_stacks(stacks) ==> forall|i: int|
            0 <= i < lines.len() ==> clean_line(#[trigger] lines[i]),
    decreases lines.len(),
{
    if lines.len() > 0 {
        let n = lines.len() as int;
        assert forall|i: int| 0 <= i < n - 1 implies #[trigger] lines.drop_last()[i] == line_of(
            stacks.drop_last()[i],
            ev,
        ) by {
            assert(lines.drop_last()[i] == lines[i]);
            assert(stacks.drop_last()[i] == stacks[i]);
        }
        lemma_lines_total(stacks.drop_last(), ev, lines.drop_last());
        lemma_line_of_counted(stacks.last(), ev);
        assert(stacks.last() == stacks[n - 1]);
        assert(lines.last() == line_of(stacks[n - 1], ev));
        assert(lines_total(lines) == lines_total(lines.drop_last()) + line_count(lines.last()));
        assert(type_total(stacks, ev) == type_total(stacks.drop_last(), ev) + stack_count(
            stacks.last(),
            ev,
        ));
        assert forall|i: int| 0 <= i < lines.len() implies splittable(#[trigger] lines[i]) by {
            if i < n - 1 {
                assert(lines[i] == lines.drop_last()[i]);
            } else {
                assert(lines[i] == lines.last());
            }
        }
        if clean_stacks(stacks) {
            assert(clean_stacks(stacks.drop_last()));
            assert forall|i: int| 0 <= i < lines.len() implies clean_line(
                #[trigger] lines[i],
            ) by {
                if i < n - 1 {
                    assert(lines[i] == lines.drop_last()[i]);
                } else {
                    assert(lines[i] == lines.last());
                    assert(clean_stack(stacks[n - 1]));
                }
            }
        }
    }
}

/// Relies on inferno::flamegraph::from_lines, read in its source: with an
/// in-memory writer every write succeeds, the options carry only the given
/// title and count name, and the call fails exactly when the summed counts
/// of its surviving lines are zero ("No stack counts found"); on success an
/// SVG document (never empty) has been written. Empty lines and lines
/// beginning `# ` are dropped as blanks and comments before anything is
/// counted; a line whose frames part is printable, space-free and not the
/// lone character `#` survives with exactly its trailing count. The engine
/// sums counts in a 64-bit counter, so a set whose total exceeds it is not
/// handed over.
#[verifier::external_body]
fn render_svg(title: &String, count_name: &String, lines: &Vec<String>) -> (r: Result<
    Vec<u8>,
    String,
>)
    requires
        forall|i: int| 0 <= i < lines@.len() ==> splittable((#[trigger] lines@[i])@),
        lines_total(views_of(lines@)) <= u64::MAX,
    ensures
        r matches Ok(bytes) ==> bytes@.len() > 0,
        lines_total(views_of(lines@)) == 0 ==> r is Err,
        (forall|i: int| 0 <= i < lines@.len() ==> clean_line((#[trigger] lines@[i])@)) && 0
            < lines_total(views_of(lines@)) ==> r is Ok,
{
    let mut options = inferno::flamegraph::Options::default();
    options.title = title.clone();
    options.count_name = count_name.clone();
    let mut out: Vec<u8> = Vec::new();
    match inferno::flamegraph::from_lines(&mut options, lines.iter().map(|l| l.as_str()), &mut out)
    {
        Ok(()) => Ok(out),
        Err(error) => Err(format!("{error}")),
    }
}

/// An ephemeral render request: the event types to render in order, the
/// title carried into the engine options, and the collected paths.
pub struct Flamegraph {
    pub types: Vec<EventType>,
    pub title: String,
    pub stacks: Stacks,
}

impl Flamegraph {
    /// The requested event-type identifiers, in order.
    pub open spec fn types_view(&self) -> Seq<Seq<char>> {
        self.types@.map_values(|t: EventType| t@)
    }

    /// Serializes every collected path to its collapsed line for
    /// `event_type`, in collection order; fails with the missing-metric
    /// error when some path has no cost recorded for it.
    pub fn lines_for(&self, event_type: &EventType) -> (r: Result<Vec<String>, FlamegraphError>)
        ensures
            r is Ok <==> stacks_ok_for(self.stacks@, event_type@),
            r matches Ok(lines) ==> lines@.len() == self.stacks@.len() && forall|i: int|
                0 <= i < lines@.len() ==> (#[trigger] lines@[i])@ == line_of(
                    self.stacks@[i],
                    event_type@,
                ),
            !stacks_ok_for(self.stacks@, event_type@) ==> (r matches Err(
                FlamegraphError::MissingMetric(ev),
            ) && ev@ == event_type@),
    {
        let mut lines: Vec<String> = Vec::new();
        let n = self.stacks.0.len();
        let mut i: usize = 0;
        while i < n
            invariant
                n == self.stacks.0.len(),
                i <= n,
                lines@.len() == i,
                forall|j: int| 0 <= j < i ==> renders_ok(#[trigger] self.stacks@[j], event_type@),
                forall|j: int|
                    0 <= j < i ==> (#[trigger] lines@[j])@ == line_of(
                        self.stacks@[j],
                        event_type@,
                    ),
            decreases n - i,
        {
            proof {
                assert(self.stacks@[i as int] == self.stacks.0@[i as int]@);
            }
            let stack = &self.stacks.0[i];
            match stack.to_string(event_type) {
                Ok(line) => lines.push(line),
                Err(e) => {
                    return Err(e);
                },
            }
            i = i + 1;
        }
        Ok(lines)
    }

    /// The summed cost of all collected paths for `event_type`, `None` when
    /// it does not fit the engine's 64-bit counter. A path without frames,
    /// or without a cost for the type, contributes nothing.
    fn total_cost(&self, event_type: &EventType) -> (r: Option<u64>)
        ensures
            (match r {
                Some(t) => t as int == type_total(self.stacks@, event_type@),
                None => type_total(self.stacks@, event_type@) > u64::MAX,
            }),
    {
        let mut total: u64 = 0;
        let n = self.stacks.0.len();
        proof {
            assert(self.stacks@.take(0) =~= Seq::<StackV>::empty());
        }
        let mut i: usize = 0;
        while i < n
            invariant
                n == self.stacks.0.len(),
                i <= n,
                total as int == type_total(self.stacks@.take(i as int), event_type@),
            decreases n - i,
        {
            proof {
                assert(self.stacks@[i as int] == self.stacks.0@[i as int]@);
                lemma_type_total_step(self.stacks@, event_type@, i as int);
            }
            let stack = &self.stacks.0[i];
            if stack.entries.len() > 0 {
                match stack.costs.cost_by_type(event_type) {
                    Some(c) => {
                        if c > u64::MAX - total {
                            proof {
                                lemma_type_total_take_le(self.stacks@, event_type@, i as int + 1);
                            }
                            return None;
                        }
                        total = total + c;
                    },
                    None => {},
                }
            }
            i = i + 1;
        }
        proof {
            assert(self.stacks@.take(n as int) =~= self.stacks@);
        }
        Some(total)
    }

    /// Renders the whole request. With no collected paths this is a success
    /// that produces nothing — the destination is not to be touched.
    /// Otherwise, for each event type in order: every path is serialized
    /// (a missing metric aborts the whole call) and the engine renders the
    /// line set into one complete SVG of its own, so that each event type
    /// can land in a destination of its own. Success is owed — and the
    /// engine delivers one non-empty document per type — whenever every
    /// requested metric is recorded, every frame label is clean (printable,
    /// space-free ASCII, not the engine's `#` comment marker alone), and
    /// every type's total cost is positive and fits
    /// the engine's 64-bit counter; a zero total for some type makes the
    /// engine reject that type's render instead.
    pub fn create(&self) -> (r: Result<Option<Vec<Vec<u8>>>, FlamegraphError>)
        ensures
            self.stacks@.len() == 0 <==> r == Ok::<Option<Vec<Vec<u8>>>, FlamegraphError>(None),
            r matches Ok(Some(outs)) ==> all_ok(self.types_view(), self.stacks@) && outs@.len()
                == self.types_view().len() && forall|k: int|
                0 <= k < outs@.len() ==> (#[trigger] outs@[k])@.len() > 0,
            self.stacks@.len() > 0 && !all_ok(self.types_view(), self.stacks@) ==> r is Err,
            r matches Err(e) ==> (e matches FlamegraphError::MissingMetric(_) || e matches
                FlamegraphError::RenderFailed(_)),
            r matches Err(FlamegraphError::MissingMetric(ev)) ==> first_missing_type(
                self.types_view(),
                self.stacks@,
            ) == Some(ev@),
            self.stacks@.len() > 0 && self.types_view().len() > 0 && !stacks_ok_for(
                self.stacks@,
                self.types_view()[0],
            ) ==> (r matches Err(FlamegraphError::MissingMetric(ev)) && ev@
                == self.types_view()[0]),
            self.stacks@.len() > 0 && all_ok(self.types_view(), self.stacks@) && clean_stacks(
                self.stacks@,
            ) && (forall|k: int|
                0 <= k < self.types_view().len() ==> 0 < type_total(
                    self.stacks@,
                    #[trigger] self.types_view()[k],
                ) <= u64::MAX) ==> r matches Ok(Some(_)),
            self.stacks@.len() > 0 && all_ok(self.types_view(), self.stacks@) && clean_stacks(
                self.stacks@,
            ) && (forall|k: int|
                0 <= k < self.types_view().len() ==> type_total(
                    self.stacks@,
                    #[trigger] self.types_view()[k],
                ) <= u64::MAX) && (exists|k: int|
                0 <= k < self.types_view().len() && type_total(
                    self.stacks@,
                    #[trigger] self.types_view()[k],
                ) == 0) ==> r matches Err(FlamegraphError::RenderFailed(_)),
    {
        if self.stacks.is_empty() {
            return Ok(None);
        }
        let mut outs: Vec<Vec<u8>> = Vec::new();
        let m = self.types.len();
        let mut k: usize = 0;
        while k < m
            invariant
                m == self.types.len(),
                k <= m,
                self.stacks@.len() > 0,
                outs@.len() == k,
                forall|j: int| 0 <= j < k ==> (#[trigger] outs@[j])@.len() > 0,
                forall|j: int|
                    0 <= j < k ==> stacks_ok_for(self.stacks@, #[trigger] self.types_view()[j]),
                forall|j: int|
                    0 <= j < k ==> type_total(self.stacks@, #[trigger] self.types_view()[j]) != 0,
            decreases m - k,
        {
            let t = &self.types[k];
            proof {
                assert(self.types_view()[k as int] == self.types@[k as int]@);
            }
            let lines = match self.lines_for(t) {
                Ok(lines) => lines,
                Err(e) => {
                    proof {
                        lemma_first_missing_at(self.types_view(), self.stacks@, k as int);
                    }
                    return Err(e);
                },
            };
            proof {
                lemma_lines_total(self.stacks@, t@, views_of(lines@));
                assert(forall|i: int|
                    0 <= i < lines@.len() ==> views_of(lines@)[i] == (#[trigger] lines@[i])@);
            }
            let total = match self.total_cost(t) {
                Some(total) => total,
                None => {
                    return Err(
                        FlamegraphError::RenderFailed(
                            "total event cost exceeds the engine's counter".to_owned(),
                        ),
                    );
                },
            };
            let rendered = match render_svg(&self.title, &t.name, &lines) {
                Ok(bytes) => bytes,
                Err(cause) => {
                    return Err(FlamegraphError::RenderFailed(cause));
                },
            };
            outs.push(rendered);
            k = k + 1;
        }
        proof {
            if exists|k: int|
                0 <= k < self.types_view().len() && type_total(
                    self.stacks@,
                    #[trigger] self.types_view()[k],
                ) == 0 {
                let k = choose|k: int|
                    0 <= k < self.types_view().len() && type_total(
                        self.stacks@,
                        #[trigger] self.types_view()[k],
                    ) == 0;
                assert(type_total(self.stacks@, self.types_view()[k]) != 0);
            }
        }
        Ok(Some(outs))
    }
}

} // verus!
