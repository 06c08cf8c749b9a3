use crate::segment::{Segment, SegmentView, views};
use vstd::prelude::*;
use vstd::string::*;

verus! {

/// The rendered string: all slot values in order, with nothing between them.
pub open spec fn join(slots: Seq<Seq<char>>) -> Seq<char>
    decreases slots.len(),
{
    if slots.len() == 0 {
        Seq::empty()
    } else {
        join(slots.drop_last()) + slots.last()
    }
}

/// The slot values of a template before any producer has spoken.
pub open spec fn initial_slots(segments: Seq<SegmentView>) -> Seq<Seq<char>> {
    Seq::new(segments.len(), |i: int| segments[i].initial_value())
}

/// Position `i` of `segments` holds a dynamic segment.
pub open spec fn dynamic_at(segments: Seq<SegmentView>, i: int) -> bool {
    0 <= i < segments.len() && segments[i].is_dynamic()
}

/// `indices` lists the positions of the dynamic segments of `segments`: all of
/// them, each once, in rising order.
pub open spec fn lists_dynamic(segments: Seq<SegmentView>, indices: Seq<usize>) -> bool {
    &&& forall|k: int| 0 <= k < indices.len() ==> dynamic_at(segments, #[trigger] indices[k] as int)
    &&& forall|j: int, k: int| 0 <= j < k < indices.len() ==> indices[j] < indices[k]
    &&& forall|i: int| #[trigger] dynamic_at(segments, i) ==> indices.contains(i as usize)
}

/// What a running command hands over: a line of its primary output, or a line
/// of diagnostics.
#[derive(Debug, Clone, PartialEq, Eq)]
pub enum CommandOutput {
    Primary(String),
    Diagnostic(String),
}

/// What is to be done after a producer has spoken.
#[derive(Debug, Clone, PartialEq, Eq)]
pub enum Action {
    /// Deliver this freshly rendered string.
    Render(String),
    /// Hand this message to the diagnostic sink; nothing was rendered.
    Report(String),
}

/// The current value of every segment of one template, in segment order.
#[derive(Debug, Clone, PartialEq, Eq)]
pub struct SlotTable {
    slots: Vec<String>,
}

impl View for SlotTable {
    type V = Seq<Seq<char>>;

    closed spec fn view(&self) -> Seq<Seq<char>> {
        Seq::new(self.slots@.len(), |i: int| self.slots@[i]@)
    }
}

impl SlotTable {
    /// The table of a freshly parsed template: one slot per segment, a static
    /// segment's slot holding its text and a dynamic segment's slot empty.
    pub fn new(segments: &Vec<Segment>) -> (res: SlotTable)
        ensures
            res@ == initial_slots(views(segments@)),
    {
        let mut slots: Vec<String> = Vec::new();
        let n: usize = segments.len();
        let mut i: usize = 0;
        while i < n
            invariant
                n == segments@.len(),
                i <= n,
                slots@.len() == i,
                forall|k: int| 0 <= k < i ==> (#[trigger] slots@[k])@ == segments@[k]@.initial_value(),
            decreases n - i,
        {
            let slot = match &segments[i] {
                Segment::Static(text) => text.clone(),
                _ => String::new(),
            };
            slots.push(slot);
            i += 1;
        }
        let res = SlotTable { slots };
        proof {
            assert(res@ =~= initial_slots(views(segments@)));
        }
        res
    }

    /// The number of slots, which is the number of segments.
    pub fn len(&self) -> (res: usize)
        ensures
            res == self@.len(),
    {
        self.slots.len()
    }

    /// The current value of one slot.
    pub fn get(&self, index: usize) -> (res: &String)
        requires
            index < self@.len(),
        ensures
            res@ == self@[index as int],
    {
        &self.slots[index]
    }

    /// Joins all slots into the rendered string.
    pub fn render(&self) -> (res: String)
        ensures
            res@ == join(self@),
    {
        let mut out = String::new();
        let n: usize = self.slots.len();
        let mut i: usize = 0;
        while i < n
            invariant
                n == self@.len(),
                n == self.slots@.len(),
                i <= n,
                out@ == join(self@.take(i as int)),
            decreases n - i,
        {
            out.append(self.slots[i].as_str());
            proof {
                let next = self@.take(i + 1);
                assert(next.drop_last() =~= self@.take(i as int));
                assert(next.last() == self.slots@[i as int]@);
            }
            i += 1;
        }
        proof {
            assert(self@.take(n as int) =~= self@);
        }
        out
    }

    /// Writes `value` into slot `index` and renders the table as it then
    /// stands. The other slots keep their values.
    pub fn apply(&mut self, index: usize, value: String) -> (res: String)
        requires
            index < old(self)@.len(),
        ensures
            final(self)@ == old(self)@.update(index as int, value@),
            res@ == join(final(self)@),
    {
        self.slots.set(index, value);
        proof {
            assert(self@ =~= old(self)@.update(index as int, value@));
        }
        self.render()
    }

    /// Takes in what the command behind segment `index` has produced. Primary
    /// output becomes the slot's value and the table is rendered; diagnostics
    /// leave the table as it is and are passed on for reporting.
    pub fn on_command_output(&mut self, index: usize, output: CommandOutput) -> (res: Action)
        requires
            index < old(self)@.len(),
        ensures
            match output {
                CommandOutput::Primary(line) => {
                    &&& final(self)@ == old(self)@.update(index as int, line@)
                    &&& res matches Action::Render(rendered)
                    &&& rendered@ == join(final(self)@)
                },
                CommandOutput::Diagnostic(message) => {
                    &&& final(self)@ == old(self)@
                    &&& res matches Action::Report(reported)
                    &&& reported@ == message@
                },
            },
    {
        match output {
            CommandOutput::Primary(line) => Action::Render(self.apply(index, line)),
            CommandOutput::Diagnostic(message) => Action::Report(message),
        }
    }

    /// Takes in what the variable behind segment `index` has been set to. A
    /// value becomes the slot's value and the table is rendered; an absent
    /// value changes nothing and renders nothing.
    pub fn on_variable_value(&mut self, index: usize, value: Option<String>) -> (res: Option<
        String,
    >)
        requires
            index < old(self)@.len(),
        ensures
            match value {
                Some(text) => {
                    &&& final(self)@ == old(self)@.update(index as int, text@)
                    &&& res matches Some(rendered)
                    &&& rendered@ == join(final(self)@)
                },
                None => final(self)@ == old(self)@ && res is None,
            },
    {
        match value {
            Some(text) => Some(self.apply(index, text)),
            None => None,
        }
    }
}

/// The positions of the segments that need a producer, in rising order.
pub fn dynamic_indices(segments: &Vec<Segment>) -> (res: Vec<usize>)
    ensures
        lists_dynamic(views(segments@), res@),
{
    let mut out: Vec<usize> = Vec::new();
    let n: usize = segments.len();
    let mut i: usize = 0;
    while i < n
        invariant
            n == segments@.len(),
            i <= n,
            lists_dynamic(views(segments@).take(i as int), out@),
        decreases n - i,
    {
        let ghost before = out@;
        let ghost seen = views(segments@).take(i as int);
        let ghost next = views(segments@).take(i + 1);
        proof {
            assert forall|x: int| dynamic_at(seen, x) <==> x < i && #[trigger] dynamic_at(next, x) by {}
            assert forall|k: int| 0 <= k < before.len() implies #[trigger] before[k] < i by {
                assert(dynamic_at(seen, before[k] as int));
            }
        }
        if segments[i].is_dynamic() {
            out.push(i);
            proof {
                assert(dynamic_at(next, i as int));
                assert forall|x: int| #[trigger] dynamic_at(next, x) implies out@.contains(
                    x as usize,
                ) by {
                    if x < i {
                        assert(dynamic_at(seen, x));
                        let k = choose|k: int| 0 <= k < before.len() && before[k] == x as usize;
                        assert(out@[k] == x as usize);
                    } else {
                        assert(out@[before.len() as int] == i);
                    }
                }
                assert forall|k: int| 0 <= k < out@.len() implies dynamic_at(
                    next,
                    #[trigger] out@[k] as int,
                ) by {
                    if k < before.len() {
                        assert(dynamic_at(seen, before[k] as int));
                    }
                }
            }
        } else {
            proof {
                assert forall|x: int| #[trigger] dynamic_at(next, x) implies out@.contains(
                    x as usize,
                ) by {
                    assert(dynamic_at(seen, x));
                }
                assert forall|k: int| 0 <= k < out@.len() implies dynamic_at(
                    next,
                    #[trigger] out@[k] as int,
                ) by {
                    assert(dynamic_at(seen, before[k] as int));
                }
            }
        }
        i += 1;
    }
    proof {
        assert(views(segments@).take(n as int) =~= views(segments@));
    }
    out
}


/// A table of one slot renders as that slot's value.
pub proof fn lemma_join_one(value: Seq<char>)
    ensures
        join(seq![value]) == value,
{
    let one = seq![value];
    assert(one.drop_last() =~= Seq::<Seq<char>>::empty());
    assert(join(one.drop_last()) =~= Seq::<char>::empty());
    assert(join(one) =~= value);
}

/// Rendering two tables one after the other is rendering the first, then the
/// second.
pub proof fn lemma_join_concat(a: Seq<Seq<char>>, b: Seq<Seq<char>>)
    ensures
        join(a + b) == join(a) + join(b),
    decreases b.len(),
{
    if b.len() == 0 {
        assert(a + b =~= a);
        assert(join(a) + join(b) =~= join(a));
    } else {
        lemma_join_concat(a, b.drop_last());
        assert((a + b).drop_last() =~= a + b.drop_last());
        assert((a + b).last() == b.last());
        assert(join(a + b) =~= join(a) + join(b));
    }
}

/// The render is the slots before `index`, then slot `index`, then the slots
/// after it.
pub proof fn lemma_join_split(slots: Seq<Seq<char>>, index: int)
    requires
        0 <= index < slots.len(),
    ensures
        join(slots) == join(slots.take(index)) + slots[index] + join(slots.skip(index + 1)),
{
    let head = slots.take(index);
    let mid = seq![slots[index]];
    let tail = slots.skip(index + 1);
    assert(slots =~= (head + mid) + tail);
    lemma_join_concat(head + mid, tail);
    lemma_join_concat(head, mid);
    lemma_join_one(slots[index]);
}

/// An update shows in the render at its own place and nowhere else: what the
/// slots before and after contribute stays as it was.
pub proof fn lemma_update_is_local(slots: Seq<Seq<char>>, index: int, value: Seq<char>)
    requires
        0 <= index < slots.len(),
    ensures
        join(slots.update(index, value)) == join(slots.take(index)) + value + join(
            slots.skip(index + 1),
        ),
{
    let updated = slots.update(index, value);
    lemma_join_split(updated, index);
    assert(updated.take(index) =~= slots.take(index));
    assert(updated.skip(index + 1) =~= slots.skip(index + 1));
}

/// Updates of two different slots do not disturb each other: in either order
/// they lead to the same table, in which each slot holds the value written to
/// it. Every render on the way is the join of a table in which each slot holds
/// either its old value or its new one, whole.
pub proof fn lemma_updates_commute(
    slots: Seq<Seq<char>>,
    i: int,
    a: Seq<char>,
    j: int,
    b: Seq<char>,
)
    requires
        0 <= i < slots.len(),
        0 <= j < slots.len(),
        i != j,
    ensures
        slots.update(i, a).update(j, b) == slots.update(j, b).update(i, a),
        slots.update(i, a).update(j, b)[i] == a,
        slots.update(i, a).update(j, b)[j] == b,
        slots.update(i, a)[j] == slots[j],
        slots.update(j, b)[i] == slots[i],
        forall|k: int|
            0 <= k < slots.len() && k != i && k != j ==> slots.update(i, a).update(j, b)[k]
                == slots[k],
{
    assert(slots.update(i, a).update(j, b) =~= slots.update(j, b).update(i, a));
}

/// A later write to a slot replaces an earlier one: the slot holds what was
/// written last, and the table is as if only that had been written.
pub proof fn lemma_last_write_wins(slots: Seq<Seq<char>>, i: int, a: Seq<char>, b: Seq<char>)
    requires
        0 <= i < slots.len(),
    ensures
        slots.update(i, a).update(i, b) == slots.update(i, b),
        slots.update(i, a).update(i, b).len() == slots.len(),
{
    assert(slots.update(i, a).update(i, b) =~= slots.update(i, b));
}

/// A template without dynamic segments needs no producer, and its first render
/// is its static text: the segments' texts in order.
pub proof fn lemma_static_only(segments: Seq<SegmentView>, indices: Seq<usize>)
    requires
        forall|i: int| 0 <= i < segments.len() ==> !(#[trigger] segments[i]).is_dynamic(),
        lists_dynamic(segments, indices),
    ensures
        indices.len() == 0,
        join(initial_slots(segments)) == join(Seq::new(segments.len(), |i: int| segments[i].payload())),
{
    if indices.len() > 0 {
        assert(dynamic_at(segments, indices[0] as int));
    }
    assert(initial_slots(segments) =~= Seq::new(segments.len(), |i: int| segments[i].payload()));
}

/// Only one list of positions lists the dynamic segments of a template.
pub proof fn lemma_lists_dynamic_unique(segments: Seq<SegmentView>, a: Seq<usize>, b: Seq<usize>)
    requires
        lists_dynamic(segments, a),
        lists_dynamic(segments, b),
    ensures
        a == b,
    decreases a.len(),
{
    if a.len() == 0 {
        if b.len() > 0 {
            assert(dynamic_at(segments, b[0] as int));
            assert(a.contains(b[0]));
        }
    } else if b.len() == 0 {
        assert(dynamic_at(segments, a[0] as int));
        assert(b.contains(a[0]));
    } else {
        let la = a.last();
        let lb = b.last();
        assert(dynamic_at(segments, la as int));
        assert(dynamic_at(segments, lb as int));
        assert(b.contains(la));
        assert(a.contains(lb));
        assert(la == lb);
        let cut = segments.take(la as int);
        let a0 = a.drop_last();
        let b0 = b.drop_last();
        assert(lists_dynamic(cut, a0)) by {
            lemma_cut(segments, a);
        }
        assert(lists_dynamic(cut, b0)) by {
            lemma_cut(segments, b);
        }
        lemma_lists_dynamic_unique(cut, a0, b0);
        assert(a =~= a0.push(la));
        assert(b =~= b0.push(lb));
    }
}

proof fn lemma_cut(segments: Seq<SegmentView>, a: Seq<usize>)
    requires
        lists_dynamic(segments, a),
        a.len() > 0,
    ensures
        lists_dynamic(segments.take(a.last() as int), a.drop_last()),
{
    let la = a.last();
    let cut = segments.take(la as int);
    let a0 = a.drop_last();
    assert(dynamic_at(segments, la as int));
    assert forall|k: int| 0 <= k < a0.len() implies dynamic_at(cut, #[trigger] a0[k] as int) by {
        assert(dynamic_at(segments, a[k] as int));
        assert(a[k] < a[a.len() - 1]);
    }
    assert forall|i: int| #[trigger] dynamic_at(cut, i) implies a0.contains(i as usize) by {
        assert(dynamic_at(segments, i));
        let k = choose|k: int| 0 <= k < a.len() && a[k] == i as usize;
        assert(k < a.len() - 1);
        assert(a0[k] == i as usize);
    }
}

} // verus!
