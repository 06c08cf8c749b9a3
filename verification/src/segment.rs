use vstd::prelude::*;

verus! {

/// One unit of a parsed template.
#[derive(Debug, Clone, PartialEq, Eq)]
pub enum Segment {
    /// Literal text, fixed when the template is parsed.
    Static(String),
    /// The text of a command expression, as written between `{{` and `}}`.
    Command(String),
    /// The name of a variable, as written after `#`.
    Variable(String),
}

/// The mathematical value of a [`Segment`].
pub enum SegmentView {
    Static(Seq<char>),
    Command(Seq<char>),
    Variable(Seq<char>),
}

impl View for Segment {
    type V = SegmentView;

    open spec fn view(&self) -> SegmentView {
        match self {
            Segment::Static(text) => SegmentView::Static(text@),
            Segment::Command(expression) => SegmentView::Command(expression@),
            Segment::Variable(name) => SegmentView::Variable(name@),
        }
    }
}

impl SegmentView {
    /// A segment is dynamic when its value comes from a producer.
    pub open spec fn is_dynamic(self) -> bool {
        !(self is Static)
    }

    /// The characters the segment carries: its text, expression or name.
    pub open spec fn payload(self) -> Seq<char> {
        match self {
            SegmentView::Static(text) => text,
            SegmentView::Command(expression) => expression,
            SegmentView::Variable(name) => name,
        }
    }

    /// What the segment shows before any producer has spoken: a static segment
    /// shows its text, a dynamic one nothing.
    pub open spec fn initial_value(self) -> Seq<char> {
        match self {
            SegmentView::Static(text) => text,
            _ => Seq::empty(),
        }
    }

    /// The segment written back in template syntax, without escaping.
    pub open spec fn written(self) -> Seq<char> {
        match self {
            SegmentView::Static(text) => text,
            SegmentView::Command(expression) => seq!['{', '{'] + expression + seq!['}', '}'],
            SegmentView::Variable(name) => seq!['#'] + name,
        }
    }
}

/// The views of a list of segments, in order.
pub open spec fn views(segments: Seq<Segment>) -> Seq<SegmentView> {
    Seq::new(segments.len(), |i: int| segments[i]@)
}

impl Segment {
    /// Whether the segment's value comes from a producer.
    pub fn is_dynamic(&self) -> (res: bool)
        ensures
            res == self@.is_dynamic(),
    {
        match self {
            Segment::Static(_) => false,
            _ => true,
        }
    }

    /// The text, expression or name the segment carries.
    pub fn payload(&self) -> (res: &String)
        ensures
            res@ == self@.payload(),
    {
        match self {
            Segment::Static(text) => text,
            Segment::Command(expression) => expression,
            Segment::Variable(name) => name,
        }
    }
}

} // verus!
