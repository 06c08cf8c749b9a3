use crate::grammar::parse_spec;
use crate::parser::{parse_with, ParseError};
use crate::segment::{views, Segment, SegmentView};
use crate::slots::{dynamic_indices, initial_slots, join, lists_dynamic, SlotTable};
use vstd::prelude::*;

verus! {

/// A template made ready to run: its segments, the slot table in its first
/// state, the positions of the segments that need a producer, and the first
/// render, which is due before any producer has spoken.
pub struct Template {
    pub segments: Vec<Segment>,
    pub slots: SlotTable,
    pub producers: Vec<usize>,
    pub first_render: String,
}

impl Template {
    /// What `compile` sets up, for the segments it parsed.
    pub open spec fn ready(&self) -> bool {
        &&& self.slots@ == initial_slots(views(self.segments@))
        &&& lists_dynamic(views(self.segments@), self.producers@)
        &&& self.first_render@ == join(self.slots@)
    }
}

/// Parses a template and sets up its slot table. Fails exactly where parsing
/// fails, with the same error.
pub fn compile(input: &str, variables: bool) -> (res: Result<Template, ParseError>)
    ensures
        match res {
            Ok(template) => {
                &&& parse_spec(input@, variables) == Ok::<Seq<SegmentView>, int>(
                    views(template.segments@),
                )
                &&& template.ready()
            },
            Err(ParseError::UnterminatedCommand { at }) => parse_spec(input@, variables) == Err::<
                Seq<SegmentView>,
                int,
            >(at as int),
        },
{
    match parse_with(input, variables) {
        Ok(segments) => {
            let slots = SlotTable::new(&segments);
            let producers = dynamic_indices(&segments);
            let first_render = slots.render();
            Ok(Template { segments, slots, producers, first_render })
        },
        Err(error) => Err(error),
    }
}

} // verus!
