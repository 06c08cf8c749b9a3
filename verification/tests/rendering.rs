use dynamic_string::parser::{parse_input, ParseError};
use dynamic_string::segment::Segment;
use dynamic_string::slots::{dynamic_indices, Action, CommandOutput, SlotTable};
use dynamic_string::template::compile;

fn table(input: &str) -> SlotTable {
    SlotTable::new(&parse_input(input).unwrap())
}

#[test]
fn first_render_shows_static_text_only() {
    let slots = table("hello {{echo world}} #foo!");
    assert_eq!(slots.len(), 4);
    assert_eq!(slots.get(0), "hello ");
    assert_eq!(slots.get(1), "");
    assert_eq!(slots.get(2), " ");
    assert_eq!(slots.get(3), "");
    assert_eq!(slots.render(), "hello  ");
}

#[test]
fn apply_writes_one_slot_and_renders_all() {
    let mut slots = table("a{{b}}c{{d}}e");
    assert_eq!(slots.apply(1, "1".to_string()), "a1ce");
    assert_eq!(slots.apply(3, "22".to_string()), "a1c22e");
    assert_eq!(slots.apply(1, String::new()), "ac22e");
    assert_eq!(slots.apply(0, "x".to_string()), "xc22e");
    assert_eq!(slots.len(), 5);
    assert_eq!(slots.get(3), "22");
    assert_eq!(slots.render(), "xc22e");
}

#[test]
fn two_commands_in_either_order() {
    let mut first = table("{{cmd1}} {{cmd2}}");
    assert_eq!(first.render(), " ");
    assert_eq!(first.apply(0, "A".to_string()), "A ");
    assert_eq!(first.apply(2, "B".to_string()), "A B");

    let mut second = table("{{cmd1}} {{cmd2}}");
    assert_eq!(second.render(), " ");
    assert_eq!(second.apply(2, "B".to_string()), " B");
    assert_eq!(second.apply(0, "A".to_string()), "A B");

    assert_eq!(first, second);
}

#[test]
fn primary_output_renders_and_diagnostics_are_reported() {
    let mut slots = table("load: {{uptime}}");
    let action = slots.on_command_output(1, CommandOutput::Primary("0.42".to_string()));
    assert_eq!(action, Action::Render("load: 0.42".to_string()));
    let action = slots.on_command_output(1, CommandOutput::Diagnostic("not found".to_string()));
    assert_eq!(action, Action::Report("not found".to_string()));
    assert_eq!(slots.render(), "load: 0.42");
}

#[test]
fn absent_variable_value_changes_nothing() {
    let mut slots = table("#user at #host");
    assert_eq!(slots.on_variable_value(0, None), None);
    assert_eq!(slots.render(), " at ");
    assert_eq!(slots.on_variable_value(0, Some("me".to_string())), Some("me at ".to_string()));
    assert_eq!(slots.on_variable_value(2, Some("box".to_string())), Some("me at box".to_string()));
    assert_eq!(slots.on_variable_value(0, None), None);
    assert_eq!(slots.render(), "me at box");
}

#[test]
fn producers_are_the_dynamic_segments_in_order() {
    let segments = parse_input("a {{b}} ##c #d {{e}}").unwrap();
    assert_eq!(dynamic_indices(&segments), vec![1, 5, 7]);
    assert_eq!(dynamic_indices(&Vec::new()), Vec::<usize>::new());
    assert_eq!(dynamic_indices(&vec![Segment::Variable("x".to_string())]), vec![0]);
}

#[test]
fn static_only_template_has_one_render_and_no_producer() {
    let template = compile("just ## text", true).unwrap();
    assert!(template.producers.is_empty());
    assert_eq!(template.first_render, "just # text");
    assert_eq!(template.slots.render(), "just # text");
    assert_eq!(template.slots.len(), template.segments.len());

    let template = compile("#name", false).unwrap();
    assert!(template.producers.is_empty());
    assert_eq!(template.first_render, "#name");
}

#[test]
fn compile_sets_up_slots_and_producers() {
    let template = compile("{{cmd1}} {{cmd2}}", true).unwrap();
    assert_eq!(
        template.segments,
        vec![
            Segment::Command("cmd1".to_string()),
            Segment::Static(" ".to_string()),
            Segment::Command("cmd2".to_string()),
        ]
    );
    assert_eq!(template.producers, vec![0, 2]);
    assert_eq!(template.first_render, " ");
    assert_eq!(template.slots.len(), 3);
}

#[test]
fn compile_fails_as_parsing_does() {
    assert!(matches!(compile("a {{b", true), Err(ParseError::UnterminatedCommand { at: 2 })));
    assert!(matches!(compile("#a {{b", false), Err(ParseError::UnterminatedCommand { at: 3 })));
}

#[test]
fn empty_template_renders_empty() {
    let template = compile("", true).unwrap();
    assert_eq!(template.segments, vec![Segment::Static(String::new())]);
    assert_eq!(template.first_render, "");
    assert!(template.producers.is_empty());
}
