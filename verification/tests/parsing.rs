use dynamic_string::parser::{
    parse_input, parse_script, parse_static, parse_token, parse_variable, parse_with, ParseError,
};
use dynamic_string::segment::Segment;
use dynamic_string::text::{char_is_whitespace, collect, to_chars};

fn stat(text: &str) -> Segment {
    Segment::Static(text.to_string())
}

fn cmd(text: &str) -> Segment {
    Segment::Command(text.to_string())
}

fn var(text: &str) -> Segment {
    Segment::Variable(text.to_string())
}

#[test]
fn test_static() {
    const INPUT: &str = "hello world";
    let tokens = parse_input(INPUT).unwrap();

    assert_eq!(tokens.len(), 1);
    assert!(matches!(&tokens[0], Segment::Static(value) if value == INPUT))
}

#[test]
fn test_static_odd_char_count() {
    const INPUT: &str = "hello";
    let tokens = parse_input(INPUT).unwrap();

    assert_eq!(tokens.len(), 1);
    assert!(matches!(&tokens[0], Segment::Static(value) if value == INPUT))
}

#[test]
fn test_script() {
    const INPUT: &str = "{{echo hello}}";
    let tokens = parse_input(INPUT).unwrap();

    assert_eq!(tokens.len(), 1);
    assert!(matches!(&tokens[0], Segment::Command(script) if script == "echo hello"));
}

#[test]
fn test_variable() {
    const INPUT: &str = "#variable";
    let tokens = parse_input(INPUT).unwrap();

    assert_eq!(tokens.len(), 1);
    assert!(matches!(&tokens[0], Segment::Variable(name) if name.to_string() == "variable"));
}

#[test]
fn test_static_script() {
    const INPUT: &str = "hello {{echo world}}";
    let tokens = parse_input(INPUT).unwrap();

    assert_eq!(tokens.len(), 2);
    assert!(matches!(&tokens[0], Segment::Static(str) if str == "hello "));
    assert!(matches!(&tokens[1], Segment::Command(script) if script == "echo world"));
}

#[test]
fn test_static_variable() {
    const INPUT: &str = "hello #subject";
    let tokens = parse_input(INPUT).unwrap();

    assert_eq!(tokens.len(), 2);
    assert!(matches!(&tokens[0], Segment::Static(str) if str == "hello "));
    assert!(matches!(&tokens[1], Segment::Variable(name) if name.to_string() == "subject"));
}

#[test]
fn test_static_script_static() {
    const INPUT: &str = "hello {{echo world}} foo";
    let tokens = parse_input(INPUT).unwrap();

    assert_eq!(tokens.len(), 3);
    assert!(matches!(&tokens[0], Segment::Static(str) if str == "hello "));
    assert!(matches!(&tokens[1], Segment::Command(script) if script == "echo world"));
    assert!(matches!(&tokens[2], Segment::Static(str) if str == " foo"));
}

#[test]
fn test_static_variable_static() {
    const INPUT: &str = "hello #subject foo";
    let tokens = parse_input(INPUT).unwrap();

    assert_eq!(tokens.len(), 3);
    assert!(matches!(&tokens[0], Segment::Static(str) if str == "hello "));
    assert!(matches!(&tokens[1], Segment::Variable(name) if name.to_string() == "subject"));
    assert!(matches!(&tokens[2], Segment::Static(str) if str == " foo"));
}

#[test]
fn test_static_script_variable() {
    const INPUT: &str = "hello {{echo world}} #foo";
    let tokens = parse_input(INPUT).unwrap();

    assert_eq!(tokens.len(), 4);
    assert!(matches!(&tokens[0], Segment::Static(str) if str == "hello "));
    assert!(matches!(&tokens[1], Segment::Command(script) if script == "echo world"));
    assert!(matches!(&tokens[2], Segment::Static(str) if str == " "));
    assert!(matches!(&tokens[3], Segment::Variable(name) if name.to_string() == "foo"));
}

#[test]
fn test_escape_hash() {
    const INPUT: &str = "number ###num";
    let tokens = parse_input(INPUT).unwrap();

    assert_eq!(tokens.len(), 3);
    assert!(matches!(&tokens[0], Segment::Static(str) if str == "number "));
    assert!(matches!(&tokens[1], Segment::Static(str) if str == "#"));
    assert!(matches!(&tokens[2], Segment::Variable(name) if name.to_string() == "num"));
}

#[test]
fn test_script_with_hash() {
    const INPUT: &str = "{{echo #hello}}";
    let tokens = parse_input(INPUT).unwrap();

    assert_eq!(tokens.len(), 1);
    assert!(matches!(&tokens[0], Segment::Command(script) if script == "echo #hello"));
}

#[test]
fn empty_template_is_one_empty_static_segment() {
    assert_eq!(parse_input(""), Ok(vec![stat("")]));
    assert_eq!(parse_with("", false), Ok(vec![stat("")]));
}

#[test]
fn unterminated_command_is_an_error() {
    assert_eq!(parse_input("{{echo hello"), Err(ParseError::UnterminatedCommand { at: 0 }));
    assert_eq!(parse_input("{{"), Err(ParseError::UnterminatedCommand { at: 0 }));
    assert_eq!(parse_input("{{a}"), Err(ParseError::UnterminatedCommand { at: 0 }));
}

#[test]
fn unterminated_command_reports_its_position_in_characters() {
    assert_eq!(parse_input("hello {{a}} {{b"), Err(ParseError::UnterminatedCommand { at: 12 }));
    assert_eq!(parse_input("é#ü {{b"), Err(ParseError::UnterminatedCommand { at: 4 }));
    assert_eq!(parse_input("##{{b"), Err(ParseError::UnterminatedCommand { at: 2 }));
}

#[test]
fn escape_then_rest() {
    assert_eq!(parse_input("##x"), Ok(vec![stat("#"), stat("x")]));
    assert_eq!(parse_input("##"), Ok(vec![stat("#")]));
    assert_eq!(parse_input("##{{date}}"), Ok(vec![stat("#"), cmd("date")]));
    assert_eq!(parse_input("####"), Ok(vec![stat("#"), stat("#")]));
    let rest = parse_input("x y #z").unwrap();
    let mut expected = vec![stat("#")];
    expected.extend(rest);
    assert_eq!(parse_input("##x y #z"), Ok(expected));
}

#[test]
fn hashes_inside_a_command_start_nothing() {
    assert_eq!(parse_input("{{echo ##a #b}}"), Ok(vec![cmd("echo ##a #b")]));
    assert_eq!(parse_input("#a {{#b}} #c"), Ok(vec![var("a"), stat(" "), cmd("#b"), stat(" "), var("c")]));
    assert_eq!(parse_with("{{#}}", false), Ok(vec![cmd("#")]));
}

#[test]
fn command_ends_at_the_first_closing_delimiter() {
    assert_eq!(parse_input("{{a}}}"), Ok(vec![cmd("a"), stat("}")]));
    assert_eq!(parse_input("{{a}}b}}"), Ok(vec![cmd("a"), stat("b}}")]));
    assert_eq!(parse_input("{{}}"), Ok(vec![cmd("")]));
    assert_eq!(parse_input("{{{a}}"), Ok(vec![cmd("{a")]));
    assert_eq!(parse_input("{{a{{b}}"), Ok(vec![cmd("a{{b")]));
}

#[test]
fn variable_name_ends_at_whitespace() {
    assert_eq!(parse_input("#a\tb"), Ok(vec![var("a"), stat("\tb")]));
    assert_eq!(parse_input("#a\u{3000}b"), Ok(vec![var("a"), stat("\u{3000}b")]));
    assert_eq!(parse_input("#a{{b}}"), Ok(vec![var("a{{b}}")]));
    assert_eq!(parse_input("#a#b c"), Ok(vec![var("a#b"), stat(" c")]));
    assert_eq!(parse_input("# x"), Ok(vec![var(""), stat(" x")]));
}

#[test]
fn static_text_stops_before_hash_and_opening_delimiter() {
    assert_eq!(parse_input("a#"), Ok(vec![stat("a"), stat("#")]));
    assert_eq!(parse_input("#"), Ok(vec![stat("#")]));
    assert_eq!(parse_input("a{b}c{"), Ok(vec![stat("a{b}c{")]));
    assert_eq!(parse_input("a{{{b}}"), Ok(vec![stat("a"), cmd("{b")]));
    assert_eq!(parse_input("}}x"), Ok(vec![stat("}}x")]));
}

#[test]
fn without_variables_a_hash_is_text() {
    assert_eq!(parse_with("#name", false), Ok(vec![stat("#name")]));
    assert_eq!(parse_with("hello #subject foo", false), Ok(vec![stat("hello "), stat("#subject foo")]));
    assert_eq!(parse_with("a##b", false), Ok(vec![stat("a"), stat("#"), stat("b")]));
    assert_eq!(parse_with("#a {{b}}", false), Ok(vec![stat("#a "), cmd("b")]));
    assert_eq!(parse_with("{{b", false), Err(ParseError::UnterminatedCommand { at: 0 }));
}

#[test]
fn parse_with_variables_is_parse_input() {
    for input in ["", "a", "#a b", "{{x}} #y ##", "{{x", "é {{ü}} #ß"] {
        assert_eq!(parse_with(input, true), parse_input(input));
    }
}

#[test]
fn characters_beyond_ascii_are_counted_one_by_one() {
    assert_eq!(parse_input("é{{ü}}#ß ö"), Ok(vec![stat("é"), cmd("ü"), var("ß"), stat(" ö")]));
}

#[test]
fn segments_written_back_give_the_template() {
    for input in ["hello {{echo world}} #foo", "#a {{b #c}} d", "x{y}{{z}}", "é{{ü}}#ß ö"] {
        let mut written = String::new();
        for segment in parse_input(input).unwrap() {
            match segment {
                Segment::Static(text) => written.push_str(&text),
                Segment::Command(text) => {
                    written.push_str("{{");
                    written.push_str(&text);
                    written.push_str("}}");
                }
                Segment::Variable(name) => {
                    written.push('#');
                    written.push_str(&name);
                }
            }
        }
        assert_eq!(written, input);
    }
}

#[test]
fn plain_template_is_itself() {
    for input in ["a", "hello world", "a{b}c", "}}"] {
        assert_eq!(parse_input(input), Ok(vec![stat(input)]));
        assert_eq!(parse_with(input, false), Ok(vec![stat(input)]));
    }
}

#[test]
fn tokens_one_at_a_time() {
    let chars = to_chars("ab{{cd}}#ef gh##");
    assert_eq!(parse_static(&chars, 0), (stat("ab"), 2));
    assert_eq!(parse_script(&chars, 2), Some((cmd("cd"), 6)));
    assert_eq!(parse_variable(&chars, 8), (var("ef"), 3));
    assert_eq!(parse_token(&chars, 11, true), Some((stat(" gh"), 3)));
    assert_eq!(parse_token(&chars, 14, true), Some((stat("#"), 2)));
    assert_eq!(parse_token(&chars, 8, false), Some((stat("#ef gh"), 6)));
    assert_eq!(parse_token(&chars, 15, true), Some((stat("#"), 1)));
    let open = to_chars("{{cd}");
    assert_eq!(parse_script(&open, 0), None);
    assert_eq!(parse_token(&open, 0, false), None);
    let bare = to_chars("ab}}#c d");
    assert_eq!(parse_script(&bare, 0), Some((cmd(""), 4)));
    assert_eq!(parse_variable(&bare, 4), (var("c"), 2));
    assert_eq!(parse_variable(&bare, 7), (var(""), 1));
    assert_eq!(parse_static(&bare, 4), (stat("#c d"), 4));
    assert_eq!(parse_static(&bare, 5), (stat("c d"), 3));
}

#[test]
fn segment_payload_and_kind() {
    assert_eq!(stat("a").payload(), "a");
    assert_eq!(cmd("b").payload(), "b");
    assert_eq!(var("c").payload(), "c");
    assert!(!stat("a").is_dynamic());
    assert!(cmd("b").is_dynamic());
    assert!(var("c").is_dynamic());
}

#[test]
fn chars_and_back() {
    let chars = to_chars("héllo");
    assert_eq!(chars, vec!['h', 'é', 'l', 'l', 'o']);
    assert_eq!(collect(&chars, 1, 4), "éll");
    assert_eq!(collect(&chars, 2, 2), "");
    assert_eq!(collect(&chars, 0, 5), "héllo");
    assert_eq!(to_chars(""), Vec::<char>::new());
}

#[test]
fn whitespace_is_what_std_calls_whitespace() {
    let mut code: u32 = 0;
    while code <= 0x10FFFF {
        if let Some(c) = char::from_u32(code) {
            assert_eq!(char_is_whitespace(c), c.is_whitespace(), "U+{:04X}", code);
        }
        code += 1;
    }
}
