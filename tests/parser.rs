use css_parser::css::{
    Color, Declaration, Number, Rule, Selector, SimpleSelector, StyleSheet, Unit, Value,
};
use css_parser::errors::CssParseError;
use css_parser::parser::Parser;

fn parse(text: &str) -> Result<StyleSheet, CssParseError> {
    Parser::new(String::from(text)).parse()
}

fn simple(tag: Option<&str>, id: Option<&str>, class: &[&str]) -> Selector {
    Selector::Simple(SimpleSelector {
        tag_name: tag.map(String::from),
        id: id.map(String::from),
        class: class.iter().map(|c| String::from(*c)).collect(),
    })
}

fn number(integer: &str, fraction: &str) -> Number {
    Number { integer: String::from(integer), fraction: String::from(fraction) }
}

fn magnitude(n: &Number) -> f32 {
    format!("{}.{}", n.integer, n.fraction).parse::<f32>().unwrap()
}

fn only_declaration(sheet: &StyleSheet) -> &Declaration {
    assert_eq!(sheet.rules.len(), 1);
    assert_eq!(sheet.rules[0].declarations.len(), 1);
    &sheet.rules[0].declarations[0]
}

#[test]
fn empty_input_has_no_rules() {
    assert_eq!(parse("").unwrap(), StyleSheet { rules: vec![] });
}

#[test]
fn whitespace_input_has_no_rules() {
    assert_eq!(parse("  \n\t \r\n").unwrap(), StyleSheet { rules: vec![] });
}

#[test]
fn color_declaration() {
    let sheet = parse("div { color: #ff0000; }").unwrap();
    let expected = StyleSheet {
        rules: vec![Rule {
            selectors: vec![simple(Some("div"), None, &[])],
            declarations: vec![Declaration {
                name: String::from("color"),
                value: Value::ColorValue(Color { r: 255, g: 0, b: 0, a: 255 }),
            }],
        }],
    };
    assert_eq!(sheet, expected);
}

#[test]
fn id_and_classes_with_length() {
    let sheet = parse("#id.cls1.cls2 { width: 10.5px; }").unwrap();
    assert_eq!(sheet.rules[0].selectors, vec![simple(None, Some("id"), &["cls1", "cls2"])]);
    let d = only_declaration(&sheet);
    assert_eq!(d.name, "width");
    assert_eq!(d.value, Value::Length(number("10", "5"), Unit::Px));
    match &d.value {
        Value::Length(n, _) => assert_eq!(magnitude(n), 10.5),
        _ => panic!("not a length"),
    }
}

#[test]
fn unit_is_case_insensitive() {
    let sheet = parse("p { margin: 2REM; }").unwrap();
    assert_eq!(only_declaration(&sheet).value, Value::Length(number("2", ""), Unit::Rem));
}

#[test]
fn em_unit_and_mixed_case() {
    let sheet = parse("p { margin: 1.25eM; }").unwrap();
    assert_eq!(only_declaration(&sheet).value, Value::Length(number("1", "25"), Unit::Em));
}

#[test]
fn short_hex_color_is_invalid() {
    assert_eq!(parse("a { color: #fff; }"), Err(CssParseError::InvalidColor));
}

#[test]
fn long_hex_color_is_invalid() {
    assert_eq!(parse("a { color: #ff00001; }"), Err(CssParseError::InvalidColor));
}

#[test]
fn upper_case_hex_color() {
    let sheet = parse("a { color: #FF8000; }").unwrap();
    assert_eq!(
        only_declaration(&sheet).value,
        Value::ColorValue(Color { r: 255, g: 128, b: 0, a: 255 })
    );
}

#[test]
fn missing_semicolon_fails() {
    assert_eq!(parse("a { color: red }"), Err(CssParseError::UnexpectedToken('}')));
}

#[test]
fn missing_semicolon_at_end_fails() {
    assert_eq!(parse("a { color: red"), Err(CssParseError::UnexpectedEOF));
}

#[test]
fn empty_block_with_two_selectors() {
    let sheet = parse("a, b { }").unwrap();
    let expected = StyleSheet {
        rules: vec![Rule {
            selectors: vec![simple(Some("a"), None, &[]), simple(Some("b"), None, &[])],
            declarations: vec![],
        }],
    };
    assert_eq!(sheet, expected);
}

#[test]
fn universal_selector() {
    let sheet = parse("* { }").unwrap();
    assert_eq!(sheet.rules[0].selectors, vec![simple(None, None, &[])]);
    assert!(sheet.rules[0].declarations.is_empty());
}

#[test]
fn bad_selector_separator() {
    assert_eq!(parse("div # { }"), Err(CssParseError::InvalidSelector));
}

#[test]
fn consume_while_at_end_is_empty() {
    let mut p = Parser::new(String::new());
    assert_eq!(p.consume_while(|_| false), "");
    assert!(p.eof());
}

#[test]
fn consume_while_stops_at_first_mismatch() {
    let mut p = Parser::new(String::from("abc1;x"));
    assert_eq!(p.consume_while(|c| c.is_ascii_alphabetic()), "abc");
    assert_eq!(p.next_char(), Ok('1'));
    assert_eq!(p.consume_while(|_| false), "");
    assert_eq!(p.next_char(), Ok('1'));
}

#[test]
fn consume_char_mismatch_and_end() {
    let mut p = Parser::new(String::from("é"));
    assert_eq!(p.consume_char('e'), Err(CssParseError::UnexpectedToken('é')));
    assert_eq!(p.consume_char('é'), Ok('é'));
    assert_eq!(p.consume_char('é'), Err(CssParseError::UnexpectedEOF));
    assert_eq!(p.next_char(), Err(CssParseError::UnexpectedEOF));
}

#[test]
fn whitespace_is_skipped() {
    let mut p = Parser::new(String::from(" \t\r\n x"));
    p.consume_whitespace();
    assert_eq!(p.next_char(), Ok('x'));
}

#[test]
fn keyword_value_and_several_rules() {
    let sheet = parse("h1 { display: block; font-weight: bold; }\n.x { float: left; }\n").unwrap();
    assert_eq!(sheet.rules.len(), 2);
    assert_eq!(
        sheet.rules[0].declarations,
        vec![
            Declaration { name: String::from("display"), value: Value::Keyword(String::from("block")) },
            Declaration {
                name: String::from("font-weight"),
                value: Value::Keyword(String::from("bold")),
            },
        ]
    );
    assert_eq!(sheet.rules[1].selectors, vec![simple(None, None, &["x"])]);
}

#[test]
fn combined_selector_and_last_id_wins() {
    let sheet = parse("div#a.b#c.d{}").unwrap();
    assert_eq!(sheet.rules[0].selectors, vec![simple(Some("div"), Some("c"), &["b", "d"])]);
}

#[test]
fn non_ascii_identifier() {
    let sheet = parse("été { ñ: ü; }").unwrap();
    assert_eq!(sheet.rules[0].selectors, vec![simple(Some("été"), None, &[])]);
    assert_eq!(
        only_declaration(&sheet),
        &Declaration { name: String::from("ñ"), value: Value::Keyword(String::from("ü")) }
    );
}

#[test]
fn unknown_unit_is_invalid() {
    assert_eq!(parse("p { margin: 10pt; }"), Err(CssParseError::InvalidUnit));
}

#[test]
fn missing_unit_is_invalid_value() {
    assert_eq!(parse("p { margin: 10; }"), Err(CssParseError::InvalidValue));
}

#[test]
fn two_decimal_points_are_invalid() {
    assert_eq!(parse("p { margin: 1.2.3px; }"), Err(CssParseError::InvalidValue));
}

#[test]
fn trailing_point_is_a_number() {
    let sheet = parse("p { margin: 3.px; }").unwrap();
    assert_eq!(only_declaration(&sheet).value, Value::Length(number("3", ""), Unit::Px));
}

#[test]
fn missing_value_is_invalid() {
    assert_eq!(parse("p { margin: ; }"), Err(CssParseError::InvalidValue));
}

#[test]
fn missing_colon_fails() {
    assert_eq!(parse("p { margin 1px; }"), Err(CssParseError::UnexpectedToken('1')));
}

#[test]
fn selector_without_block_fails() {
    assert_eq!(parse("div"), Err(CssParseError::UnexpectedEOF));
}

#[test]
fn unclosed_block_fails() {
    assert_eq!(parse("div { color: red;"), Err(CssParseError::UnexpectedEOF));
}

#[test]
fn empty_id_is_invalid() {
    assert_eq!(parse("# { }"), Err(CssParseError::InvalidValue));
}

#[test]
fn parse_rule_reads_one_rule() {
    let mut p = Parser::new(String::from("a{}b{}"));
    let r = p.parse_rule().unwrap();
    assert_eq!(r.selectors, vec![simple(Some("a"), None, &[])]);
    assert_eq!(p.next_char(), Ok('b'));
}

#[test]
fn error_messages() {
    assert_eq!(CssParseError::UnexpectedToken('x').message(), "Unexpected token: x");
    assert_eq!(CssParseError::InvalidSelector.message(), "Invalid CSS selector");
    assert_eq!(CssParseError::InvalidDeclaration.message(), "Invalid CSS declaration");
    assert_eq!(CssParseError::InvalidValue.message(), "Invalid CSS value");
    assert_eq!(CssParseError::InvalidColor.message(), "Invalid color value");
    assert_eq!(CssParseError::InvalidUnit.message(), "Invalid unit");
    assert_eq!(CssParseError::UnexpectedEOF.message(), "Unexpected end of file");
}

#[test]
fn canonical_text_parses_to_the_same_sheet() {
    let spaced = parse("div#a.b , p {\n  color: red;\n  margin: 1.5em;\n  background: #0a0B0c;\n}\n* { }\n")
        .unwrap();
    let canonical = parse("div#a.b,p{color:red;margin:1.5em;background:#0a0b0c;}*{}").unwrap();
    assert_eq!(spaced, canonical);
    assert_eq!(spaced.rules.len(), 2);
}

#[test]
fn separator_after_whitespace_must_be_comma_or_brace() {
    assert_eq!(parse("a b { }"), Err(CssParseError::InvalidSelector));
    assert_eq!(parse("a ; { }"), Err(CssParseError::InvalidSelector));
}
