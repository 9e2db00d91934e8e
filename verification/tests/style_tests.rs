use markup::css;
use markup::css::Rgba;
use markup::css::Selector;
use markup::css::Unit;
use markup::css::Value;
use markup::scan::ParseErrorKind;

#[test]
fn tag_selector_with_hex_color() {
    let sheet = css::parse("a{color:#ff0000;}").expect("style text should parse");
    assert_eq!(sheet.rules.len(), 1);
    let rule = &sheet.rules[0];
    assert_eq!(rule.selectors.len(), 1);
    let Selector::Single(sel) = &rule.selectors[0];
    assert_eq!(sel.tag_name.as_deref(), Some("a"));
    assert_eq!(sel.id, None);
    assert_eq!(sel.classes.len(), 0);
    assert_eq!(rule.declarations.len(), 1);
    let d = &rule.declarations[0];
    assert_eq!(d.name, "color");
    assert_eq!(d.value, Value::Color(Rgba { r: 255, g: 0, b: 0, a: 255 }));
    assert_eq!(d.to_text(), "color: rgba(255, 0, 0, 255);");
}

#[test]
fn class_and_id_selectors_with_length() {
    let sheet = css::parse(".a, #b { margin: 10px; }").expect("style text should parse");
    assert_eq!(sheet.rules.len(), 1);
    let rule = &sheet.rules[0];
    assert_eq!(rule.selectors.len(), 2);
    let Selector::Single(first) = &rule.selectors[0];
    assert_eq!(first.tag_name, None);
    assert_eq!(first.id, None);
    assert_eq!(first.classes, vec!["a".to_string()]);
    let Selector::Single(second) = &rule.selectors[1];
    assert_eq!(second.tag_name, None);
    assert_eq!(second.id.as_deref(), Some("b"));
    assert_eq!(second.classes.len(), 0);
    assert_eq!(rule.declarations.len(), 1);
    let d = &rule.declarations[0];
    assert_eq!(d.name, "margin");
    assert_eq!(d.value, Value::Length("10".to_string(), Unit::Px));
}

#[test]
fn combined_selector_parts_accumulate() {
    let sheet = css::parse("div.foo#bar.baz{display:block;}").expect("style text should parse");
    let Selector::Single(sel) = &sheet.rules[0].selectors[0];
    assert_eq!(sel.tag_name.as_deref(), Some("div"));
    assert_eq!(sel.id.as_deref(), Some("bar"));
    assert_eq!(sel.classes, vec!["foo".to_string(), "baz".to_string()]);
}

#[test]
fn keyword_value() {
    let sheet = css::parse("p{display:block;}").expect("style text should parse");
    let d = &sheet.rules[0].declarations[0];
    assert_eq!(d.value, Value::Keyword("block".to_string()));
    assert_eq!(d.to_text(), "display: block;");
}

#[test]
fn fractional_length_keeps_its_digits() {
    let sheet = css::parse("a{width:1.5px;}").expect("style text should parse");
    let d = &sheet.rules[0].declarations[0];
    assert_eq!(d.value, Value::Length("1.5".to_string(), Unit::Px));
    assert_eq!(d.value.to_text(), "1.5px");
}

#[test]
fn unit_is_case_insensitive() {
    let sheet = css::parse("a{width:2PX;}").expect("style text should parse");
    let d = &sheet.rules[0].declarations[0];
    assert_eq!(d.value, Value::Length("2".to_string(), Unit::Px));
}

#[test]
fn universal_selector_is_discarded() {
    let sheet = css::parse("* { margin: 10px; }").expect("style text should parse");
    let Selector::Single(sel) = &sheet.rules[0].selectors[0];
    assert_eq!(sel.tag_name, None);
    assert_eq!(sel.id, None);
    assert_eq!(sel.classes.len(), 0);
}

#[test]
fn several_declarations_and_rules() {
    let sheet = css::parse("h1{font-size:14px;color:#0000ff;}\np{display:none;}")
        .expect("style text should parse");
    assert_eq!(sheet.rules.len(), 2);
    assert_eq!(sheet.rules[0].declarations.len(), 2);
    assert_eq!(sheet.rules[1].declarations.len(), 1);
}

#[test]
fn unknown_unit_fails() {
    let err = css::parse("a{margin:10em;}").unwrap_err();
    assert_eq!(err.kind, ParseErrorKind::UnrecognizedUnit);
}

#[test]
fn short_hex_color_fails() {
    let err = css::parse("a{color:#ff00f;}").unwrap_err();
    assert_eq!(err.kind, ParseErrorKind::UnexpectedCharacter);
}

#[test]
fn missing_semicolon_fails() {
    let err = css::parse("a{color:#ff0000}").unwrap_err();
    assert_eq!(err.kind, ParseErrorKind::UnexpectedCharacter);
}

#[test]
fn unterminated_block_fails() {
    let err = css::parse("a{color:#ff0000;").unwrap_err();
    assert_eq!(err.kind, ParseErrorKind::UnexpectedEndOfInput);
}

#[test]
fn rule_renders_as_a_block() {
    let sheet = css::parse("a{color:#ff0000;}").expect("style text should parse");
    assert_eq!(sheet.to_text(), "a {\n  color: rgba(255, 0, 0, 255);\n}\n");
}

#[test]
fn selector_list_renders_comma_joined() {
    let sheet = css::parse(".a, #b { margin: 10px; }").expect("style text should parse");
    assert_eq!(sheet.rules[0].to_text(), ".a, #b {\n  margin: 10px;\n}");
}

#[test]
fn sheets_accumulate_in_load_order() {
    let mut context = markup::dom::DocumentData::new();
    context.load_css("a{display:block;}".to_string()).expect("style text should parse");
    context.load_css("b{display:none;}".to_string()).expect("style text should parse");
    assert_eq!(context.stylesheets.len(), 2);
    let Selector::Single(first) = &context.stylesheets[0].rules[0].selectors[0];
    assert_eq!(first.tag_name.as_deref(), Some("a"));
    let Selector::Single(second) = &context.stylesheets[1].rules[0].selectors[0];
    assert_eq!(second.tag_name.as_deref(), Some("b"));
}
