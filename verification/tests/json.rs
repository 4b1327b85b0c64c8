use helix_extensions::json::{
    ensure_size, json_parse, json_parse_bounded, json_parse_lines, json_parse_lines_bounded, line_value,
};
use steel::SteelVal;

#[test]
fn parses_objects_and_unicode() {
    let value = json_parse_bounded(r#"{"name":"界","ok":true,"none":null}"#, 128);
    assert!(value.is_ok());
}

#[test]
fn enforces_byte_limit() {
    let error = json_parse_bounded(r#"{"long":true}"#, 4).unwrap_err();
    assert!(error.message().contains("byte limit"));
}

#[test]
fn reports_json_lines_line_number() {
    let error = json_parse_lines_bounded("{\"ok\":1}\nnope\n", 128, 10).unwrap_err();
    assert!(error.message().contains("line 2"));
}

#[test]
fn ignores_blank_json_lines_and_enforces_item_limit() {
    assert!(json_parse_lines_bounded("1\n\n2\n", 128, 2).is_ok());
    let error = json_parse_lines_bounded("1\n2\n", 128, 1).unwrap_err();
    assert!(error.message().contains("item limit"));
}

#[test]
fn json_values_become_script_values() {
    assert!(matches!(json_parse("true").unwrap(), SteelVal::BoolV(true)));
    match json_parse("\"界\"").unwrap() {
        SteelVal::StringV(text) => assert_eq!(text.as_str(), "界"),
        _ => panic!("no text"),
    }
}

#[test]
fn json_lines_become_a_list() {
    match json_parse_lines("\"a\"\n\n  \n\"b\"\n").unwrap() {
        SteelVal::ListV(values) => assert_eq!(values.len(), 2),
        _ => panic!("no list"),
    }
}

#[test]
fn a_text_that_is_no_json_is_refused() {
    assert!(json_parse("{").is_err());
    assert!(json_parse_lines("[1]\n[").unwrap_err().message().contains("line 2"));
}

#[test]
fn the_size_is_counted_in_bytes() {
    assert!(ensure_size("界", 3).is_ok());
    assert!(ensure_size("界", 2).is_err());
}

#[test]
fn an_unparsed_line_names_its_number() {
    let error = line_value(4, Err("odd".to_string())).unwrap_err();
    assert!(error.message().contains("line 5"));
    assert!(error.message().contains("odd"));
    assert_eq!(line_value(4, Ok(serde_json::Value::Bool(true))).unwrap(), serde_json::Value::Bool(true));
}
