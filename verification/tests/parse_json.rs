use plotka::json::JsonParser;
use plotka::{Number, ParseError, RawRecord, Record};

fn resolve_floats(raw: &RawRecord) -> Result<Record, ParseError> {
    let bits: Vec<Option<u64>> = raw
        .pending_tokens()
        .iter()
        .map(|slot| {
            slot.as_ref()
                .and_then(|tok| tok.parse::<f64>().ok())
                .map(f64::to_bits)
        })
        .collect();
    raw.resolve(&bits)
}

fn parse(parser: &JsonParser, input: &str) -> Result<Record, ParseError> {
    let raw = parser.parse(input)?;
    resolve_floats(&raw)
}

#[test]
fn test_parse_json() {
    let contents = r#"{ "a": 1, "b": 2 }"#;
    let parser = JsonParser {};

    let record = parse(&parser, contents).unwrap();

    assert_eq!(record.get("a"), Some(Number::Int(1)));
    assert_eq!(record.get("b"), Some(Number::Int(2)));
}

#[test]
fn test_parse_json_from_floats() {
    let contents = r#"{ "a": 1.0, "b": 2.0 }"#;
    let parser = JsonParser {};

    let record = parse(&parser, contents).unwrap();

    assert_eq!(record.get("a"), Some(Number::Float(1.0f64.to_bits())));
    assert_eq!(record.get("b"), Some(Number::Float(2.0f64.to_bits())));
}

#[test]
fn json_parses_numeric_strings() {
    let parser = JsonParser::new();

    let record = parse(&parser, r#"{ "a": "7", "b": "2.5" }"#).unwrap();

    assert_eq!(record.get("a"), Some(Number::Int(7)));
    assert_eq!(record.get("b"), Some(Number::Float(2.5f64.to_bits())));
}

#[test]
fn json_parses_negative_and_exponent_numbers() {
    let parser = JsonParser::new();

    let record = parse(&parser, r#"{ "a": -5, "b": 1e3, "c": -0.5 }"#).unwrap();

    assert_eq!(record.get("a"), Some(Number::Int(-5)));
    assert_eq!(record.get("b"), Some(Number::Float(1000.0f64.to_bits())));
    assert_eq!(record.get("c"), Some(Number::Float((-0.5f64).to_bits())));
}

#[test]
fn json_integer_out_of_range_becomes_float() {
    let parser = JsonParser::new();

    let record = parse(&parser, r#"{ "a": 99999999999999999999 }"#).unwrap();

    assert_eq!(
        record.get("a"),
        Some(Number::Float(1e20f64.to_bits()))
    );
}

#[test]
fn json_decodes_string_escapes() {
    let parser = JsonParser::new();

    let record = parse(&parser, r#"{ "a\n": 1 }"#).unwrap();

    assert_eq!(record.get("a\n"), Some(Number::Int(1)));
}

#[test]
fn json_empty_object_parses_to_empty_record() {
    let parser = JsonParser::new();

    let record = parse(&parser, "{}").unwrap();

    assert_eq!(record.len(), 0);
}

#[test]
fn json_rejects_duplicate_keys() {
    let parser = JsonParser::new();

    assert!(parser.parse(r#"{ "a": 1, "a": 2 }"#).is_err());
}

#[test]
fn json_rejects_non_numeric_values() {
    let parser = JsonParser::new();

    assert!(parser.parse(r#"{ "a": true }"#).is_err());
    assert!(parser.parse(r#"{ "a": null }"#).is_err());
    assert!(parser.parse(r#"{ "a": [1] }"#).is_err());
    assert!(parser.parse(r#"{ "a": { "b": 1 } }"#).is_err());
    assert!(parse(&parser, r#"{ "a": "x" }"#).is_err());
}

#[test]
fn json_rejects_malformed_input() {
    let parser = JsonParser::new();

    assert!(parser.parse("").is_err());
    assert!(parser.parse("x").is_err());
    assert!(parser.parse(r#"{ "a": }"#).is_err());
    assert!(parser.parse(r#"{ "a" 1 }"#).is_err());
    assert!(parser.parse(r#"{ "a": 1"#).is_err());
    assert!(parser.parse(r#"{ "a": 1."#).is_err());
    assert!(parser.parse(r#"{ "a": 01 }"#).is_err());
}

#[test]
fn json_decodes_surrogate_pair_escapes() {
    let parser = JsonParser::new();

    let record = parse(&parser, r#"{ "\ud83d\ude00": 1 }"#).unwrap();

    assert_eq!(record.get("\u{1F600}"), Some(Number::Int(1)));
}

#[test]
fn json_rejects_lone_surrogate_escapes() {
    let parser = JsonParser::new();

    assert!(parser.parse(r#"{ "\ud83d": 1 }"#).is_err());
    assert!(parser.parse(r#"{ "\ude00": 1 }"#).is_err());
}

#[test]
fn json_ignores_input_after_the_object() {
    let parser = JsonParser::new();

    let record = parse(&parser, r#"{ "a": 1 } trailing"#).unwrap();

    assert_eq!(record.get("a"), Some(Number::Int(1)));
}
