use plotka::csv::CsvParser;
use plotka::{Number, ParseError, RawRecord, Record};

use std::io::BufReader;
use std::io::Read;

fn create_csv_reader<R>(
    reader: R,
    mb_delimiter: Option<u8>,
    ignore_first_line: bool,
) -> csv::Reader<R>
where
    R: Read,
{
    csv::ReaderBuilder::new()
        .delimiter(mb_delimiter.unwrap_or(b','))
        .has_headers(ignore_first_line)
        .from_reader(reader)
}

fn record_fields(record: &csv::StringRecord) -> Vec<String> {
    record.iter().map(|field| field.to_string()).collect()
}

fn resolve_floats(raw: &RawRecord) -> Result<Record, ParseError> {
    let bits: Vec<Option<u64>> = raw
        .pending_tokens()
        .iter()
        .map(|slot| {
            slot.as_ref()
                .and_then(|tok| tok.parse::<f64>().ok())
                .map(f64::to_bits)
        })
        .collect();
    raw.resolve(&bits)
}

fn parse(parser: &CsvParser, input: &csv::StringRecord) -> Result<Record, ParseError> {
    let raw = parser.parse(&record_fields(input))?;
    resolve_floats(&raw)
}

#[test]
fn csv_test_parse_csv() {
    let headers = vec!["a".to_string(), "b".to_string()];
    let delimiter = None;

    let contents = "1,2\n11,12\n";
    let reader = BufReader::new(contents.as_bytes());
    let mut reader = create_csv_reader(reader, delimiter, false);
    let mut records = reader.records();

    let parser = CsvParser::new(headers);

    let input = records.next().unwrap().unwrap();
    let record_1 = parse(&parser, &input).unwrap();

    assert_eq!(record_1.get("a"), Some(Number::Int(1)));
    assert_eq!(record_1.get("b"), Some(Number::Int(2)));

    let input = records.next().unwrap().unwrap();
    let record_2 = parse(&parser, &input).unwrap();

    assert_eq!(record_2.get("a"), Some(Number::Int(11)));
    assert_eq!(record_2.get("b"), Some(Number::Int(12)));
}

#[test]
fn test_parse_csv_from_floats() {
    let headers = vec!["a".to_string(), "b".to_string()];
    let delimiter = None;

    let contents = "1.0,2.0\n11.0,12.0\n";
    let reader = BufReader::new(contents.as_bytes());
    let mut reader = create_csv_reader(reader, delimiter, false);
    let mut records = reader.records();

    let parser = CsvParser::new(headers);

    let input = records.next().unwrap().unwrap();
    let record_1 = parse(&parser, &input).unwrap();

    assert_eq!(record_1.get("a"), Some(Number::Float(1.0f64.to_bits())));
    assert_eq!(record_1.get("b"), Some(Number::Float(2.0f64.to_bits())));

    let input = records.next().unwrap().unwrap();
    let record_2 = parse(&parser, &input).unwrap();

    assert_eq!(record_2.get("a"), Some(Number::Float(11.0f64.to_bits())));
    assert_eq!(record_2.get("b"), Some(Number::Float(12.0f64.to_bits())));
}

#[test]
fn test_parse_csv_with_delimiter() {
    let headers = vec!["a".to_string(), "b".to_string()];
    let delimiter = Some(b';');

    let contents = "a;b\n1;2";
    let reader = BufReader::new(contents.as_bytes());
    let mut reader = create_csv_reader(reader, delimiter, true);
    let mut records = reader.records();

    let parser = CsvParser::new(headers);

    let input = records.next().unwrap().unwrap();
    let record_1 = parse(&parser, &input).unwrap();

    assert_eq!(record_1.get("a"), Some(Number::Int(1)));
    assert_eq!(record_1.get("b"), Some(Number::Int(2)));
}

#[test]
#[should_panic]
fn csv_test_parse_csv_panic_on_non_number_data() {
    let headers = vec!["a".to_string(), "b".to_string()];
    let delimiter = None;

    let contents = "h,i\nj,k\nl,m\n";
    let reader = BufReader::new(contents.as_bytes());
    let mut reader = create_csv_reader(reader, delimiter, true);
    let mut records = reader.records();

    let parser = CsvParser::new(headers);

    let input = records.next().unwrap().unwrap();
    let _record = parse(&parser, &input).unwrap();
}

#[test]
fn csv_rejects_wrong_value_count() {
    let parser = CsvParser::new(vec!["a".to_string(), "b".to_string()]);

    assert!(parser.parse(&vec!["1".to_string()]).is_err());
    assert!(parser
        .parse(&vec!["1".to_string(), "2".to_string(), "3".to_string()])
        .is_err());
    assert!(parser.parse(&vec!["1".to_string(), "2".to_string()]).is_ok());
}

#[test]
fn csv_rejects_duplicate_headers() {
    let parser = CsvParser::new(vec!["a".to_string(), "a".to_string()]);

    assert!(parser.parse(&vec!["1".to_string(), "2".to_string()]).is_err());
}

#[test]
fn csv_rejects_non_numeric_values() {
    let parser = CsvParser::new(vec!["a".to_string(), "b".to_string()]);

    let raw = parser
        .parse(&vec!["1".to_string(), "x".to_string()])
        .unwrap();

    assert!(resolve_floats(&raw).is_err());
}
