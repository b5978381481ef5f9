use recordflow::{Format, ParsedData, detect_format, parse, parse_csv, parse_json, parse_key_value_config};

const CONFIG: &str = "\
[metadata]
name = test_app
version = 1.0

[network]
allowed_hosts = alpha, beta
port = 8080
timeout = 30
";

fn config_entries(d: ParsedData) -> Vec<(String, String)> {
    match d {
        ParsedData::Config(v) => v,
        other => panic!("expected a configuration, got {:?}", other),
    }
}

#[test]
fn detect_csv() {
    assert_eq!(detect_format("name,age,city\nAlice,30,NYC"), Format::Csv);
}

#[test]
fn detect_json() {
    assert_eq!(
        detect_format("[{\"a\":1},{\"b\":2}]"),
        Format::Json
    );
}

#[test]
fn detect_config_and_blank_leading_lines() {
    assert_eq!(detect_format(CONFIG), Format::KeyValueConfig);
    assert_eq!(detect_format("[a]\nk=v"), Format::KeyValueConfig);
    assert_eq!(detect_format("[1, 2]"), Format::Json);
    assert_eq!(detect_format("[\"x\"]"), Format::Json);
    assert_eq!(detect_format("[{\"a\":1}"), Format::Json);
    assert_eq!(detect_format("\n   \n  key = value\n"), Format::KeyValueConfig);
    assert_eq!(detect_format(""), Format::KeyValueConfig);
    assert_eq!(detect_format("\n\n  a, b\n"), Format::Csv);
}

#[test]
fn csv_table_fields_are_trimmed() {
    match parse_csv("  name , age \n\n Alice, 30 \nBob,41\n").unwrap() {
        ParsedData::CsvTable { headers, rows } => {
            assert_eq!(headers, vec!["name".to_string(), "age".to_string()]);
            assert_eq!(rows, vec![
                vec!["Alice".to_string(), "30".to_string()],
                vec!["Bob".to_string(), "41".to_string()],
            ]);
        }
        other => panic!("expected a table, got {:?}", other),
    }
}

#[test]
fn csv_row_with_wrong_field_count_is_refused() {
    let e = parse_csv("a,b,c\n1,2,3\n4,5\n").unwrap_err();
    assert_eq!(e, "Row 3 has 2 fields, expected 3 (line: \"4,5\")");
}

#[test]
fn csv_empty_document_is_refused() {
    assert_eq!(parse_csv(" \n\n").unwrap_err(), "Empty CSV content");
}

#[test]
fn config_sections_prefix_keys() {
    let v = config_entries(parse_key_value_config(CONFIG));
    assert_eq!(v, vec![
        ("metadata.name".to_string(), "test_app".to_string()),
        ("metadata.version".to_string(), "1.0".to_string()),
        ("network.allowed_hosts".to_string(), "alpha, beta".to_string()),
        ("network.port".to_string(), "8080".to_string()),
        ("network.timeout".to_string(), "30".to_string()),
    ]);
}

#[test]
fn config_comments_skipped_and_later_value_wins() {
    let v = config_entries(parse_key_value_config(
        "# note\n; other\ntop = 1\nno equals here\n[s]\nk = a = b\nk = c\n[]\nbare = 2\n",
    ));
    assert_eq!(v, vec![
        ("top".to_string(), "1".to_string()),
        ("s.k".to_string(), "c".to_string()),
        ("bare".to_string(), "2".to_string()),
    ]);
}

#[test]
fn parse_routes_by_format() {
    match parse(" [{\"a\":1}] \n").unwrap() {
        ParsedData::Json { text } => assert_eq!(text, "[{\"a\":1}]"),
        other => panic!("expected an array, got {:?}", other),
    }
    match parse("x,y\n1,2\n").unwrap() {
        ParsedData::CsvTable { headers, rows } => {
            assert_eq!(headers.len(), 2);
            assert_eq!(rows.len(), 1);
        }
        other => panic!("expected a table, got {:?}", other),
    }
    assert!(parse("x,y\n1\n").is_err());
    assert_eq!(config_entries(parse("a = 1\n").unwrap()).len(), 1);
}

#[test]
fn unbracketed_array_falls_back_to_table() {
    assert!(parse_json("[1, 2\n3, 4").is_err());
    match parse("[1, 2\n3, 4").unwrap() {
        ParsedData::CsvTable { headers, rows } => {
            assert_eq!(headers, vec!["[1".to_string(), "2".to_string()]);
            assert_eq!(rows, vec![vec!["3".to_string(), "4".to_string()]]);
        }
        other => panic!("expected a table, got {:?}", other),
    }
}

#[test]
fn reference_config_parses_as_config() {
    let v = config_entries(parse(CONFIG).unwrap());
    assert_eq!(v.len(), 5);
    assert_eq!(v[2], ("network.allowed_hosts".to_string(), "alpha, beta".to_string()));
    let w = config_entries(parse("[a]\nk=v").unwrap());
    assert_eq!(w, vec![("a.k".to_string(), "v".to_string())]);
}

#[test]
fn unicode_whitespace_is_trimmed() {
    assert_eq!(parse_csv("\u{A0}").unwrap_err(), "Empty CSV content");
    assert_eq!(detect_format("\u{A0}\na,b"), Format::Csv);
    assert_eq!(detect_format("\u{A0}[1,2]"), Format::Json);
    assert_eq!(detect_format("\u{A0}["), Format::Json);
    match parse_csv("a,\u{A0}b\u{3000}\n\u{2003}1 ,2").unwrap() {
        ParsedData::CsvTable { headers, rows } => {
            assert_eq!(headers, vec!["a".to_string(), "b".to_string()]);
            assert_eq!(rows, vec![vec!["1".to_string(), "2".to_string()]]);
        }
        other => panic!("expected a table, got {:?}", other),
    }
    let v = config_entries(parse_key_value_config("\u{A0}k = v\u{85}\n"));
    assert_eq!(v, vec![("k".to_string(), "v".to_string())]);
}

#[test]
fn csv_mismatch_message_names_row_and_counts() {
    assert_eq!(
        parse_csv("a,b\n1").unwrap_err(),
        "Row 2 has 1 fields, expected 2 (line: \"1\")"
    );
    assert_eq!(
        parse("x,y\n1,2\n3").unwrap_err(),
        "Row 3 has 1 fields, expected 2 (line: \"3\")"
    );
}
