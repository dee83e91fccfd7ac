//! Tests for the text parsers: key-value blocks, whitespace-aligned
//! tables, declared file sizes and the JSON reader.

use op_exporter::utils::{parse_kv, parse_table};
use op_exporter::metrics_collector::document::parse_file_size_bytes;
use op_exporter::json::{parse_json, Json};
use op_exporter::ParseError;

#[test]
fn test_parse_kv() {
    let input = r#"
URL:               https://my.1password.com
Integration ID:    WADYB2CBTFBIFKESZ6AV74PUGE
User Type:         SERVICE_ACCOUNT
"#;

    let hmap = parse_kv(input).unwrap();

    assert_eq!(hmap.get("URL").unwrap().as_str(), "https://my.1password.com");
    assert_eq!(
        hmap.get("Integration ID").unwrap().as_str(),
        "WADYB2CBTFBIFKESZ6AV74PUGE"
    );
    assert_eq!(hmap.get("User Type").unwrap().as_str(), "SERVICE_ACCOUNT");
}

#[test]
fn test_parse_kv_missing_colon() {
    assert_eq!(
        parse_kv("URL myvault.example"),
        Err(ParseError::MalformedRecord)
    );
}

#[test]
fn test_parse_kv_last_wins() {
    let rec = parse_kv("A: 1\nA: 2").unwrap();
    assert_eq!(rec.get("A").unwrap().as_str(), "2");
}

#[test]
fn test_parse_table() {
    let input = r#"
TYPE       ACTION        LIMIT    USED    REMAINING    RESET
token      write         100      0       100          N/A
token      read          1000     0       1000         N/A
account    read_write    1000     4       996          1 hour from now
"#;
    let expect = [
        [
            ("TYPE", "token"),
            ("ACTION", "write"),
            ("LIMIT", "100"),
            ("USED", "0"),
            ("REMAINING", "100"),
            ("RESET", "N/A"),
        ],
        [
            ("TYPE", "token"),
            ("ACTION", "read"),
            ("LIMIT", "1000"),
            ("USED", "0"),
            ("REMAINING", "1000"),
            ("RESET", "N/A"),
        ],
        [
            ("TYPE", "account"),
            ("ACTION", "read_write"),
            ("LIMIT", "1000"),
            ("USED", "4"),
            ("REMAINING", "996"),
            ("RESET", "1 hour from now"),
        ],
    ];

    let table = parse_table(input).unwrap();

    assert_eq!(table.len(), expect.len());
    for (row, want) in table.iter().zip(expect.iter()) {
        assert_eq!(row.entries.len(), want.len());
        for (key, value) in want.iter() {
            assert_eq!(row.get(key).unwrap().as_str(), *value);
        }
    }
}

#[test]
fn test_parse_table_short_row() {
    let input = "A    B    C\nonly  two";
    assert_eq!(parse_table(input), Err(ParseError::MalformedRecord));
}

#[test]
fn test_parse_byte_size() {
    assert_eq!(parse_file_size_bytes("1 KB"), Some(1024));
    assert_eq!(parse_file_size_bytes("2 MB"), Some(2097152));
    assert_eq!(parse_file_size_bytes("5 bytes"), Some(5));
    assert_eq!(parse_file_size_bytes("3 GB"), Some(3221225472));
    assert_eq!(parse_file_size_bytes("3 XB"), None);
    assert_eq!(parse_file_size_bytes("abc KB"), None);
    assert_eq!(parse_file_size_bytes("10KB"), None);
}

#[test]
fn test_json_parse_basics() {
    let j = parse_json(" {\"a\": [1, -2, \"x\\n\"], \"b\": null, \"c\": true} ").unwrap();
    match j {
        Json::Obj(fields) => {
            assert_eq!(fields.len(), 3);
            assert_eq!(fields[0].0, "a");
            match &fields[0].1 {
                Json::Arr(els) => {
                    assert_eq!(els.len(), 3);
                    assert_eq!(els[0], Json::Int(1));
                    assert_eq!(els[1], Json::Int(-2));
                    assert_eq!(els[2], Json::Str("x\n".to_owned()));
                }
                _ => panic!("expected an array"),
            }
            assert_eq!(fields[1].1, Json::Null);
            assert_eq!(fields[2].1, Json::Bool(true));
        }
        _ => panic!("expected an object"),
    }
}

#[test]
fn test_json_parse_rejects_trailing_text() {
    assert_eq!(parse_json("{} x"), Err(ParseError::MalformedRecord));
    assert_eq!(parse_json(""), Err(ParseError::MalformedRecord));
    assert_eq!(parse_json("[1,]"), Err(ParseError::MalformedRecord));
}

#[test]
fn test_parse_kv_interior_blank_line() {
    let rec = parse_kv("A: 1\n\n   \nB: 2").unwrap();
    assert_eq!(rec.get("A").unwrap().as_str(), "1");
    assert_eq!(rec.get("B").unwrap().as_str(), "2");
    assert_eq!(rec.entries.len(), 2);
}

#[test]
fn test_parse_table_leading_gap_makes_empty_field() {
    let table = parse_table("A    B\n  x   y").unwrap();
    assert_eq!(table.len(), 1);
    assert_eq!(table[0].get("A").unwrap().as_str(), "");
    assert_eq!(table[0].get("B").unwrap().as_str(), "x   y");
}
