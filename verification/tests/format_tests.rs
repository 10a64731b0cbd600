use syslog_collector::rowfmt;
use syslog_collector::text;

fn chars(s: &str) -> Vec<char> {
    text::chars_of(s)
}

fn to_string(v: &Vec<char>) -> String {
    text::string_of(v)
}

fn row_of(fields: &[&str]) -> String {
    let fv: Vec<Vec<char>> = fields.iter().map(|f| chars(f)).collect();
    to_string(&rowfmt::format_row(&fv))
}

fn parse_back(content: &str) -> Option<Vec<Vec<String>>> {
    let cv = chars(content);
    rowfmt::parse_store(&cv).map(|rows| {
        rows.iter()
            .map(|row| row.iter().map(|f| to_string(f)).collect())
            .collect()
    })
}

#[test]
fn row_plain_fields() {
    assert_eq!(row_of(&["a", "b"]), "\"a\",\"b\"\n");
}

#[test]
fn row_quotes_doubled() {
    assert_eq!(row_of(&["say \"hi\""]), "\"say \"\"hi\"\"\"\n");
}

#[test]
fn row_keeps_commas_and_newlines_inside_quotes() {
    assert_eq!(row_of(&["a,b", "c\nd"]), "\"a,b\",\"c\nd\"\n");
}

#[test]
fn row_empty_field() {
    assert_eq!(row_of(&["", "x"]), "\"\",\"x\"\n");
}

#[test]
fn round_trip_awkward_fields() {
    let rows: Vec<Vec<&str>> = vec![
        vec!["plain", "with,comma", "with\"quote"],
        vec!["\n", "\"\"", "a,\"b\",\nc"],
        vec!["", "", ""],
    ];
    let mut content = String::new();
    for r in &rows {
        content.push_str(&row_of(r));
    }
    let parsed = parse_back(&content).expect("well-formed store must parse");
    assert_eq!(parsed.len(), rows.len());
    for (p, r) in parsed.iter().zip(rows.iter()) {
        let want: Vec<String> = r.iter().map(|s| s.to_string()).collect();
        assert_eq!(p, &want);
    }
}

#[test]
fn parse_rejects_unquoted_field() {
    assert_eq!(parse_back("plain\n"), None);
}

#[test]
fn parse_rejects_unterminated_field() {
    assert_eq!(parse_back("\"open\n"), None);
}

#[test]
fn parse_empty_store() {
    let parsed = parse_back("").expect("empty store parses");
    assert_eq!(parsed.len(), 0);
}

#[test]
fn round_trip_through_csv_reader() {
    // The store format must be ordinary quoted tabular data: an off-the-shelf
    // reader sees the same field values.
    let fields = vec!["2024-05-06 07:08:09.123", "10.0.0.5", "msg with , and \"q\" and\nnewline"];
    let content = row_of(&fields);
    let mut rdr = csv::ReaderBuilder::new()
        .has_headers(false)
        .from_reader(content.as_bytes());
    let mut rows = 0;
    for rec in rdr.records() {
        let rec = rec.expect("reader accepts the row");
        let got: Vec<&str> = rec.iter().collect();
        assert_eq!(got, fields);
        rows += 1;
    }
    assert_eq!(rows, 1);
}

#[test]
fn decimal_digits() {
    for (n, s) in [(0u8, "0"), (7, "7"), (9, "9"), (10, "10"), (31, "31"), (99, "99"), (100, "100"), (255, "255")] {
        let mut v: Vec<char> = Vec::new();
        rowfmt::push_u8_decimal(&mut v, n);
        assert_eq!(to_string(&v), s);
    }
}

#[test]
fn normalize_strips_newlines_and_trims() {
    let v = chars(" a\nb ");
    assert_eq!(to_string(&text::normalize_message(&v)), "ab");
}

#[test]
fn normalize_trims_whitespace_kinds() {
    let v = chars("\t  hi there \r\n");
    assert_eq!(to_string(&text::normalize_message(&v)), "hi there");
}

#[test]
fn normalize_all_whitespace() {
    let v = chars(" \n\t \r ");
    assert_eq!(to_string(&text::normalize_message(&v)), "");
}

#[test]
fn chars_string_round_trip() {
    let v = chars("héllo ☃");
    assert_eq!(to_string(&v), "héllo ☃");
}
