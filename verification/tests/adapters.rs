//! Tests of the two bank source adapters.

use homebank_csv::error::ParseError;
use homebank_csv::homebank::Record;
use homebank_csv::inputs::postbank::PostbankIter;
use homebank_csv::inputs::sparda::TeoIter;

#[test]
fn test_to_iter() {
    let input = b"\n\n\n\n\n\n\n\n7.3.2024;7.3.2024;SEPA Lastschrift;Woopsie;Doopsie;DE123;;ABCD;EFG;DE123;;-25,88;;;;-25,88;;EUR\n";

    let mut postbank_iter = PostbankIter::new(&input[..]);
    let element: Vec<Result<Record, ParseError>> = postbank_iter.collect_records();

    assert_eq!(element.len(), 1);
    assert!(element[0].is_ok());
}

#[test]
fn postbank_scenario_fields() {
    let input = b"\n\n\n\n\n\n\n\n7.3.2024;7.3.2024;SEPA Lastschrift;Woopsie;Doopsie;DE123;;ABCD;EFG;DE123;;-25,88;;;;-25,88;;EUR\n";

    let mut it = PostbankIter::new(&input[..]);
    let results = it.collect_records();
    assert_eq!(results.len(), 1);
    let record = results.into_iter().next().unwrap().unwrap();
    assert_eq!(
        (record.date.year, record.date.month, record.date.day),
        (2024, 3, 7)
    );
    assert_eq!(record.payee, "Woopsie");
    assert_eq!(record.memo, "Doopsie");
    assert_eq!(record.info, "ABCD");
    assert_eq!(record.amount.cents, -2588);
    assert_eq!(record.category, "");
    assert!(record.tags.is_empty());
}

#[test]
fn postbank_short_input_is_empty() {
    // Fewer rows than the seven skipped heading rows: no results, no error.
    let input = b"one\ntwo\nthree\n";
    let mut it = PostbankIter::new(&input[..]);
    assert!(it.collect_records().is_empty());
    assert!(PostbankIter::new(&input[..]).next().is_none());
}

#[test]
fn postbank_wrong_decimal_is_row_scoped() {
    // The first data row uses a dot where the adapter expects the decimal
    // comma: that row alone fails, the next row still parses.
    let head = b"\n\n\n\n\n\n\n";
    let bad = b"7.3.2024;7.3.2024;x;A;B;;;R;;;;-25.88;;;;;;EUR\n";
    let good = b"8.3.2024;8.3.2024;x;A;B;;;R;;;;-25,88;;;;;;EUR\n";
    let mut input = Vec::new();
    input.extend_from_slice(head);
    input.extend_from_slice(bad);
    input.extend_from_slice(good);

    let mut it = PostbankIter::new(&input[..]);
    let results = it.collect_records();
    assert_eq!(results.len(), 2);
    assert!(matches!(results[0], Err(ParseError::Currency)));
    assert!(results[1].is_ok());
}

#[test]
fn postbank_error_kinds() {
    let head = b"\n\n\n\n\n\n\n";
    let short_row = b"7.3.2024;7.3.2024;only;five;fields\n";
    let bad_date = b"2024-03-07;7.3.2024;x;A;B;;;R;;;;-25,88;;;;;;EUR\n";
    let bad_utf8 = b"7.3.2024;7.3.2024;x;A\xff;B;;;R;;;;-25,88;;;;;;EUR\n";
    let mut input = Vec::new();
    input.extend_from_slice(head);
    input.extend_from_slice(short_row);
    input.extend_from_slice(bad_date);
    input.extend_from_slice(&bad_utf8[..]);

    let mut it = PostbankIter::new(&input[..]);
    let results = it.collect_records();
    assert_eq!(results.len(), 3);
    assert!(matches!(results[0], Err(ParseError::ColumnShape)));
    assert!(matches!(results[1], Err(ParseError::Date)));
    assert!(matches!(results[2], Err(ParseError::Decoding)));
}

#[test]
fn postbank_decodes_multibyte_utf8() {
    // The payee holds an a-umlaut as two UTF-8 bytes; the decoded record
    // must hold the one character, not the raw bytes.
    let head = b"\n\n\n\n\n\n\n";
    let row = b"7.3.2024;7.3.2024;x;M\xc3\xa4x;B;;;R;;;;-25,88;;;;;;EUR\n";
    let mut input = Vec::new();
    input.extend_from_slice(head);
    input.extend_from_slice(row);

    let mut it = PostbankIter::new(&input[..]);
    let results = it.collect_records();
    assert_eq!(results.len(), 1);
    assert_eq!(results[0].as_ref().unwrap().payee, "M\u{e4}x");
}

#[test]
fn postbank_quoted_amount_is_tolerated() {
    // Stray literal quotes around the amount column are dropped, not
    // treated as malformed quoting.
    let head = b"\n\n\n\n\n\n\n";
    let row = b"7.3.2024;7.3.2024;x;A;B;;;R;;;;\"-25,88\";;;;;;EUR\n";
    let mut input = Vec::new();
    input.extend_from_slice(head);
    input.extend_from_slice(row);

    let mut it = PostbankIter::new(&input[..]);
    let results = it.collect_records();
    assert_eq!(results.len(), 1);
    assert_eq!(results[0].as_ref().unwrap().amount.cents, -2588);
}

fn sparda_input(rows: &[&[u8]]) -> Vec<u8> {
    let mut input = Vec::new();
    for _ in 0..10 {
        input.extend_from_slice(b"boilerplate\n");
    }
    for row in rows {
        input.extend_from_slice(row);
        input.extend_from_slice(b"\n");
    }
    input
}

#[test]
fn sparda_parses_rows() {
    let input = sparda_input(&[
        b"2024-03-07;2024-03-08;DE99;Woopsie;Doopsie;-25,88;EUR",
        b"2024-03-09;2024-03-09;DE98;Other;Thing;1.000,00;EUR",
    ]);
    let mut it = TeoIter::new(&input[..]);
    let results = it.collect_records();
    assert_eq!(results.len(), 2);
    let first = results[0].as_ref().unwrap();
    assert_eq!(
        (first.date.year, first.date.month, first.date.day),
        (2024, 3, 7)
    );
    assert_eq!(first.info, "DE99");
    assert_eq!(first.payee, "Woopsie");
    assert_eq!(first.memo, "Doopsie");
    assert_eq!(first.amount.cents, -2588);
    let second = results[1].as_ref().unwrap();
    assert_eq!(second.amount.cents, 100000);
}

#[test]
fn sparda_decodes_legacy_bytes() {
    // 0xE4 is a-umlaut and 0x80 the euro sign in the legacy code page; the
    // decoder must map them, not hand the bytes through.
    let input = sparda_input(&[b"2024-03-07;2024-03-07;DE99;M\xe4x;\x80 dues;-1,00;EUR"]);
    let mut it = TeoIter::new(&input[..]);
    let results = it.collect_records();
    assert_eq!(results.len(), 1);
    let record = results[0].as_ref().unwrap();
    assert_eq!(record.payee, "M\u{e4}x");
    assert_eq!(record.memo, "\u{20ac} dues");
}

#[test]
fn sparda_short_input_is_empty() {
    let input = b"one\ntwo\n";
    let mut it = TeoIter::new(&input[..]);
    assert!(it.collect_records().is_empty());
}

#[test]
fn sparda_row_count_accounting() {
    // 10 boilerplate rows, 2 data rows and one blank row in between: the
    // blank row is dropped, both data rows come through.
    let input = sparda_input(&[
        b"2024-03-07;2024-03-07;DE99;A;B;-1,00;EUR",
        b"",
        b"2024-03-08;2024-03-08;DE99;C;D;2,00;EUR",
    ]);
    let mut it = TeoIter::new(&input[..]);
    let results = it.collect_records();
    assert_eq!(results.len(), 2);
    assert!(results[0].is_ok());
    assert!(results[1].is_ok());
}
