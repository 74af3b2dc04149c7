//! Tests of the canonical record writer and its destination dialect.

use homebank_csv::date::Date;
use homebank_csv::homebank::{Payment, Record};
use homebank_csv::money::Amount;

fn iso_date(s: &str) -> Date {
    homebank_csv::date::parse_iso(s).expect("Failed parsing date")
}

fn eur(s: &str) -> Amount {
    Amount::parse_eur(s).expect("Failed parsing money")
}

#[test]
fn test_basic_deser() {
    let expected = "2015-02-04;0;;;Some cash;-40,00;Bill:Withdrawal of cash;tag1 tag2\n2015-02-04;1;;;Internet DSL;-45,00;Inline service/Internet;tag2 my-tag3\n";

    let date = iso_date("2015-02-04");

    let data = vec![
        Record {
            date,
            payment: Payment::Unspecified,
            info: "".to_string(),
            payee: "".to_string(),
            memo: "Some cash".to_string(),
            amount: eur("-40,00"),
            category: "Bill:Withdrawal of cash".to_string(),
            tags: vec!["tag1".to_string(), "tag2".to_string()],
        },
        Record {
            date,
            payment: Payment::CreditCard,
            info: "".to_string(),
            payee: "".to_string(),
            memo: "Internet DSL".to_string(),
            amount: eur("-45,00"),
            category: "Inline service/Internet".to_string(),
            tags: vec!["tag2".to_string(), "my-tag3".to_string()],
        },
    ];

    let mut wtr = Record::writer();
    for record in data {
        record.write(&mut wtr);
    }

    assert_eq!(wtr.out, expected);
}

#[test]
fn canonical_write_scenario() {
    let record = Record {
        date: iso_date("2015-02-04"),
        payment: Payment::Unspecified,
        info: "".to_string(),
        payee: "".to_string(),
        memo: "Some cash".to_string(),
        amount: Amount { cents: -4000 },
        category: "Bill:Withdrawal of cash".to_string(),
        tags: vec!["tag1".to_string(), "tag2".to_string()],
    };
    let mut wtr = Record::writer();
    record.write(&mut wtr);
    assert_eq!(
        wtr.out,
        "2015-02-04;0;;;Some cash;-40,00;Bill:Withdrawal of cash;tag1 tag2\n"
    );
}

fn sample_record() -> Record {
    Record {
        date: iso_date("2024-03-07"),
        payment: Payment::ElectronicPayment,
        info: "ref".to_string(),
        payee: "Someone".to_string(),
        memo: "memo".to_string(),
        amount: Amount { cents: 123456 },
        category: "".to_string(),
        tags: vec![],
    }
}

#[test]
fn writing_twice_is_identical() {
    let mut w1 = Record::writer();
    let mut w2 = Record::writer();
    sample_record().write(&mut w1);
    sample_record().write(&mut w2);
    assert_eq!(w1.out, w2.out);
}

#[test]
fn write_all_matches_one_by_one() {
    let mut w1 = Record::writer();
    homebank_csv::homebank::write_all(vec![sample_record(), sample_record()], &mut w1);
    let mut w2 = Record::writer();
    sample_record().write(&mut w2);
    sample_record().write(&mut w2);
    assert_eq!(w1.out, w2.out);
    assert_eq!(w1.out.lines().count(), 2);
}

#[test]
fn write_quotes_field_with_delimiter() {
    let mut record = sample_record();
    record.memo = "a;b".to_string();
    record.amount = Amount { cents: 0 };
    let mut wtr = Record::writer();
    record.write(&mut wtr);
    assert_eq!(wtr.out, "2024-03-07;8;ref;Someone;\"a;b\";0,00;;\n");
}

#[test]
fn write_doubles_quote_characters() {
    let mut record = sample_record();
    record.payee = "He said \"hi\"".to_string();
    record.amount = Amount { cents: -5 };
    let mut wtr = Record::writer();
    record.write(&mut wtr);
    assert_eq!(
        wtr.out,
        "2024-03-07;8;ref;\"He said \"\"hi\"\"\";memo;-0,05;;\n"
    );
}

#[test]
fn amount_grouping_and_sign() {
    assert_eq!(Amount { cents: 123456 }.to_eur_string(), "1.234,56");
    assert_eq!(Amount { cents: -123456789 }.to_eur_string(), "-1.234.567,89");
    assert_eq!(Amount { cents: 7 }.to_eur_string(), "0,07");
    assert_eq!(Amount { cents: -4000 }.to_eur_string(), "-40,00");
}

#[test]
fn amount_parse_conventions() {
    assert_eq!(Amount::parse_eur("40,00").unwrap().cents, 4000);
    assert_eq!(Amount::parse_eur("+3").unwrap().cents, 300);
    assert_eq!(Amount::parse_eur("-1.234,56").unwrap().cents, -123456);
    assert_eq!(Amount::parse_eur("25,8").unwrap().cents, 2580);
    // The dot is the grouping separator, so it must sit before exactly
    // three digits: a dot used as a decimal point is rejected.
    assert!(Amount::parse_eur("-25.88").is_none());
    assert!(Amount::parse_eur("").is_none());
    assert!(Amount::parse_eur("12,345").is_none());
    assert!(Amount::parse_eur("1,2,3").is_none());
    assert!(Amount::parse_eur("abc").is_none());
}

#[test]
fn payment_codes_are_positions() {
    assert_eq!(Payment::Unspecified.code(), 0);
    assert_eq!(Payment::BankTransfer.code(), 4);
    assert_eq!(Payment::ElectronicPayment.code(), 8);
    assert_eq!(Payment::DirectDebit.code(), 11);
}

#[test]
fn date_parsing_and_rendering() {
    let d = homebank_csv::date::parse_dmy("7.3.2024").unwrap();
    assert_eq!((d.year, d.month, d.day), (2024, 3, 7));
    assert_eq!(d.to_iso_string(), "2024-03-07");
    assert!(homebank_csv::date::parse_dmy("31.2.2024").is_none());
    assert!(homebank_csv::date::parse_iso("2024-02-29").is_some());
    assert!(homebank_csv::date::parse_iso("2023-02-29").is_none());
    assert!(homebank_csv::date::parse_iso("2023/01/01").is_none());
}
