use fints_statements::amount::Amount;
use fints_statements::date::Date;
use fints_statements::error::FinTSError;
use fints_statements::mt940_parse::{
    clean, decode_statement, join, keep_substantial, line_transaction, mt940_tag_preview,
    parse_mt940, prepare, preview_text, statements_transactions, try_parse_mt940,
    try_parse_statement,
};
use fints_statements::fields::is_readable;
use fints_statements::statement::{
    is_decodable, read_statements, Information, Mark, Statement, StatementLine,
};
use fints_statements::types::{Transaction, TransactionStatus};

fn money(negative: bool, mantissa: u128, scale: u32) -> Amount {
    Amount {
        negative,
        mantissa,
        scale,
    }
}

fn day(year: i32, month: u32, day: u32) -> Date {
    Date { year, month, day }
}

fn raw<'a>(transaction: &'a Transaction, key: &str) -> Option<&'a str> {
    transaction
        .raw
        .iter()
        .find(|field| field.key == key)
        .unwrap()
        .value
        .as_deref()
}

fn line(mark: Mark, information: Option<Information>) -> StatementLine {
    StatementLine {
        value_date: day(2026, 7, 26),
        entry_date: None,
        mark,
        amount: money(false, 1234, 2),
        customer_ref: "REF".to_owned(),
        bank_ref: None,
        information,
    }
}

const STATEMENT: &[u8] = b"\r\n:20:3996-11-11111111\r\n:25:DABADKKK/111111-11111111\r\n\
:28C:00001/001\r\n:60F:C090924EUR54484,04\r\n\
:61:0909250925D583,92NMSC1110030403010139//1234\r\n\
:86:166?00GUTSCHRIFT?20Invoice ?2142?30BANKBIC?31DE01?32Ann?33 Lee\r\n\
:61:091001C62,60NCHGcustomer id\r\n:86:Fees according to advice\r\n\
:61:091002RD1,00NCHGNONREF\r\n\
:62F:C090930EUR53126,94\r\n-\r\n";

#[test]
fn statement_is_read_in_full() {
    let transactions = parse_mt940(STATEMENT, TransactionStatus::Booked).unwrap();
    assert_eq!(transactions.len(), 3);

    let first = &transactions[0];
    assert_eq!(first.date, day(2009, 9, 25));
    assert_eq!(first.valuta_date, Some(day(2009, 9, 25)));
    assert_eq!(first.amount, money(true, 58392, 2));
    assert_eq!(first.currency.code, "EUR");
    assert_eq!(first.applicant_name.as_deref(), Some("Ann Lee"));
    assert_eq!(first.applicant_iban.as_ref().unwrap().number, "DE01");
    assert_eq!(first.applicant_bic.as_ref().unwrap().code, "BANKBIC");
    assert_eq!(first.purpose.as_deref(), Some("Invoice 42"));
    assert_eq!(first.posting_text.as_deref(), Some("GUTSCHRIFT"));
    assert_eq!(first.reference.as_deref(), Some("1110030403010139"));
    assert_eq!(first.status, TransactionStatus::Booked);
    let keys: Vec<&str> = first.raw.iter().map(|field| field.key.as_str()).collect();
    assert_eq!(
        keys,
        [
            "date",
            "entry_date",
            "amount",
            "currency",
            "customer_ref",
            "bank_ref",
            "applicant_name",
            "applicant_iban",
            "applicant_bic",
            "purpose",
            "posting_text"
        ]
    );
    assert_eq!(raw(first, "date"), Some("2009-09-25"));
    assert_eq!(raw(first, "entry_date"), Some("2009-09-25"));
    assert_eq!(raw(first, "amount"), Some("-583.92"));
    assert_eq!(raw(first, "currency"), Some("EUR"));
    assert_eq!(raw(first, "customer_ref"), Some("1110030403010139"));
    assert_eq!(raw(first, "bank_ref"), Some("1234"));
    assert_eq!(raw(first, "applicant_name"), Some("Ann Lee"));
    assert_eq!(raw(first, "applicant_iban"), Some("DE01"));
    assert_eq!(raw(first, "applicant_bic"), Some("BANKBIC"));
    assert_eq!(raw(first, "purpose"), Some("Invoice 42"));
    assert_eq!(raw(first, "posting_text"), Some("GUTSCHRIFT"));

    let second = &transactions[1];
    assert_eq!(second.valuta_date, None);
    assert_eq!(second.amount, money(false, 6260, 2));
    assert_eq!(second.purpose.as_deref(), Some("Fees according to advice"));
    assert_eq!(second.applicant_name, None);
    assert_eq!(second.applicant_iban, None);
    assert_eq!(raw(second, "entry_date"), None);
    assert_eq!(raw(second, "amount"), Some("62.60"));
    assert_eq!(raw(second, "bank_ref"), None);

    let third = &transactions[2];
    assert_eq!(third.amount, money(false, 100, 2));
    assert_eq!(third.purpose, None);
}

#[test]
fn status_is_handed_on() {
    let transactions = parse_mt940(STATEMENT, TransactionStatus::Pending).unwrap();
    for transaction in &transactions {
        assert_eq!(transaction.status, TransactionStatus::Pending);
    }
    let mut booked = parse_mt940(STATEMENT, TransactionStatus::Booked).unwrap();
    for transaction in &mut booked {
        transaction.status = TransactionStatus::Pending;
    }
    assert_eq!(transactions, booked);
}

#[test]
fn empty_data_holds_no_transactions() {
    assert_eq!(parse_mt940(b"", TransactionStatus::Booked), Ok(Vec::new()));
    assert_eq!(
        try_parse_mt940(b"", TransactionStatus::Booked),
        Some(Ok(Vec::new()))
    );
}

#[test]
fn malformed_statement_fails() {
    let error = parse_mt940(b":20:A\r\n:99:B\r\n", TransactionStatus::Booked).unwrap_err();
    let reason = mt940::parse_mt940(":20:A\r\n:99:B\r\n").unwrap_err();
    assert_eq!(
        error,
        FinTSError::Mt940(format!("MT940 parse error: {reason}"))
    );
    let error = parse_mt940(b"hello", TransactionStatus::Booked).unwrap_err();
    let reason = mt940::parse_mt940("hello\r\n").unwrap_err();
    assert_eq!(
        error,
        FinTSError::Mt940(format!("MT940 parse error: {reason}"))
    );
}

#[test]
fn entry_date_that_does_not_exist_is_not_readable() {
    let data = b":20:A\r\n:25:B\r\n:28C:1\r\n:60F:C260101EUR1,00\r\n\
:61:2602010230D1,00NMSCREF\r\n:62F:C260101EUR1,00\r\n";
    assert_eq!(try_parse_mt940(data, TransactionStatus::Booked), None);
    let line = |line: &str| {
        format!(":20:A\r\n:25:B\r\n:28C:1\r\n:60F:C260101EUR1,00\r\n:61:{line}\r\n")
    };
    assert!(!is_readable(&line("2602010230D1,00NMSCREF")));
    assert!(is_readable(&line("2602010228D1,00NMSCREF")));
    assert!(is_readable(&line("2402010229RC1,00NMSCREF")));
    assert!(!is_readable(&line("2302010229RC1,00NMSCREF")));
    assert!(!is_readable(&line("2602010230D100NMSCREF")));
    assert!(is_readable(&line("2602300230D1,00NMSCREF")));
    assert!(is_readable(&line("260201D1,00NMSCREF")));
    assert!(is_readable("\u{e4}"));
}

#[test]
fn fault_before_a_missing_entry_date_is_an_error() {
    let bad = ":61:2602010230D1,00NMSCREF\r\n:62F:C260101EUR1,00\r\n";
    let head = ":20:A\r\n:25:B\r\n:28C:1\r\n:60F:C260101EUR1,00\r\n";
    for text in [
        bad.to_owned(),
        format!("{head}{}", bad.replace("NMSCREF", "XMSCREF")),
        format!("{head}:99:C\r\n{bad}"),
        format!(":20:A\r\n:25:B\r\n{bad}"),
        format!("{head}:61:260101D1NMSCREF\r\n{bad}"),
        format!("{head}:62F:C260101EUR1,00\r\n{bad}"),
        format!("{head}{head}{bad}"),
    ] {
        assert!(is_readable(&text));
        let reason = mt940::parse_mt940(&text).unwrap_err();
        assert_eq!(
            try_parse_mt940(text.as_bytes(), TransactionStatus::Booked),
            Some(Err(FinTSError::Mt940(format!(
                "MT940 parse error: {reason}"
            ))))
        );
    }
    let whole = format!("{head}:62F:C260101EUR1,00\r\n");
    for text in [
        format!("{head}{bad}"),
        format!("{whole}{head}{bad}"),
        format!("{head}:86:x\r\n{bad}:99:C\r\n"),
    ] {
        assert!(!is_readable(&text));
    }
}

#[test]
fn lines_that_say_nothing_make_no_difference() {
    let text = String::from_utf8(STATEMENT.to_vec()).unwrap();
    let expected = parse_mt940(STATEMENT, TransactionStatus::Booked);
    for other in [
        text.replace("\r\n", "\n"),
        text.replace("\r\n", "\r\n--\r\n \r\n"),
        text.trim().trim_end_matches("\r\n-").to_owned(),
    ] {
        assert_eq!(
            parse_mt940(other.as_bytes(), TransactionStatus::Booked),
            expected
        );
    }
}

#[test]
fn readable_statement_is_read_the_same_way() {
    assert_eq!(
        try_parse_mt940(STATEMENT, TransactionStatus::Booked),
        Some(parse_mt940(STATEMENT, TransactionStatus::Booked))
    );
    assert_eq!(
        try_parse_statement(&decode_statement(STATEMENT).0, TransactionStatus::Booked),
        Some(parse_mt940(STATEMENT, TransactionStatus::Booked))
    );
}

#[test]
fn statements_come_in_order() {
    let text = ":20:A\r\n:25:B\r\n:28C:1\r\n:60F:C260101EUR1,00\r\n\
:61:260102C1,00NMSCONE\r\n:62F:C260101EUR2,00\r\n\
:20:A\r\n:25:B\r\n:28C:2\r\n:60M:D260101CHF1,00\r\n:62M:C260101CHF2,00\r\n";
    let statements = read_statements(text).unwrap();
    assert_eq!(statements.len(), 2);
    assert_eq!(statements[0].currency, "EUR");
    assert_eq!(statements[0].lines.len(), 1);
    assert_eq!(statements[0].lines[0].mark, Mark::Credit);
    assert_eq!(statements[0].lines[0].amount, money(false, 100, 2));
    assert_eq!(statements[0].lines[0].customer_ref, "ONE");
    assert_eq!(statements[1].currency, "CHF");
    assert_eq!(statements[1].lines.len(), 0);
}

#[test]
fn one_transaction_for_each_line() {
    let statements = vec![
        Statement {
            currency: "EUR".to_owned(),
            lines: vec![line(Mark::Debit, None), line(Mark::Credit, None)],
        },
        Statement {
            currency: "CHF".to_owned(),
            lines: vec![line(Mark::ReverseCredit, None)],
        },
    ];
    let transactions = statements_transactions(&statements, TransactionStatus::Booked);
    let currencies: Vec<&str> = transactions
        .iter()
        .map(|transaction| transaction.currency.code.as_str())
        .collect();
    assert_eq!(currencies, ["EUR", "EUR", "CHF"]);
}

#[test]
fn debits_alone_are_negative() {
    for (mark, negative) in [
        (Mark::Debit, true),
        (Mark::Credit, false),
        (Mark::ReverseDebit, false),
        (Mark::ReverseCredit, false),
    ] {
        let transaction = line_transaction(&line(mark, None), "EUR", TransactionStatus::Booked);
        assert_eq!(transaction.amount, money(negative, 1234, 2));
    }
}

#[test]
fn plain_information_is_the_purpose() {
    let plain = Some(Information::Plain("Rent".to_owned()));
    let transaction =
        line_transaction(&line(Mark::Debit, plain), "EUR", TransactionStatus::Booked);
    assert_eq!(transaction.purpose.as_deref(), Some("Rent"));
    assert_eq!(transaction.applicant_name, None);
    assert_eq!(transaction.posting_text, None);
}

#[test]
fn cleaning_drops_lines_that_say_nothing() {
    assert_eq!(clean("a\n\n - \r\n--\n b \r\n---\n"), "a\r\n b \r\n---\r\n");
    assert_eq!(clean(""), "\r\n");
    assert_eq!(clean("-\n"), "\r\n");
    assert_eq!(keep_substantial("x\n\t\n-\ny"), ["x", "y"]);
}

#[test]
fn cleaning_twice_changes_nothing() {
    for text in ["", "a", "a\r\r\n\n-\nb\r", "\u{a0}\n:20:x\n"] {
        let once = clean(text);
        assert_eq!(clean(&once), once);
    }
}

#[test]
fn parts_are_joined() {
    let parts: Vec<String> = ["a", "b", "c"].iter().map(|part| part.to_string()).collect();
    assert_eq!(join(&parts, ", "), "a, b, c");
    assert_eq!(join(&Vec::new(), ", "), "");
}

#[test]
fn statement_text_is_of_swift_characters() {
    assert_eq!(prepare(":20:a\n-\n:25:b"), ":20:a\r\n:25:b\r\n");
    assert_eq!(prepare("M\u{fc}ller & Co"), "Muller . Co\r\n");
}

#[test]
fn bytes_are_windows_1252() {
    assert_eq!(decode_statement(b"abc"), ("abc".to_owned(), false));
    assert_eq!(
        decode_statement(&[0xe4, 0x80]),
        ("\u{e4}\u{20ac}".to_owned(), false)
    );
    assert_eq!(
        decode_statement(&[0xef, 0xbb, 0xbf, 0xc3, 0xa4, 0xff]),
        ("\u{e4}\u{fffd}".to_owned(), true)
    );
    assert!(is_decodable(b"abc"));
}

#[test]
fn preview_shows_the_first_tags() {
    assert_eq!(mt940_tag_preview(b""), "empty");
    assert_eq!(mt940_tag_preview(b"hello\r\n:"), "no MT940 tags found");
    assert_eq!(
        mt940_tag_preview(b"x\r\n  :20:A:B\r\n:25:B\r\nnot :28C:\r\n::\r\n:86\r\n"),
        ":20:,:25:,::"
    );
    let many: String = (0..20).map(|tag| format!(":{tag}:\n")).collect();
    assert_eq!(
        preview_text(&many),
        ":0:,:1:,:2:,:3:,:4:,:5:,:6:,:7:,:8:,:9:,:10:,:11:"
    );
}
