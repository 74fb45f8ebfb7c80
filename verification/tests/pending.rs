use fints_statements::amount::Amount;
use fints_statements::date::Date;
use fints_statements::pending::{
    is_well_cut, parse_pending_interim_mt940, parse_pending_now, parse_pending_statement_line,
    parse_pending_text,
    parse_short_date, parse_summary_line, try_parse_pending_interim_mt940, InterimSummary,
};
use fints_statements::summaries::{
    sum_up, try_validate_pending_summaries, validate_pending_summaries, SummaryMismatch,
};
use fints_statements::types::{Currency, Transaction, TransactionStatus};

fn money(negative: bool, mantissa: u128, scale: u32) -> Amount {
    Amount {
        negative,
        mantissa,
        scale,
    }
}

fn day(year: i32, month: u32, day: u32) -> Date {
    Date { year, month, day }
}

fn transaction(amount: Amount) -> Transaction {
    Transaction {
        date: day(2026, 7, 26),
        valuta_date: None,
        amount,
        currency: Currency::new("EUR"),
        applicant_name: None,
        applicant_iban: None,
        applicant_bic: None,
        purpose: None,
        posting_text: None,
        reference: None,
        raw: Vec::new(),
        status: TransactionStatus::Pending,
    }
}

fn summary(debit: bool, count: usize, amount: Amount) -> InterimSummary {
    InterimSummary {
        debit,
        count,
        amount,
        currency: "EUR".to_owned(),
    }
}

const INTERIM: &[u8] = b":20:PENDING\r\n:25:ACCOUNT\r\n:28C:1\r\n:34F:EUR0,\r\n:13D:2607261825+0200\r\n:61:260726D12,34NMSCREF1\r\n:86:Card payment one\r\n:61:260726D5,66NMSCREF2\r\n:86:Card payment two\r\n:61:260726C1,00NMSCREF3\r\n:86:Refund\r\n:90D:2EUR18,00\r\n:90C:1EUR1,00\r\n";

#[test]
fn parses_pending_interim_mt940_with_summary_tags() {
    let transactions = parse_pending_interim_mt940(INTERIM).unwrap().transactions;

    assert_eq!(transactions.len(), 3);
    assert_eq!(transactions[0].status, TransactionStatus::Pending);
    assert_eq!(transactions[0].amount, money(true, 1234, 2));
    assert_eq!(transactions[0].purpose.as_deref(), Some("Card payment one"));
    assert_eq!(transactions[2].amount, money(false, 100, 2));
}

#[test]
fn interim_report_in_full() {
    let interim = parse_pending_interim_mt940(INTERIM).unwrap();
    let first = &interim.transactions[0];
    assert_eq!(first.date, day(2026, 7, 26));
    assert_eq!(first.valuta_date, None);
    assert_eq!(first.currency.code, "EUR");
    assert_eq!(first.reference.as_deref(), Some("NMSCREF1"));
    let raw: Vec<(&str, Option<&str>)> = first
        .raw
        .iter()
        .map(|field| (field.key.as_str(), field.value.as_deref()))
        .collect();
    assert_eq!(
        raw,
        [
            ("source", Some("pending_interim_mt940")),
            ("statement_line", Some("260726D12,34NMSCREF1")),
            ("purpose", Some("Card payment one")),
            ("reference", Some("NMSCREF1")),
        ]
    );
    assert_eq!(
        interim.summaries,
        [
            summary(true, 2, money(false, 1800, 2)),
            summary(false, 1, money(false, 100, 2)),
        ]
    );
    assert_eq!(
        try_validate_pending_summaries(&interim.transactions, &interim.summaries),
        Some(Vec::new())
    );
}

#[test]
fn empty_data_announces_nothing() {
    let interim = parse_pending_interim_mt940(b"").unwrap();
    assert_eq!(interim.transactions, []);
    assert_eq!(interim.summaries, []);
}

#[test]
fn ascii_reports_can_be_read() {
    assert_eq!(
        try_parse_pending_interim_mt940(INTERIM),
        Some(parse_pending_interim_mt940(INTERIM))
    );
    assert!(try_parse_pending_interim_mt940(b":90D:1E").is_some());
}

#[test]
fn summary_cut_inside_a_character_is_not_read() {
    assert_eq!(try_parse_pending_interim_mt940(b":90D:1EU\x80,00"), None);
    assert!(try_parse_pending_interim_mt940(b":90D:1\x80,00").is_some());
}

#[test]
fn purposes_go_on_to_the_next_tag() {
    let text = ":61:260726D1,00\n:86:one\n  two  \n-\nthree\n:61:260726C2,00\nloose\n:86:lost";
    let interim = parse_pending_text(text, 2026);
    assert_eq!(interim.transactions.len(), 2);
    assert_eq!(
        interim.transactions[0].purpose.as_deref(),
        Some("one two three")
    );
    assert_eq!(interim.transactions[0].reference, None);
    assert_eq!(interim.transactions[1].purpose, None);
}

#[test]
fn lines_that_cannot_be_read_are_left_out() {
    let text = ":61:260732D1,00\n:86:x\n:61:26072D1,00\n:61:260726X\n:90D:EUR1\n:90C:1EURx\n";
    let interim = parse_pending_text(text, 2026);
    assert_eq!(interim.transactions, []);
    assert_eq!(interim.summaries, []);
}

#[test]
fn reading_further_adds_at_the_end() {
    let short = parse_pending_text(":61:260726D1,00\n:90D:1EUR1,00", 2026);
    let long = parse_pending_text(
        ":61:260726D1,00\n:90D:1EUR1,00\n:61:260727C2,00\n:90C:1EUR2,00",
        2026,
    );
    assert_eq!(short.transactions[0], long.transactions[0]);
    assert_eq!(short.summaries[0], long.summaries[0]);
    assert_eq!(long.transactions.len(), 2);
    assert_eq!(long.summaries.len(), 2);
}

#[test]
fn short_dates_are_near_the_present() {
    assert_eq!(parse_short_date("260726", 2026), Some(day(2026, 7, 26)));
    assert_eq!(parse_short_date("360101", 2026), Some(day(2036, 1, 1)));
    assert_eq!(parse_short_date("370101", 2026), Some(day(1937, 1, 1)));
    assert_eq!(parse_short_date("000101", 2099), Some(day(2000, 1, 1)));
    assert_eq!(parse_short_date("990101", 2000), Some(day(1999, 1, 1)));
    assert_eq!(parse_short_date("990101", -50), Some(day(-101, 1, 1)));
    assert_eq!(parse_short_date("240229", 2026), Some(day(2024, 2, 29)));
    assert_eq!(parse_short_date("260229", 2026), None);
    assert_eq!(parse_short_date("261301", 2026), None);
    assert_eq!(parse_short_date("26072", 2026), None);
    assert_eq!(parse_short_date("2607266", 2026), None);
    assert_eq!(parse_short_date("26072x", 2026), None);
    assert_eq!(parse_short_date("26\u{661}726", 2026), None);
}

#[test]
fn statement_lines_are_taken_apart() {
    let read = |line: &str| {
        parse_pending_statement_line(line, None, 2026)
            .map(|transaction| (transaction.amount, transaction.reference))
    };
    assert_eq!(
        read("260726D12,34NMSCREF1"),
        Some((money(true, 1234, 2), Some("NMSCREF1".to_owned())))
    );
    assert_eq!(
        read("2607260726CR5,00  NTRF "),
        Some((money(false, 500, 2), Some("NTRF".to_owned())))
    );
    assert_eq!(read("260726RD7,"), Some((money(true, 7, 0), None)));
    assert_eq!(read("260726\u{e4}C.5"), Some((money(false, 5, 1), None)));
    assert_eq!(read("260726D0,00"), Some((money(true, 0, 2), None)));
    assert_eq!(read("260726DXY1,00"), None);
    assert_eq!(read("260726D1,2,3"), None);
    assert_eq!(read("260726D,"), None);
    assert_eq!(read("260726D"), None);
    assert_eq!(read("260726"), None);
    assert_eq!(read("D26072"), None);
    assert_eq!(read("26072"), None);
}

#[test]
fn purpose_is_kept() {
    let transaction =
        parse_pending_statement_line("260726C1,00", Some("why".to_owned()), 2026).unwrap();
    assert_eq!(transaction.purpose.as_deref(), Some("why"));
    assert_eq!(transaction.raw[2].value.as_deref(), Some("why"));
    assert_eq!(transaction.raw[3].value, None);
}

#[test]
fn summary_lines_are_taken_apart() {
    assert_eq!(
        parse_summary_line(":90D:2EUR18,00"),
        Some(summary(true, 2, money(false, 1800, 2)))
    );
    assert_eq!(
        parse_summary_line(":90C:0EUR0,"),
        Some(summary(false, 0, money(false, 0, 0)))
    );
    assert_eq!(
        parse_summary_line(":90C:1\u{e4}x2"),
        Some(InterimSummary {
            debit: false,
            count: 1,
            amount: money(false, 2, 0),
            currency: "\u{e4}x".to_owned(),
        })
    );
    assert_eq!(parse_summary_line(":90D:EUR1,00"), None);
    assert_eq!(parse_summary_line(":90D:1EU"), None);
    assert_eq!(parse_summary_line(":90D:1EURx"), None);
    assert_eq!(parse_summary_line(":90D:99999999999999999999EUR1"), None);
    assert_eq!(parse_summary_line(":90E:1EUR1"), None);
    assert_eq!(parse_summary_line("90D:1EUR1"), None);
}

#[test]
fn largest_count_is_read() {
    let line = format!(":90D:{}EUR1", usize::MAX);
    assert_eq!(parse_summary_line(&line).unwrap().count, usize::MAX);
    let line = format!(":90D:{}0EUR1", usize::MAX);
    assert_eq!(parse_summary_line(&line), None);
}

#[test]
fn cuts_fall_between_characters() {
    assert!(is_well_cut(":90D:1EUR1"));
    assert!(is_well_cut(":90D:1\u{20ac}1"));
    assert!(is_well_cut(":90D:1\u{e4}"));
    assert!(is_well_cut(":90D:99999999999999999999EU\u{e4}"));
    assert!(is_well_cut(":90D:EU\u{e4}"));
    assert!(is_well_cut("EU\u{e4}"));
    assert!(!is_well_cut(":90D:1EU\u{e4}"));
    assert!(!is_well_cut(":90C:1\u{1f600}"));
}

#[test]
fn totals_are_of_one_direction() {
    let transactions = vec![
        transaction(money(true, 1234, 2)),
        transaction(money(true, 566, 2)),
        transaction(money(false, 1, 0)),
        transaction(money(true, 0, 0)),
        transaction(money(false, 0, 0)),
    ];
    assert_eq!(
        sum_up(&transactions, true),
        (3, Some(money(false, 1800, 2)))
    );
    assert_eq!(sum_up(&transactions, false), (2, Some(money(false, 1, 0))));
    assert_eq!(
        sum_up(&transactions, true).0 + sum_up(&transactions, false).0,
        transactions.len()
    );
    assert_eq!(sum_up(&Vec::new(), true), (0, Some(money(false, 0, 0))));
}

#[test]
fn totals_of_different_places_are_exact() {
    let transactions = vec![
        transaction(money(true, 1, 0)),
        transaction(money(true, 25, 1)),
        transaction(money(true, 123456789012345678901234567, 3)),
        transaction(money(true, 999, 3)),
    ];
    assert_eq!(
        sum_up(&transactions, true),
        (4, Some(money(false, 123456789012345678901239066, 3)))
    );
    let large = vec![
        transaction(money(false, 7922816251426433759354395033, 0)),
        transaction(money(false, 5, 1)),
    ];
    assert_eq!(
        sum_up(&large, false),
        (2, Some(money(false, 79228162514264337593543950335, 1)))
    );
}

#[test]
fn summaries_that_agree_are_not_told() {
    let transactions = vec![
        transaction(money(true, 18, 0)),
        transaction(money(false, 100, 2)),
    ];
    let summaries = vec![
        summary(true, 1, money(false, 1800, 2)),
        summary(false, 1, money(false, 1, 0)),
    ];
    assert_eq!(validate_pending_summaries(&transactions, &summaries), []);
}

#[test]
fn summaries_that_disagree_are_told() {
    let transactions = vec![
        transaction(money(true, 18, 0)),
        transaction(money(false, 1, 0)),
    ];
    let summaries = vec![
        summary(true, 2, money(false, 18, 0)),
        summary(false, 1, money(false, 1, 0)),
        summary(false, 1, money(false, 2, 0)),
    ];
    assert_eq!(
        validate_pending_summaries(&transactions, &summaries),
        [
            SummaryMismatch {
                debit: true,
                summary_count: 2,
                parsed_count: 1,
                summary_amount: money(false, 18, 0),
                parsed_amount: money(false, 18, 0),
                currency: "EUR".to_owned(),
            },
            SummaryMismatch {
                debit: false,
                summary_count: 1,
                parsed_count: 1,
                summary_amount: money(false, 2, 0),
                parsed_amount: money(false, 1, 0),
                currency: "EUR".to_owned(),
            },
        ]
    );
}

#[test]
fn totals_out_of_range_are_not_held_against_summaries() {
    let largest = (1u128 << 96) - 1;
    let transactions = vec![
        transaction(money(false, largest, 0)),
        transaction(money(false, largest, 0)),
    ];
    assert_eq!(sum_up(&transactions, false), (2, None));
    let credits = vec![summary(false, 2, money(false, 1, 0))];
    let debits = vec![summary(true, 0, money(false, 0, 0))];
    assert_eq!(try_validate_pending_summaries(&transactions, &credits), None);
    assert_eq!(
        try_validate_pending_summaries(&transactions, &debits),
        Some(Vec::new())
    );
}

#[test]
fn summary_at_the_end_alters_no_transaction() {
    let text = ":61:260726D1,00\n:86:one\ntwo";
    let longer = ":61:260726D1,00\n:86:one\ntwo\n:90D:1EUR1,00";
    assert_eq!(
        parse_pending_text(text, 2026).transactions,
        parse_pending_text(longer, 2026).transactions
    );
}

#[test]
fn text_without_dates_needs_no_year() {
    let text = ":20:x\n:61:2607\n:90D:0EUR0,00";
    let interim = parse_pending_now(text);
    assert_eq!(interim, parse_pending_text(text, 1970));
    assert_eq!(interim, parse_pending_text(text, 2026));
    assert_eq!(interim.summaries.len(), 1);
}
