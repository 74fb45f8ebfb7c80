use fints_statements::amount::Amount;
use fints_statements::camt::{
    attribute_value, local_name, normalize_report, parse_report, report_from_events,
    try_parse_report, CamtReport, ReportBuilder,
};
use fints_statements::camt_assign::{
    assign_balance, assign_code, assign_entry, assign_text, assign_transaction, context, date,
    decimal, parse_error, path_ends, timestamp, Context,
};
use fints_statements::camt_types::{
    CamtBalance, CamtCode, CamtEntry, CamtParty, CamtTransaction,
};
use fints_statements::date::{Date, Timestamp};
use fints_statements::error::FinTSError;
use fints_statements::xml::{is_countable, XmlEvent};
use std::str::FromStr;

fn amount(mantissa: u128, scale: u32) -> Amount {
    Amount {
        negative: false,
        mantissa,
        scale,
    }
}

fn day(year: i32, month: u32, day: u32) -> Date {
    Date { year, month, day }
}

fn path(names: &[&str]) -> Vec<String> {
    names.iter().map(|name| name.to_string()).collect()
}

fn start(name: &str) -> XmlEvent {
    XmlEvent::Start(name.as_bytes().to_vec(), Vec::new())
}

fn amount_start(currency: &str) -> XmlEvent {
    XmlEvent::Start(
        b"Amt".to_vec(),
        vec![Some((b"Ccy".to_vec(), currency.as_bytes().to_vec()))],
    )
}

fn end(name: &str) -> XmlEvent {
    XmlEvent::End(name.as_bytes().to_vec())
}

fn text(text: &str) -> XmlEvent {
    XmlEvent::Text(text.to_owned())
}

fn shown(report: &CamtReport) -> String {
    format!("{report:?}")
}

const BOOKED: &[u8] = br#"<?xml version="1.0" encoding="utf-8"?>
            <Document xmlns="urn:iso:std:iso:20022:tech:xsd:camt.052.001.08">
              <BkToCstmrAcctRpt><Rpt>
                <Acct><Id><IBAN>DE001</IBAN></Id><Ccy>EUR</Ccy>
                  <Svcr><FinInstnId><BICFI>TESTBIC</BICFI></FinInstnId></Svcr>
                </Acct>
                <Bal><Tp><CdOrPrtry><Cd>CLBD</Cd></CdOrPrtry></Tp>
                  <Amt Ccy="EUR">100.00</Amt><CdtDbtInd>CRDT</CdtDbtInd>
                  <Dt><Dt>2026-07-26</Dt></Dt>
                </Bal>
                <Ntry><Amt Ccy="EUR">4.44</Amt><CdtDbtInd>DBIT</CdtDbtInd>
                  <Sts><Cd>BOOK</Cd></Sts><BookgDt><Dt>2026-07-20</Dt></BookgDt>
                  <AcctSvcrRef>ref-1</AcctSvcrRef>
                  <NtryDtls><TxDtls><Refs><EndToEndId>e2e-1</EndToEndId></Refs>
                    <Amt Ccy="EUR">4.44</Amt><CdtDbtInd>DBIT</CdtDbtInd>
                    <RltdPties><Cdtr><Pty><Nm>Merchant</Nm></Pty></Cdtr></RltdPties>
                    <Purp><Cd>IDCP</Cd></Purp><RmtInf><Ustrd>Card payment</Ustrd></RmtInf>
                  </TxDtls></NtryDtls>
                </Ntry>
              </Rpt></BkToCstmrAcctRpt>
            </Document>"#;

#[test]
fn parses_dkb_like_booked_report() {
    let report = parse_report(BOOKED, false).unwrap();
    assert_eq!(report.account.iban.as_deref(), Some("DE001"));
    assert_eq!(report.account.bic.as_deref(), Some("TESTBIC"));
    assert_eq!(report.balances[0].code, "CLBD");
    assert_eq!(report.entries.len(), 1);
    assert_eq!(report.entries[0].status, "BOOK");
    assert_eq!(report.entries[0].acct_svcr_ref.as_deref(), Some("ref-1"));
    assert_eq!(report.entries[0].transactions[0].amount, amount(444, 2));
    assert_eq!(
        report.entries[0].transactions[0].creditor.name.as_deref(),
        Some("Merchant")
    );
}

#[test]
fn parses_pending_report_and_original_currency() {
    let xml = br#"<Document><BkToCstmrAcctRpt><Rpt><Acct><Ccy>EUR</Ccy></Acct>
            <Ntry><Amt Ccy="EUR">0.68</Amt><CdtDbtInd>DBIT</CdtDbtInd><Sts><Cd>PDNG</Cd></Sts>
              <NtryDtls><TxDtls><Amt Ccy="EUR">0.68</Amt><CdtDbtInd>DBIT</CdtDbtInd>
                <AmtDtls><InstdAmt><Amt Ccy="USD">0.77</Amt></InstdAmt></AmtDtls>
              </TxDtls></NtryDtls>
            </Ntry></Rpt></BkToCstmrAcctRpt></Document>"#;
    let report = parse_report(xml, true).unwrap();
    assert_eq!(report.entries[0].status, "PDNG");
    assert_eq!(
        report.entries[0].transactions[0]
            .original_currency
            .as_deref(),
        Some("USD")
    );
    assert_eq!(
        report.entries[0].transactions[0].original_amount,
        Some(amount(77, 2))
    );
}

#[test]
fn parses_report_page_metadata() {
    let xml = br#"<Document><BkToCstmrAcctRpt>
            <GrpHdr><MsgPgntn><PgNb>2</PgNb><LastPgInd>true</LastPgInd></MsgPgntn></GrpHdr>
            <Rpt><Acct><Ccy>EUR</Ccy></Acct></Rpt>
        </BkToCstmrAcctRpt></Document>"#;
    let report = parse_report(xml, false).unwrap();
    assert_eq!(report.page_number, Some(2));
    assert_eq!(report.last_page, Some(true));
}

#[test]
fn booked_report_in_full() {
    let report = parse_report(BOOKED, false).unwrap();
    assert_eq!(report.account.currency.as_deref(), Some("EUR"));
    assert_eq!(report.account.other_id, None);
    assert_eq!(report.page_number, None);
    assert_eq!(report.last_page, None);
    assert_eq!(report.balances.len(), 1);
    let balance = &report.balances[0];
    assert_eq!(balance.amount, amount(10000, 2));
    assert_eq!(balance.currency, "EUR");
    assert_eq!(balance.credit_debit, "CRDT");
    assert_eq!(balance.date, Some(day(2026, 7, 26)));
    let entry = &report.entries[0];
    assert_eq!(entry.amount, amount(444, 2));
    assert_eq!(entry.currency, "EUR");
    assert_eq!(entry.credit_debit, "DBIT");
    assert_eq!(entry.booking_date, Some(day(2026, 7, 20)));
    assert_eq!(entry.value_date, None);
    assert_eq!(entry.additional_info, None);
    assert_eq!(entry.transactions.len(), 1);
    let transaction = &entry.transactions[0];
    assert_eq!(transaction.end_to_end_id.as_deref(), Some("e2e-1"));
    assert_eq!(transaction.purpose_code.as_deref(), Some("IDCP"));
    assert_eq!(transaction.remittance.as_deref(), Some("Card payment"));
    assert_eq!(transaction.transaction_at, None);
    assert_eq!(transaction.original_amount, None);
}

#[test]
fn empty_document_is_an_empty_report() {
    let report = parse_report(b"", false).unwrap();
    assert_eq!(shown(&report), shown(&CamtReport::default()));
}

#[test]
fn transaction_details_are_read() {
    let xml = br#"<a:Document><a:Ntry><a:ValDt><a:Dt>2026-02-28</a:Dt></a:ValDt>
        <AddtlNtryInf>More</AddtlNtryInf>
        <TxDtls><TxDtTm>2026-07-26T18:25:00+02:00</TxDtTm>
        <Dbtr><Pty><Nm>Ann</Nm></Pty></Dbtr><DbtrAcct><Id><IBAN>DE1</IBAN></Id></DbtrAcct>
        <DbtrAgt><FinInstnId><BICFI>BIC1</BICFI></FinInstnId></DbtrAgt>
        <CdtrAcct><Id><IBAN>DE2</IBAN></Id></CdtrAcct>
        <CdtrAgt><FinInstnId><BICFI>BIC2</BICFI></FinInstnId></CdtrAgt>
        <BkTxCd><Domn><Cd>PMNT</Cd><Fmly><Cd>CCRD</Cd><SubFmlyCd>POSD</SubFmlyCd></Fmly></Domn>
        <Prtry><Cd>NMSC</Cd><Issr>DK</Issr></Prtry></BkTxCd>
        <Othr><Id>x</Id></Othr>
        </TxDtls></a:Ntry></a:Document>"#;
    let report = parse_report(xml, false).unwrap();
    let entry = &report.entries[0];
    assert_eq!(entry.value_date, Some(day(2026, 2, 28)));
    assert_eq!(entry.additional_info.as_deref(), Some("More"));
    let transaction = &entry.transactions[0];
    assert_eq!(
        transaction.transaction_at,
        Some(Timestamp {
            seconds: 1_785_083_100,
            nanoseconds: 0
        })
    );
    assert_eq!(transaction.debtor.name.as_deref(), Some("Ann"));
    assert_eq!(transaction.debtor.iban.as_deref(), Some("DE1"));
    assert_eq!(transaction.debtor.bic.as_deref(), Some("BIC1"));
    assert_eq!(transaction.creditor.name, None);
    assert_eq!(transaction.creditor.iban.as_deref(), Some("DE2"));
    assert_eq!(transaction.creditor.bic.as_deref(), Some("BIC2"));
    assert_eq!(transaction.code.domain.as_deref(), Some("PMNT"));
    assert_eq!(transaction.code.family.as_deref(), Some("CCRD"));
    assert_eq!(transaction.code.subfamily.as_deref(), Some("POSD"));
    assert_eq!(transaction.code.proprietary.as_deref(), Some("NMSC"));
    assert_eq!(transaction.code.issuer.as_deref(), Some("DK"));
}

#[test]
fn account_details_are_read() {
    let xml = b"<Acct><Id><Othr><Id>4711</Id></Othr></Id></Acct>";
    let report = parse_report(xml, false).unwrap();
    assert_eq!(report.account.other_id.as_deref(), Some("4711"));
    assert_eq!(report.account.currency, None);
}

#[test]
fn entry_without_details_gets_a_transaction() {
    let xml = br#"<Ntry><Amt Ccy="CHF">7,5</Amt><CdtDbtInd>CRDT</CdtDbtInd>
        <BkTxCd><Domn><Cd>PMNT</Cd></Domn></BkTxCd></Ntry>"#;
    let report = parse_report(xml, true).unwrap();
    assert_eq!(report.account.currency.as_deref(), Some("CHF"));
    let entry = &report.entries[0];
    assert_eq!(entry.status, "PDNG");
    assert_eq!(entry.transactions.len(), 1);
    let transaction = &entry.transactions[0];
    assert_eq!(transaction.amount, amount(75, 1));
    assert_eq!(transaction.currency, "CHF");
    assert_eq!(transaction.credit_debit, "CRDT");
    assert_eq!(transaction.code.domain.as_deref(), Some("PMNT"));
}

#[test]
fn status_goes_by_what_was_asked_for() {
    let xml = b"<Ntry/><Ntry></Ntry>";
    assert_eq!(parse_report(xml, true).unwrap().entries[0].status, "PDNG");
    assert_eq!(parse_report(xml, false).unwrap().entries[0].status, "BOOK");
    assert_eq!(parse_report(xml, false).unwrap().entries.len(), 1);
}

#[test]
fn currency_of_the_first_balance_stands_in() {
    let xml = br#"<R><Ntry><Amt>1</Amt></Ntry><Bal><Amt Ccy="EUR">2</Amt></Bal><Bal></Bal></R>"#;
    let report = parse_report(xml, false).unwrap();
    assert_eq!(report.account.currency.as_deref(), Some("EUR"));
    assert_eq!(report.entries[0].currency, "EUR");
    assert_eq!(report.entries[0].transactions[0].currency, "EUR");
    assert_eq!(report.balances[1].currency, "EUR");
}

#[test]
fn currency_holds_for_one_text() {
    let events = [
        start("Ntry"),
        amount_start("EUR"),
        text("1.00"),
        text("2.00"),
        end("Amt"),
        end("Ntry"),
        XmlEvent::Eof,
    ];
    let report = report_from_events(&events, false).unwrap();
    assert_eq!(report.entries[0].amount, amount(200, 2));
    assert_eq!(report.entries[0].currency, "");
}

#[test]
fn text_with_entities_is_resolved() {
    let xml = b"<Acct><Id><IBAN>A&amp;B</IBAN></Id><Ccy><![CDATA[ E&R ]]></Ccy></Acct>";
    let report = parse_report(xml, false).unwrap();
    assert_eq!(report.account.iban.as_deref(), Some("A&B"));
    assert_eq!(report.account.currency.as_deref(), Some("E&R"));
}

#[test]
fn malformed_section_is_read_lossily() {
    let events = [
        start("Acct"),
        start("Ccy"),
        XmlEvent::CData(vec![b'E', 0xff]),
        end("Ccy"),
        end("Acct"),
    ];
    let report = report_from_events(&events, false).unwrap();
    assert_eq!(report.account.currency.as_deref(), Some("E\u{fffd}"));
}

#[test]
fn unknown_entity_fails() {
    let result = parse_report(b"<Acct><Ccy>&nope;</Ccy></Acct>", false);
    match result {
        Err(FinTSError::Dialog(message)) => {
            assert!(message.starts_with("CAMT parse failed: "));
            assert!(message.contains("nope"));
        }
        other => panic!("{other:?}"),
    }
}

#[test]
fn mismatched_tag_fails() {
    let result = parse_report(b"<Acct></Ccy>", false);
    match result {
        Err(FinTSError::Dialog(message)) => assert!(message.starts_with("CAMT parse failed: ")),
        other => panic!("{other:?}"),
    }
}

#[test]
fn invalid_amount_fails() {
    let error = parse_report(b"<Ntry><Amt>1 2</Amt></Ntry>", false).unwrap_err();
    let reason = rust_decimal::Decimal::from_str("1 2").unwrap_err();
    assert_eq!(
        error,
        FinTSError::Dialog(format!(
            "CAMT parse failed: invalid CAMT amount \"1 2\": {reason}"
        ))
    );
}

#[test]
fn invalid_date_fails() {
    let error = parse_report(b"<Bal><Dt><Dt>2026-02-30</Dt></Dt></Bal>", false).unwrap_err();
    let reason = chrono::NaiveDate::parse_from_str("2026-02-30", "%Y-%m-%d").unwrap_err();
    assert_eq!(
        error,
        FinTSError::Dialog(format!(
            "CAMT parse failed: invalid CAMT date \"2026-02-30\": {reason}"
        ))
    );
}

#[test]
fn invalid_timestamp_fails() {
    let error = parse_report(b"<Ntry><TxDtls><TxDtTm>noon</TxDtTm></TxDtls></Ntry>", false)
        .unwrap_err();
    let reason = chrono::DateTime::parse_from_rfc3339("noon").unwrap_err();
    assert_eq!(
        error,
        FinTSError::Dialog(format!("CAMT parse failed: {reason}"))
    );
}

#[test]
fn invalid_page_number_fails() {
    let error = parse_report(b"<MsgPgntn><PgNb>-1</PgNb></MsgPgntn>", false).unwrap_err();
    let reason = "-1".parse::<u32>().unwrap_err();
    assert_eq!(
        error,
        FinTSError::Dialog(format!(
            "CAMT parse failed: invalid CAMT page number: {reason}"
        ))
    );
}

#[test]
fn invalid_last_page_flag_fails() {
    let error = parse_report(b"<MsgPgntn><LastPgInd>yes</LastPgInd></MsgPgntn>", false)
        .unwrap_err();
    let reason = "yes".parse::<bool>().unwrap_err();
    assert_eq!(
        error,
        FinTSError::Dialog(format!(
            "CAMT parse failed: invalid CAMT last-page flag: {reason}"
        ))
    );
}

#[test]
fn page_number_may_have_a_plus_sign() {
    let report = parse_report(b"<MsgPgntn><PgNb>+7</PgNb></MsgPgntn>", false).unwrap();
    assert_eq!(report.page_number, Some(7));
}

#[test]
fn local_names_are_without_prefix() {
    assert_eq!(local_name(b"camt:Ntry"), "Ntry");
    assert_eq!(local_name(b"a:b:Ntry"), "Ntry");
    assert_eq!(local_name(b"Ntry"), "Ntry");
    assert_eq!(local_name(b"Ntry:"), "");
    assert_eq!(local_name(&[0xff, b'x']), "");
    assert_eq!(local_name("x:\u{e4}".as_bytes()), "\u{e4}");
}

#[test]
fn prefixes_do_not_change_a_report() {
    let plain = b"<Ntry><Amt Ccy='EUR'>1</Amt></Ntry>";
    let prefixed = b"<c:Ntry><c:Amt c:Ccy='EUR'>1</c:Amt></c:Ntry>";
    assert_eq!(
        shown(&parse_report(plain, false).unwrap()),
        shown(&parse_report(prefixed, false).unwrap())
    );
}

#[test]
fn first_attribute_of_a_name_counts() {
    let attributes = [
        None,
        Some((b"x:Ccy".to_vec(), b"EUR".to_vec())),
        Some((b"Ccy".to_vec(), b"USD".to_vec())),
        Some((b"Bad".to_vec(), vec![0xff])),
    ];
    assert_eq!(attribute_value(&attributes, "Ccy").as_deref(), Some("EUR"));
    assert_eq!(attribute_value(&attributes, "Bad"), None);
    assert_eq!(attribute_value(&attributes, "Cc"), None);
}

#[test]
fn malformed_attribute_is_passed_over() {
    let xml = b"<Ntry><Amt bad Ccy='EUR'>1</Amt></Ntry>";
    let report = parse_report(xml, false).unwrap();
    assert_eq!(report.entries[0].currency, "EUR");
}

#[test]
fn path_ends_with_names() {
    let names = path(&["Acct", "Id", "IBAN"]);
    assert!(path_ends(&names, &["Id", "IBAN"]));
    assert!(path_ends(&names, &["Acct", "Id", "IBAN"]));
    assert!(path_ends(&names, &[]));
    assert!(!path_ends(&names, &["Acct", "IBAN"]));
    assert!(!path_ends(&names, &["Rpt", "Acct", "Id", "IBAN"]));
}

#[test]
fn context_goes_by_the_innermost_part() {
    assert_eq!(context(&path(&["Ntry", "TxDtls", "Amt"])), Context::Transaction);
    assert_eq!(context(&path(&["TxDtls", "Bal", "Ntry"])), Context::Transaction);
    assert_eq!(context(&path(&["Ntry", "Bal"])), Context::Entry);
    assert_eq!(context(&path(&["Bal", "Amt"])), Context::Balance);
    assert_eq!(context(&path(&["Rpt"])), Context::Outside);
}

#[test]
fn codes_go_by_the_path() {
    let mut code = CamtCode::default();
    assign_code(&path(&["Domn", "Cd"]), "a", &mut code);
    assign_code(&path(&["Fmly", "Cd"]), "b", &mut code);
    assign_code(&path(&["Fmly", "SubFmlyCd"]), "c", &mut code);
    assign_code(&path(&["Prtry", "Cd"]), "d", &mut code);
    assign_code(&path(&["Prtry", "Issr"]), "e", &mut code);
    assign_code(&path(&["Purp", "Cd"]), "f", &mut code);
    assert_eq!(code.domain.as_deref(), Some("a"));
    assert_eq!(code.family.as_deref(), Some("b"));
    assert_eq!(code.subfamily.as_deref(), Some("c"));
    assert_eq!(code.proprietary.as_deref(), Some("d"));
    assert_eq!(code.issuer.as_deref(), Some("e"));
}

#[test]
fn errors_name_the_report() {
    assert_eq!(
        parse_error("why".to_owned()),
        FinTSError::Dialog("CAMT parse failed: why".to_owned())
    );
}

#[test]
fn amounts_take_commas_and_points() {
    assert_eq!(decimal("1234,50"), Ok(amount(123450, 2)));
    assert_eq!(decimal("1234.50"), Ok(amount(123450, 2)));
    assert_eq!(decimal("5,"), Ok(amount(5, 0)));
    assert_eq!(decimal(",5"), Ok(amount(5, 1)));
    assert_eq!(
        decimal("-3"),
        Ok(Amount {
            negative: true,
            mantissa: 3,
            scale: 0
        })
    );
    assert!(decimal("1,2,3").is_err());
    assert!(decimal("").is_err());
    assert!(decimal("1 EUR").is_err());
    assert!(decimal("1.2e1.0").is_err());
    assert_eq!(decimal("1,2e1"), Ok(amount(12, 0)));
}

#[test]
fn dates_are_of_the_calendar() {
    assert_eq!(date("2024-02-29"), Ok(day(2024, 2, 29)));
    assert!(date("2023-02-29").is_err());
    assert!(date("26-07-2026").is_err());
    assert!(date("2026-07-26 ").is_err());
    assert!(date("2026-07-261").is_err());
    assert!(date("2026-07-26T00:00:00").is_err());
}

#[test]
fn timestamps_are_in_utc() {
    assert_eq!(
        timestamp("1970-01-01T01:00:00.5+01:00"),
        Ok(Timestamp {
            seconds: 0,
            nanoseconds: 500_000_000
        })
    );
    for (text, seconds) in [
        ("1970-01-01T00:00:00Z", 0),
        ("2000-02-29T23:59:59Z", 951_868_799),
        ("2000-03-01T00:00:00-05:30", 951_888_600),
        ("1969-12-31T23:59:59+23:59", -86_341),
        ("0000-01-01T00:00:00Z", -62_167_219_200),
        ("9999-12-31T23:59:59Z", 253_402_300_799),
    ] {
        assert_eq!(
            timestamp(text),
            Ok(Timestamp {
                seconds,
                nanoseconds: 0
            })
        );
    }
}

#[test]
fn balance_fields_go_by_the_path() {
    let mut balance = Some(CamtBalance {
        code: String::new(),
        amount: amount(0, 0),
        currency: "CHF".to_owned(),
        credit_debit: String::new(),
        date: None,
    });
    assign_balance(&path(&["CdOrPrtry", "Cd"]), "OPBD", None, &mut balance).unwrap();
    assign_balance(&path(&["Amt"]), "9", Some("EUR"), &mut balance).unwrap();
    let read = balance.as_ref().unwrap();
    assert_eq!(read.code, "OPBD");
    assert_eq!(read.amount, amount(9, 0));
    assert_eq!(read.currency, "EUR");
    assign_balance(&path(&["Amt"]), "8", None, &mut balance).unwrap();
    assert_eq!(balance.as_ref().unwrap().currency, "");
    assert!(assign_balance(&path(&["Amt"]), "x", None, &mut balance).is_err());
    assert_eq!(balance.as_ref().unwrap().amount, amount(8, 0));
    let mut none = None;
    assign_balance(&path(&["Amt"]), "x", None, &mut none).unwrap();
    assert!(none.is_none());
}

#[test]
fn nothing_in_hand_takes_nothing() {
    let mut entry = None;
    assign_entry(&path(&["Amt"]), "x", None, &mut entry).unwrap();
    assert!(entry.is_none());
    let mut transaction = None;
    assign_transaction(&path(&["Amt"]), "x", None, &mut transaction).unwrap();
    assert!(transaction.is_none());
}

#[test]
fn original_amount_is_kept_apart() {
    let mut transaction = Some(CamtTransaction {
        amount: amount(1, 0),
        currency: "EUR".to_owned(),
        credit_debit: String::new(),
        end_to_end_id: None,
        transaction_at: None,
        debtor: CamtParty::default(),
        creditor: CamtParty::default(),
        purpose_code: None,
        remittance: None,
        code: CamtCode::default(),
        original_amount: None,
        original_currency: None,
    });
    assign_transaction(&path(&["InstdAmt", "Amt"]), "2", None, &mut transaction).unwrap();
    let read = transaction.unwrap();
    assert_eq!(read.amount, amount(1, 0));
    assert_eq!(read.currency, "EUR");
    assert_eq!(read.original_amount, Some(amount(2, 0)));
    assert_eq!(read.original_currency, None);
}

#[test]
fn blank_text_says_nothing() {
    let mut report = CamtReport::default();
    assign_text(
        &path(&["MsgPgntn", "PgNb"]),
        " \u{a0}\n",
        None,
        &mut report,
        &mut None,
        &mut None,
        &mut None,
    )
    .unwrap();
    assert_eq!(report.page_number, None);
}

#[test]
fn text_is_trimmed() {
    let mut report = CamtReport::default();
    assign_text(
        &path(&["Acct", "Ccy"]),
        "\t EUR\r\n",
        None,
        &mut report,
        &mut None,
        &mut None,
        &mut None,
    )
    .unwrap();
    assert_eq!(report.account.currency.as_deref(), Some("EUR"));
}

#[test]
fn events_in_two_parts() {
    let mut builder = ReportBuilder::new(false);
    for event in [start("Ntry"), amount_start("EUR"), text("1")] {
        builder.apply(&event).unwrap();
    }
    for event in [end("Amt"), XmlEvent::Other, end("Ntry")] {
        builder.apply(&event).unwrap();
    }
    let report = builder.finish();
    assert_eq!(report.entries.len(), 1);
    assert_eq!(report.entries[0].amount, amount(1, 0));
    assert_eq!(report.entries[0].currency, "EUR");
}

#[test]
fn other_events_and_the_rest_say_nothing() {
    let events = [
        XmlEvent::Other,
        start("Ntry"),
        XmlEvent::Other,
        end("Ntry"),
        XmlEvent::Eof,
        XmlEvent::Failed("late".to_owned()),
    ];
    let fewer = [start("Ntry"), end("Ntry")];
    assert_eq!(
        shown(&report_from_events(&events, true).unwrap()),
        shown(&report_from_events(&fewer, true).unwrap())
    );
}

#[test]
fn failed_event_is_an_error() {
    let events = [start("Ntry"), XmlEvent::Failed("why".to_owned())];
    assert_eq!(
        report_from_events(&events, false).unwrap_err(),
        FinTSError::Dialog("CAMT parse failed: why".to_owned())
    );
}

#[test]
fn transaction_outside_an_entry_is_dropped() {
    let report = parse_report(b"<TxDtls><Amt>1</Amt></TxDtls><Ntry></Ntry>", false).unwrap();
    assert_eq!(report.entries.len(), 1);
    assert_eq!(report.entries[0].transactions[0].amount, amount(0, 0));
}

#[test]
fn code_is_handed_down_without_a_domain() {
    let xml = b"<Ntry><BkTxCd><Domn><Cd>PMNT</Cd></Domn></BkTxCd>
        <TxDtls><BkTxCd><Fmly><Cd>CCRD</Cd></Fmly></BkTxCd></TxDtls></Ntry>";
    let report = parse_report(xml, false).unwrap();
    let code = &report.entries[0].transactions[0].code;
    assert_eq!(code.domain.as_deref(), Some("PMNT"));
    assert_eq!(code.family, None);
}

#[test]
fn normalizing_twice_changes_nothing() {
    let mut report = CamtReport::default();
    report.account.currency = Some("EUR".to_owned());
    report.entries.push(CamtEntry {
        amount: amount(3, 1),
        currency: String::new(),
        credit_debit: "DBIT".to_owned(),
        status: "BOOK".to_owned(),
        booking_date: None,
        value_date: None,
        acct_svcr_ref: None,
        code: CamtCode::default(),
        additional_info: None,
        transactions: Vec::new(),
    });
    normalize_report(&mut report);
    assert_eq!(report.entries[0].currency, "EUR");
    assert_eq!(report.entries[0].transactions.len(), 1);
    assert_eq!(report.entries[0].transactions[0].currency, "EUR");
    let copy = report.clone();
    normalize_report(&mut report);
    assert_eq!(shown(&report), shown(&copy));
}

#[test]
fn countable_report_is_read_the_same_way() {
    assert!(is_countable(BOOKED));
    assert_eq!(
        shown(&try_parse_report(BOOKED, false).unwrap().unwrap()),
        shown(&parse_report(BOOKED, false).unwrap())
    );
}

#[test]
fn document_type_is_passed_over() {
    let xml = b"<!DOCTYPE a [<!ELEMENT a (b)><!ELEMENT b (c)>]><Acct><Ccy>EUR</Ccy></Acct>";
    let report = parse_report(xml, false).unwrap();
    assert_eq!(report.account.currency.as_deref(), Some("EUR"));
}

#[test]
fn given_status_stays_whatever_was_asked_for() {
    let xml = b"<R><Ntry><Sts><Cd>INFO</Cd></Sts></Ntry><Ntry><Sts><Cd> </Cd></Sts>
        <TxDtls><Sts><Cd>BOOK</Cd></Sts></TxDtls></Ntry></R>";
    let pending = parse_report(xml, true).unwrap();
    let booked = parse_report(xml, false).unwrap();
    assert_eq!(pending.entries[0].status, "INFO");
    assert_eq!(booked.entries[0].status, "INFO");
    assert_eq!(pending.entries[1].status, "PDNG");
    assert_eq!(booked.entries[1].status, "BOOK");
}
