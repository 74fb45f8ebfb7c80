use fints_statements::amount::Amount;
use fints_statements::date::Date;
use fints_statements::mt940_parse::line_transaction;
use fints_statements::statement::{Mark, StatementLine};
use fints_statements::text::{
    characters, commas_to_points, find, is_white_space, lines, same_text, string_between,
    strip_prefix, trim,
};
use fints_statements::types::TransactionStatus;
use std::str::FromStr;

const TEXTS: [&str; 14] = [
    "",
    "a",
    "\n",
    "\r\n",
    "a\n",
    "a\r\n",
    "a\nb",
    "a\r\n\r\nb\r",
    "a\r\r\nb\n\n",
    "\r",
    " \t\u{b}x y\u{3000}",
    "\u{a0}\u{2003}",
    "\u{feff}x\u{200b}",
    "\u{e4}\u{1f600}\n\u{2028}z",
];

#[test]
fn white_space_is_that_of_unicode() {
    for number in 0..=0x10ffffu32 {
        if let Some(character) = char::from_u32(number) {
            assert_eq!(is_white_space(character), character.is_whitespace());
        }
    }
}

#[test]
fn trimming_takes_white_space_from_both_ends() {
    for text in TEXTS {
        assert_eq!(trim(text), text.trim());
        assert_eq!(trim(&trim(text)), text.trim());
    }
}

#[test]
fn lines_end_with_line_feeds() {
    for text in TEXTS {
        let expected: Vec<&str> = text.lines().collect();
        assert_eq!(lines(text), expected);
    }
}

#[test]
fn characters_make_up_the_text() {
    for text in TEXTS {
        let all = characters(text);
        assert_eq!(all, text.chars().collect::<Vec<char>>());
        assert_eq!(string_between(&all, 0, all.len()), text);
    }
    assert_eq!(string_between(&characters("a\u{e4}bc"), 1, 3), "\u{e4}b");
}

#[test]
fn characters_are_found_from_a_place_on() {
    let all = characters("a:b:c");
    assert_eq!(find(&all, 0, ':'), 1);
    assert_eq!(find(&all, 2, ':'), 3);
    assert_eq!(find(&all, 4, ':'), 5);
}

#[test]
fn texts_are_compared() {
    for left in TEXTS {
        for right in TEXTS {
            assert_eq!(same_text(left, right), left == right);
        }
    }
}

#[test]
fn prefixes_are_stripped() {
    assert_eq!(strip_prefix(":61:x", ":61:").as_deref(), Some("x"));
    assert_eq!(strip_prefix(":61", ":61:"), None);
    assert_eq!(strip_prefix("x:61:", ":61:"), None);
    assert_eq!(strip_prefix("x", "").as_deref(), Some("x"));
}

#[test]
fn commas_become_points() {
    assert_eq!(commas_to_points("1,2.3,"), "1.2.3.");
    assert_eq!(commas_to_points(""), "");
}

fn written(amount: Amount, date: Date) -> (String, String) {
    let line = StatementLine {
        value_date: date,
        entry_date: None,
        mark: Mark::Credit,
        amount,
        customer_ref: String::new(),
        bank_ref: None,
        information: None,
    };
    let transaction = line_transaction(&line, "EUR", TransactionStatus::Booked);
    (
        transaction.raw[0].value.clone().unwrap(),
        transaction.raw[2].value.clone().unwrap(),
    )
}

#[test]
fn amounts_are_written_with_their_places() {
    let date = Date {
        year: 2026,
        month: 7,
        day: 26,
    };
    for (negative, mantissa, scale, expected) in [
        (false, 0, 0, "0"),
        (false, 0, 2, "0.00"),
        (true, 0, 2, "-0.00"),
        (false, 5, 2, "0.05"),
        (true, 12345, 2, "-123.45"),
        (false, 100, 0, "100"),
        (false, 100, 1, "10.0"),
    ] {
        let amount = Amount {
            negative,
            mantissa,
            scale,
        };
        assert_eq!(written(amount, date).1, expected);
    }
}

#[test]
fn amounts_read_back() {
    for text in [
        "0",
        "0.5",
        "12.340",
        "9999999999999999999999999999",
        "0.000000000000000000000000001",
    ] {
        let number = rust_decimal::Decimal::from_str(text).unwrap();
        assert_eq!(number.to_string(), text);
        let read = fints_statements::camt_assign::decimal(text).unwrap();
        let date = Date {
            year: 1,
            month: 1,
            day: 1,
        };
        assert_eq!(written(read, date).1, text);
    }
}

#[test]
fn dates_read_back() {
    let nothing = Amount {
        negative: false,
        mantissa: 0,
        scale: 0,
    };
    for text in ["2026-07-26", "0001-01-01", "9999-12-31", "0000-02-29"] {
        let date = fints_statements::camt_assign::date(text).unwrap();
        assert_eq!(written(nothing, date).0, text);
    }
    for (year, expected) in [(-1, "-0001-03-04"), (12345, "+12345-03-04")] {
        let date = Date {
            year,
            month: 3,
            day: 4,
        };
        assert_eq!(written(nothing, date).0, expected);
    }
}
