//! Which texts can be handed to the reader of statements, and which documents to the
//! reader of reports.

use crate::date::Date;
use crate::fields::{
    breaks_off, date_at, entry_date_is_reached, fields_of, first_lacking, lacking,
    lacks_entry_date, lemma_message_end, message_count, message_end, message_outcome, readable,
    starts_with_mark, without_entry_date,
};
use crate::text::{digit, digits_value};
use crate::xml::{countable, nests_in_range, starts_document_type};
use vstd::prelude::*;

verus! {

/// Two digits write ten times the first and the second.
proof fn lemma_two_digits(text: Seq<char>, at: int)
    requires
        0 <= at,
        at + 2 <= text.len(),
        digit(text[at]),
        digit(text[at + 1]),
    ensures
        digits_value(text.subrange(at, at + 2)) == 10 * (text[at] as int - 48) + (text[at
            + 1] as int - 48),
{
    let digits = text.subrange(at, at + 2);
    reveal_with_fuel(digits_value, 3);
    assert(digits.drop_last().drop_last() =~= Seq::empty());
    assert(digits.drop_last().last() == text[at]);
    assert(digits.last() == text[at + 1]);
}

/// The day of a year in this century, as the digits of a line write it: the year at the
/// start, the month and the day from a place on.
pub open spec fn written_day(line: Seq<char>, at: int) -> Date {
    Date {
        year: (2000 + 10 * (line[0] as int - 48) + (line[1] as int - 48)) as i32,
        month: (10 * (line[at] as int - 48) + (line[at + 1] as int - 48)) as u32,
        day: (10 * (line[at + 2] as int - 48) + (line[at + 3] as int - 48)) as u32,
    }
}

/// A statement line lacks its day of entry exactly where it starts with a date that the
/// calendar has, goes on with four digits in the shape of a month and a day, and then
/// with a mark, and the calendar has no such month and day in the year of the date.
pub proof fn law_when_a_day_of_entry_is_lacking(line: Seq<char>)
    ensures
        lacks_entry_date(line) <==> {
            &&& line.len() > 10
            &&& forall|i: int| 0 <= i < 10 ==> '0' <= #[trigger] line[i] <= '9'
            &&& line[6] == '0' || line[6] == '1'
            &&& line[8] <= '3'
            &&& line[10] == 'D' || line[10] == 'C' || line[10] == 'R' && line.len() > 11 && (
            line[11] == 'D' || line[11] == 'C')
            &&& written_day(line, 2).valid()
            &&& !written_day(line, 6).valid()
        },
{
    if line.len() > 10 {
        let behind = line.skip(10);
        assert(behind[0] == line[10]);
        if line.len() > 11 {
            assert(behind[1] == line[11]);
        }
        assert(starts_with_mark(behind) == (line[10] == 'D' || line[10] == 'C' || line[10] == 'R'
            && line.len() > 11 && (line[11] == 'D' || line[11] == 'C')));
        if forall|i: int| 0 <= i < 10 ==> '0' <= #[trigger] line[i] <= '9' {
            assert forall|i: int| 0 <= i < 10 implies digit(#[trigger] line[i]) by {
                assert('0' <= line[i] <= '9');
            }
            lemma_two_digits(line, 0);
            lemma_two_digits(line, 2);
            lemma_two_digits(line, 4);
            lemma_two_digits(line, 6);
            lemma_two_digits(line, 8);
            assert(date_at(line, 2) is Some <==> written_day(line, 2).valid());
            assert(date_at(line, 6) is Some <==> written_day(line, 6).valid());
            assert('0' <= line[6]);
        } else {
            let at = choose|i: int| 0 <= i < 10 && !('0' <= #[trigger] line[i] <= '9');
            assert(!digit(line[at]));
        }
    }
}

/// A field lacks a day of entry where it has the tag of a statement line and its line
/// does. Without that day the line has its date and what follows the day.
pub proof fn law_fields_that_lack_a_day(tag: Seq<char>, line: Seq<char>)
    ensures
        lacking((tag, line)) <==> tag == "61"@ && lacks_entry_date(line),
        line.len() >= 10 ==> without_entry_date(line) == line.subrange(0, 6) + line.subrange(
            10,
            line.len() as int,
        ),
{
    if line.len() >= 10 {
        assert(without_entry_date(line) =~= line.subrange(0, 6) + line.subrange(
            10,
            line.len() as int,
        ));
    }
}

/// There are as many messages as fields with the tag that starts one.
pub proof fn law_messages_are_counted(fields: Seq<(Seq<char>, Seq<char>)>)
    ensures
        message_count(fields) == fields.filter(
            |field: (Seq<char>, Seq<char>)| field.0 == "20"@,
        ).len(),
    decreases fields.len(),
{
    reveal(Seq::filter);
    if fields.len() > 0 {
        law_messages_are_counted(fields.drop_last());
    }
}

/// A message ends before the next field with the tag that starts one, or with the fields.
pub proof fn law_where_a_message_ends(fields: Seq<(Seq<char>, Seq<char>)>, start: int, end: int)
    requires
        0 <= start < end <= fields.len(),
        forall|i: int|
            start < i < end ==> (#[trigger] fields[i]).0 != "20"@,
        end < fields.len() ==> fields[end].0 == "20"@,
    ensures
        message_end(fields, start) == end,
    decreases end - start,
{
    if start + 1 < end {
        assert(fields[start + 1].0 != "20"@);
        law_where_a_message_ends(fields, start + 1, end);
    }
}

/// The first field that lacks a day of entry is the first that does, and where none does
/// there is no such field.
pub proof fn law_first_that_lacks_a_day(fields: Seq<(Seq<char>, Seq<char>)>, at: int)
    requires
        0 <= at <= fields.len(),
        forall|i: int| 0 <= i < at ==> !lacking(#[trigger] fields[i]),
        at < fields.len() ==> lacking(fields[at]),
    ensures
        first_lacking(fields) == at,
    decreases at,
{
    if at > 0 {
        let rest = fields.drop_first();
        assert(!lacking(fields[0]));
        assert forall|i: int| 0 <= i < at - 1 implies !lacking(#[trigger] rest[i]) by {
            assert(rest[i] == fields[i + 1]);
        }
        law_first_that_lacks_a_day(rest, at - 1);
    }
}

/// Reading comes to a day of entry where the fields before its line are in order, and so
/// are these and the line without the day, but for an amount.
pub proof fn law_when_a_day_of_entry_is_reached(
    before: Seq<(Seq<char>, Seq<char>)>,
    line: Seq<char>,
    behind: Seq<(Seq<char>, Seq<char>)>,
)
    ensures
        ({
            let message = before.push(("61"@, line)) + behind;
            let end = ("62F"@, "C000101EUR0,"@);
            let repaired = ("61"@, without_entry_date(line));
            entry_date_is_reached(message, before.len() as int) <==> {
                &&& message_outcome(before.push(end)) is Read
                &&& (message_outcome(before.push(repaired).push(end)) is Read || message_outcome(
                    before.push(repaired).push(end),
                ) is AmountFault)
            }
        }),
{
    let message = before.push(("61"@, line)) + behind;
    assert(message.take(before.len() as int) =~= before);
    assert(message[before.len() as int] == ("61"@, line));
}

/// Messages are read one after the other. Reading breaks off in the first that lacks a
/// day of entry and comes to it, and goes no further than the first that is not read.
pub proof fn law_messages_one_after_the_other(
    fields: Seq<(Seq<char>, Seq<char>)>,
    start: int,
    end: int,
    at: int,
)
    requires
        0 <= start < end <= fields.len(),
        forall|i: int|
            start < i < end ==> (#[trigger] fields[i]).0 != "20"@,
        end < fields.len() ==> fields[end].0 == "20"@,
        start <= at <= end,
        forall|i: int| start <= i < at ==> !lacking(#[trigger] fields[i]),
        at < end ==> lacking(fields[at]),
    ensures
        at < end ==> (breaks_off(fields, start) <==> entry_date_is_reached(
            fields.subrange(start, end),
            at - start,
        )),
        at == end && message_outcome(fields.subrange(start, end)) is Read ==> breaks_off(
            fields,
            start,
        ) == breaks_off(fields, end),
        at == end && !(message_outcome(fields.subrange(start, end)) is Read) ==> !breaks_off(
            fields,
            start,
        ),
        !breaks_off(fields, fields.len() as int),
{
    law_where_a_message_ends(fields, start, end);
    let message = fields.subrange(start, end);
    assert forall|i: int| 0 <= i < at - start implies !lacking(#[trigger] message[i]) by {
        assert(message[i] == fields[start + i]);
    }
    law_first_that_lacks_a_day(message, at - start);
}

/// Statements can be read from a text that is malformed or does not start with a
/// message, which is an error. They can be read from another where it has at most
/// 2147483648 messages and reading does not break off.
pub proof fn law_what_is_readable(text: Seq<char>)
    ensures
        ({
            let fields = fields_of(text)->0;
            &&& fields_of(text) is None ==> readable(text)
            &&& fields_of(text) is Some && (fields.len() == 0 || fields[0].0 != "20"@) ==> readable(
                text,
            )
            &&& fields_of(text) is Some && fields.len() > 0 && fields[0].0 == "20"@ ==> (readable(
                text,
            ) <==> message_count(fields) <= 0x8000_0000 && !breaks_off(fields, 0))
        }),
{
}

/// Statements can be read from a text with at most 2147483648 messages, where no
/// statement line lacks its day of entry.
pub proof fn law_readable_where_nothing_is_lacking(text: Seq<char>)
    requires
        fields_of(text) is Some,
        message_count(fields_of(text)->0) <= 0x8000_0000,
        forall|i: int|
            0 <= i < fields_of(text)->0.len() ==> !lacking(#[trigger] fields_of(text)->0[i]),
    ensures
        readable(text),
{
    lemma_nothing_lacking(fields_of(text)->0, 0);
}

/// Reading does not break off where no statement line lacks its day of entry.
proof fn lemma_nothing_lacking(fields: Seq<(Seq<char>, Seq<char>)>, start: int)
    requires
        0 <= start,
        forall|i: int| 0 <= i < fields.len() ==> !lacking(#[trigger] fields[i]),
    ensures
        !breaks_off(fields, start),
    decreases fields.len() - start,
{
    if start < fields.len() {
        let end = message_end(fields, start);
        lemma_message_end(fields, start);
        let message = fields.subrange(start, end);
        assert forall|i: int| 0 <= i < message.len() implies !lacking(#[trigger] message[i]) by {
            assert(message[i] == fields[start + i]);
        }
        law_first_that_lacks_a_day(message, message.len() as int);
        lemma_nothing_lacking(fields, end);
    }
}

/// A document without a document type can be read.
pub proof fn law_no_document_type(xml: Seq<u8>)
    requires
        forall|at: int|
            0 <= at && at + 2 < xml.len() && #[trigger] xml[at] == 0x3c && xml[at + 1] == 0x21
                ==> xml[at + 2] != 0x44 && xml[at + 2] != 0x64,
    ensures
        countable(xml),
{
    assert forall|at: int| 0 <= at && #[trigger] starts_document_type(
        xml,
        at,
    ) implies nests_in_range(xml.skip(at + 2), 0) by {
        assert(xml[at] == 0x3c);
    }
}

/// A document can be read exactly where the tags that are open in each document type are
/// in range.
pub proof fn law_each_document_type_counts(xml: Seq<u8>)
    ensures
        countable(xml) <==> forall|at: int|
            0 <= at && at + 2 < xml.len() && #[trigger] xml[at] == 0x3c && xml[at + 1] == 0x21 && (
            xml[at + 2] == 0x44 || xml[at + 2] == 0x64) ==> nests_in_range(
                xml.subrange(at + 2, xml.len() as int),
                0,
            ),
{
    assert forall|at: int| 0 <= at && at + 2 < xml.len() implies #[trigger] xml.skip(at + 2)
        == xml.subrange(at + 2, xml.len() as int) by {
        assert(xml.skip(at + 2) =~= xml.subrange(at + 2, xml.len() as int));
    }
    if countable(xml) {
        assert forall|at: int|
            0 <= at && at + 2 < xml.len() && #[trigger] xml[at] == 0x3c && xml[at + 1] == 0x21 && (
            xml[at + 2] == 0x44 || xml[at + 2] == 0x64) implies nests_in_range(
            xml.subrange(at + 2, xml.len() as int),
            0,
        ) by {
            assert(starts_document_type(xml, at));
            assert(xml.skip(at + 2) == xml.subrange(at + 2, xml.len() as int));
        }
    } else {
        let at = choose|at: int|
            0 <= at && #[trigger] starts_document_type(xml, at) && !nests_in_range(
                xml.skip(at + 2),
                0,
            );
        assert(xml[at] == 0x3c);
        assert(xml.skip(at + 2) == xml.subrange(at + 2, xml.len() as int));
    }
}

/// A byte that opens a tag counts up to 2147483647, one that closes a tag counts
/// down, and ends the document type where none is open. Other bytes do not count.
pub proof fn law_open_tags_are_counted(byte: u8, rest: Seq<u8>, open: int)
    ensures
        nests_in_range(Seq::empty(), open),
        byte == 0x3c && open >= 0x7fff_ffff ==> !nests_in_range(seq![byte] + rest, open),
        byte == 0x3c && open < 0x7fff_ffff ==> nests_in_range(seq![byte] + rest, open)
            == nests_in_range(rest, open + 1),
        byte == 0x3e && open == 0 ==> nests_in_range(seq![byte] + rest, open),
        byte == 0x3e && open != 0 ==> nests_in_range(seq![byte] + rest, open) == nests_in_range(
            rest,
            open - 1,
        ),
        byte != 0x3c && byte != 0x3e ==> nests_in_range(seq![byte] + rest, open) == nests_in_range(
            rest,
            open,
        ),
{
    assert((seq![byte] + rest).drop_first() =~= rest);
}

} // verus!
