//! The fields of MT940 messages, and which texts the `mt940` crate can be handed.

use crate::date::{calendar_date, date_from_parts, Date};
use crate::text::{characters, digit, digits_value, same_text, string_between, two_digits};
use mt940::{Field, Message, ParseError};
use vstd::prelude::*;

verus! {

/// The fields of a text, with their tags and values as sequences of characters.
pub open spec fn field_views(fields: Option<Vec<(String, String)>>) -> Option<
    Seq<(Seq<char>, Seq<char>)>,
> {
    match fields {
        Some(fields) => Some(pair_views(fields@)),
        None => None,
    }
}

/// What `mt940::parse_fields` makes of a text: the tag and the value of each
/// field, or nothing where the text is malformed.
pub uninterp spec fn fields_of(text: Seq<char>) -> Option<Seq<(Seq<char>, Seq<char>)>>;

/// Takes a text apart with `mt940::parse_fields`. The outcome goes by the text alone.
#[verifier::external_body]
pub(crate) fn parse_fields(text: &str) -> (result: Option<Vec<(String, String)>>)
    ensures
        field_views(result) == fields_of(text@),
{
    mt940::parse_fields(text).ok().map(
        |fields| fields.into_iter().map(|field| (field.tag, field.value)).collect(),
    )
}

/// Whether a text starts with one of the four marks.
pub open spec fn starts_with_mark(text: Seq<char>) -> bool {
    ||| text.len() > 0 && (text[0] == 'D' || text[0] == 'C')
    ||| text.len() > 1 && text[0] == 'R' && (text[1] == 'D' || text[1] == 'C')
}

/// The date in this century that starts at a place of a text, with the year at
/// the start of the text.
pub open spec fn date_at(text: Seq<char>, start: int) -> Option<Date> {
    calendar_date(
        (2000 + digits_value(text.subrange(0, 2))) as i32,
        digits_value(text.subrange(start, start + 2)) as u32,
        digits_value(text.subrange(start + 2, start + 4)) as u32,
    )
}

/// Whether a statement line gives a month and a day of entry that its year does
/// not have: a date of six digits, four digits that have the shape of a month
/// and a day, and a mark.
pub open spec fn lacks_entry_date(line: Seq<char>) -> bool {
    &&& line.len() > 10
    &&& forall|i: int| 0 <= i < 10 ==> digit(#[trigger] line[i])
    &&& line[6] <= '1'
    &&& line[8] <= '3'
    &&& starts_with_mark(line.skip(10))
    &&& date_at(line, 2) is Some
    &&& date_at(line, 6) is None
}

/// Whether a field is a statement line with an entry date that does not exist.
pub open spec fn lacking(field: (Seq<char>, Seq<char>)) -> bool {
    field.0 == "61"@ && lacks_entry_date(field.1)
}

/// What comes of the fields of a message.
#[derive(Debug, Clone, Copy, PartialEq, Eq, Structural)]
pub enum MessageOutcome {
    /// They are a message.
    Read,
    /// An amount is at fault.
    AmountFault,
    /// Something else is at fault.
    OtherFault,
}

/// What `mt940::Message::from_fields` makes of fields: a message, or the error
/// that comes first.
pub uninterp spec fn message_outcome(fields: Seq<(Seq<char>, Seq<char>)>) -> MessageOutcome;

/// The tags and values of fields as sequences of characters.
pub open spec fn pair_views(fields: Seq<(String, String)>) -> Seq<(Seq<char>, Seq<char>)> {
    Seq::new(fields.len(), |i: int| (fields[i].0@, fields[i].1@))
}

/// Tries the fields of a message with `mt940::Message::from_fields`, which panics
/// on a statement line with an entry date that does not exist. The outcome goes by
/// the fields alone.
#[verifier::external_body]
pub(crate) fn try_message(fields: &Vec<(String, String)>) -> (result: MessageOutcome)
    requires
        forall|i: int| 0 <= i < fields@.len() ==> !lacking(#[trigger] pair_views(fields@)[i]),
    ensures
        result == message_outcome(pair_views(fields@)),
{
    let fields = fields.iter().map(|field| Field::new(&field.0, &field.1)).collect();
    match Message::from_fields(fields) {
        Ok(_) => MessageOutcome::Read,
        Err(ParseError::AmountParseError(_)) => MessageOutcome::AmountFault,
        Err(_) => MessageOutcome::OtherFault,
    }
}

/// How many of the fields start a message.
pub open spec fn message_count(fields: Seq<(Seq<char>, Seq<char>)>) -> int
    decreases fields.len(),
{
    if fields.len() == 0 {
        0
    } else {
        message_count(fields.drop_last()) + if fields.last().0 == "20"@ {
            1int
        } else {
            0
        }
    }
}

/// Where the message that starts at a field ends: at the next field that starts
/// one, or behind the last.
pub open spec fn message_end(fields: Seq<(Seq<char>, Seq<char>)>, start: int) -> int
    decreases fields.len() - start,
{
    if start + 1 >= fields.len() {
        fields.len() as int
    } else if fields[start + 1].0 == "20"@ {
        start + 1
    } else {
        message_end(fields, start + 1)
    }
}

/// Where a statement line with an entry date that does not exist first stands, or
/// the number of fields.
pub open spec fn first_lacking(fields: Seq<(Seq<char>, Seq<char>)>) -> int
    decreases fields.len(),
{
    if fields.len() == 0 || lacking(fields[0]) {
        0
    } else {
        1 + first_lacking(fields.drop_first())
    }
}

/// A field that may end a message wherever a statement line may stand.
pub open spec fn closing() -> (Seq<char>, Seq<char>) {
    ("62F"@, "C000101EUR0,"@)
}

/// A statement line without the month and the day of entry.
pub open spec fn without_entry_date(line: Seq<char>) -> Seq<char> {
    line.take(6) + line.skip(10)
}

/// Whether reading a message comes as far as the entry date of a statement line:
/// the fields before the line are in order, and so is the line but for that date
/// and for its amount, which is read later.
pub open spec fn entry_date_is_reached(message: Seq<(Seq<char>, Seq<char>)>, at: int) -> bool {
    let before = message.take(at);
    let line = ("61"@, without_entry_date(message[at].1));
    &&& message_outcome(before.push(closing())) is Read
    &&& !(message_outcome(before.push(line).push(closing())) is OtherFault)
}

/// Whether reading messages one after the other, from the one that starts at a
/// field, comes to an entry date that does not exist.
pub open spec fn breaks_off(fields: Seq<(Seq<char>, Seq<char>)>, start: int) -> bool
    decreases fields.len() - start,
{
    if start >= fields.len() {
        false
    } else {
        let end = message_end(fields, start);
        proof {
            lemma_message_end(fields, start);
        }
        let message = fields.subrange(start, end);
        let at = first_lacking(message);
        if at < message.len() {
            entry_date_is_reached(message, at)
        } else {
            message_outcome(message) is Read && breaks_off(fields, end)
        }
    }
}

/// A message ends behind the field that it starts at.
pub proof fn lemma_message_end(fields: Seq<(Seq<char>, Seq<char>)>, start: int)
    requires
        start < fields.len(),
    ensures
        start < message_end(fields, start) <= fields.len(),
    decreases fields.len() - start,
{
    if start + 1 < fields.len() && fields[start + 1].0 != "20"@ {
        lemma_message_end(fields, start + 1);
    }
}

/// Whether `mt940::parse_mt940` returns on a text. It gives an error where the
/// fields are malformed or do not start with a message. Else it reads the messages
/// one after the other up to the first error, panics where it comes to an entry
/// date that does not exist, and counts the messages with 32 bits.
pub open spec fn readable(text: Seq<char>) -> bool {
    match fields_of(text) {
        Some(fields) => fields.len() > 0 && fields[0].0 == "20"@ ==> message_count(fields)
            <= 0x8000_0000 && !breaks_off(fields, 0),
        None => true,
    }
}

/// The date in this century that starts at a place of a text, with the year at
/// the start of the text.
fn find_date(characters: &Vec<char>, start: usize) -> (result: Option<Date>)
    requires
        2 <= start <= 6,
        characters@.len() > 10,
        forall|i: int| 0 <= i < 10 ==> digit(#[trigger] characters@[i]),
    ensures
        result == date_at(characters@, start as int),
{
    let year = two_digits(characters, 0);
    let month = two_digits(characters, start);
    let day = two_digits(characters, start + 2);
    date_from_parts(2000 + year as i32, month, day)
}

/// Whether a statement line gives a month and a day of entry that its year does
/// not have.
fn is_without_entry_date(line: &str) -> (result: bool)
    ensures
        result == lacks_entry_date(line@),
{
    let characters = characters(line);
    if characters.len() <= 10 {
        return false;
    }
    let mut at: usize = 0;
    while at < 10
        invariant
            at <= 10 < characters@.len(),
            characters@ == line@,
            forall|i: int| 0 <= i < at ==> digit(#[trigger] characters@[i]),
        decreases 10 - at,
    {
        if !(('0' <= characters[at]) && characters[at] <= '9') {
            assert(!digit(characters@[at as int]));
            return false;
        }
        at = at + 1;
    }
    let first = characters[10];
    let marked = first == 'D' || first == 'C' || (characters.len() > 11 && first == 'R' && (
    characters[11] == 'D' || characters[11] == 'C'));
    assert(marked == starts_with_mark(characters@.skip(10)));
    if !marked || characters[6] > '1' || characters[8] > '3' {
        return false;
    }
    find_date(&characters, 2).is_some() && find_date(&characters, 6).is_none()
}

/// Where the message that starts at a field ends.
fn find_message_end(fields: &Vec<(String, String)>, start: usize) -> (result: usize)
    requires
        start < fields@.len(),
    ensures
        start < result <= fields@.len(),
        result == message_end(pair_views(fields@), start as int),
{
    let mut at: usize = start;
    while at < fields.len() - 1
        invariant
            start <= at < fields@.len(),
            message_end(pair_views(fields@), start as int) == message_end(
                pair_views(fields@),
                at as int,
            ),
        decreases fields@.len() - at,
    {
        if same_text(fields[at + 1].0.as_str(), "20") {
            return at + 1;
        }
        at = at + 1;
    }
    fields.len()
}

/// A place with nothing lacking before it is the first one.
proof fn lemma_first_lacking(fields: Seq<(Seq<char>, Seq<char>)>, at: int)
    requires
        0 <= at <= fields.len(),
        forall|i: int| 0 <= i < at ==> !lacking(#[trigger] fields[i]),
        at < fields.len() ==> lacking(fields[at]),
    ensures
        first_lacking(fields) == at,
    decreases fields.len(),
{
    if at > 0 {
        assert(!lacking(fields[0]));
        let rest = fields.drop_first();
        assert forall|i: int| 0 <= i < at - 1 implies !lacking(#[trigger] rest[i]) by {
            assert(rest[i] == fields[i + 1]);
        }
        lemma_first_lacking(rest, at - 1);
    }
}

/// Where a statement line with an entry date that does not exist first stands from
/// `start` on and before `end`, or `end`.
fn find_lacking(fields: &Vec<(String, String)>, start: usize, end: usize) -> (result: usize)
    requires
        start <= end <= fields@.len(),
    ensures
        start <= result <= end,
        result - start == first_lacking(pair_views(fields@).subrange(start as int, end as int)),
        forall|i: int| start <= i < result ==> !lacking(#[trigger] pair_views(fields@)[i]),
        result < end ==> lacking(pair_views(fields@)[result as int]),
{
    let ghost views = pair_views(fields@);
    let mut at: usize = start;
    while at < end && !(same_text(fields[at].0.as_str(), "61") && is_without_entry_date(
        fields[at].1.as_str(),
    ))
        invariant
            start <= at <= end <= fields@.len(),
            views == pair_views(fields@),
            forall|i: int| start <= i < at ==> !lacking(#[trigger] views[i]),
        decreases end - at,
    {
        assert(views[at as int] == (fields@[at as int].0@, fields@[at as int].1@));
        at = at + 1;
    }
    proof {
        let part = views.subrange(start as int, end as int);
        if at < end {
            assert(views[at as int] == (fields@[at as int].0@, fields@[at as int].1@));
        }
        assert forall|i: int| 0 <= i < at - start implies !lacking(#[trigger] part[i]) by {
            assert(part[i] == views[start + i]);
        }
        lemma_first_lacking(part, at - start);
    }
    at
}

/// The fields from `start` on and before `end`.
fn copy_fields(fields: &Vec<(String, String)>, start: usize, end: usize) -> (result: Vec<
    (String, String),
>)
    requires
        start <= end <= fields@.len(),
    ensures
        pair_views(result@) == pair_views(fields@).subrange(start as int, end as int),
{
    let mut result: Vec<(String, String)> = Vec::new();
    let mut at: usize = start;
    while at < end
        invariant
            start <= at <= end <= fields@.len(),
            result@.len() == at - start,
            forall|i: int|
                0 <= i < result@.len() ==> #[trigger] pair_views(result@)[i] == pair_views(
                    fields@,
                )[start + i],
        decreases end - at,
    {
        let ghost before = pair_views(result@);
        result.push((fields[at].0.clone(), fields[at].1.clone()));
        assert forall|i: int| 0 <= i < result@.len() implies #[trigger] pair_views(result@)[i]
            == pair_views(fields@)[start + i] by {
            if i < before.len() {
                assert(pair_views(result@)[i] == before[i]);
            }
        }
        at = at + 1;
    }
    assert(pair_views(result@) =~= pair_views(fields@).subrange(start as int, end as int));
    result
}

/// A statement line without the month and the day of entry.
fn drop_entry_date(line: &str) -> (result: String)
    requires
        lacks_entry_date(line@),
    ensures
        result@ == without_entry_date(line@),
        !lacks_entry_date(result@),
{
    let all = characters(line);
    let mut result = string_between(&all, 0, 6);
    result.append(string_between(&all, 10, all.len()).as_str());
    proof {
        assert(result@ =~= without_entry_date(line@));
        assert(result@[6] == line@.skip(10)[0]);
        if lacks_entry_date(result@) {
            assert(digit(result@[6]));
        }
    }
    result
}

/// Whether reading a message comes as far as the entry date of the first statement
/// line whose entry date does not exist.
fn is_entry_date_reached(fields: &Vec<(String, String)>, start: usize, at: usize, end: usize) -> (
result: bool)
    requires
        start <= at < end <= fields@.len(),
        forall|i: int| start <= i < at ==> !lacking(#[trigger] pair_views(fields@)[i]),
        lacking(pair_views(fields@)[at as int]),
    ensures
        result == entry_date_is_reached(
            pair_views(fields@).subrange(start as int, end as int),
            at - start,
        ),
{
    let ghost views = pair_views(fields@);
    let ghost message = views.subrange(start as int, end as int);
    let ghost before = message.take(at - start);
    assert(views.subrange(start as int, at as int) =~= before);
    assert(views[at as int] == (fields@[at as int].0@, fields@[at as int].1@));
    assert(message[at - start] == views[at as int]);
    let line = drop_entry_date(fields[at].1.as_str());
    let mut ended = copy_fields(fields, start, at);
    ended.push(("62F".to_owned(), "C000101EUR0,".to_owned()));
    let mut continued = copy_fields(fields, start, at);
    continued.push(("61".to_owned(), line));
    continued.push(("62F".to_owned(), "C000101EUR0,".to_owned()));
    proof {
        reveal_strlit("61");
        reveal_strlit("62F");
        assert("61"@.len() != "62F"@.len());
        let repaired = ("61"@, without_entry_date(message[at - start].1));
        assert(pair_views(ended@) =~= before.push(closing()));
        assert(pair_views(continued@) =~= before.push(repaired).push(closing()));
        assert forall|i: int| 0 <= i < before.len() implies !lacking(#[trigger] before[i]) by {
            assert(before[i] == views[start + i]);
        }
    }
    match try_message(&ended) {
        MessageOutcome::Read => {},
        _ => {
            return false;
        },
    }
    match try_message(&continued) {
        MessageOutcome::OtherFault => false,
        _ => true,
    }
}

/// Whether reading messages one after the other comes to an entry date that does
/// not exist.
fn is_broken_off(fields: &Vec<(String, String)>) -> (result: bool)
    ensures
        result == breaks_off(pair_views(fields@), 0),
{
    let ghost views = pair_views(fields@);
    let mut start: usize = 0;
    while start < fields.len()
        invariant
            start <= fields@.len(),
            views == pair_views(fields@),
            breaks_off(views, 0) == breaks_off(views, start as int),
        decreases fields@.len() - start,
    {
        let end = find_message_end(fields, start);
        let at = find_lacking(fields, start, end);
        if at < end {
            return is_entry_date_reached(fields, start, at, end);
        }
        let message = copy_fields(fields, start, end);
        proof {
            let part = views.subrange(start as int, end as int);
            assert forall|i: int| 0 <= i < part.len() implies !lacking(#[trigger] part[i]) by {
                assert(part[i] == views[start + i]);
            }
        }
        match try_message(&message) {
            MessageOutcome::Read => {},
            _ => {
                return false;
            },
        }
        start = end;
    }
    false
}

/// How many of the fields start a message.
fn count_messages(fields: &Vec<(String, String)>) -> (result: usize)
    ensures
        result == message_count(pair_views(fields@)),
{
    let ghost views = pair_views(fields@);
    let mut count: usize = 0;
    let mut at: usize = 0;
    assert(views.take(0) =~= Seq::empty());
    while at < fields.len()
        invariant
            count <= at <= fields@.len(),
            views == pair_views(fields@),
            count == message_count(views.take(at as int)),
        decreases fields@.len() - at,
    {
        assert(views.take(at + 1).drop_last() =~= views.take(at as int));
        assert(views.take(at + 1).last() == (fields@[at as int].0@, fields@[at as int].1@));
        if same_text(fields[at].0.as_str(), "20") {
            count = count + 1;
        }
        at = at + 1;
    }
    assert(views.take(at as int) =~= views);
    count
}

/// Whether statements can be read from a text.
pub fn is_readable(text: &str) -> (result: bool)
    ensures
        result == readable(text@),
{
    match parse_fields(text) {
        Some(fields) => {
            assert(fields_of(text@) == Some(pair_views(fields@)));
            if fields.len() == 0 || !same_text(fields[0].0.as_str(), "20") {
                return true;
            }
            count_messages(&fields) <= 0x8000_0000 && !is_broken_off(&fields)
        },
        None => true,
    }
}

} // verus!
