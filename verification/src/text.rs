//! Text as a sequence of characters: trimming, lines, and the few operations
//! on strings that statements are taken apart with.

use vstd::prelude::*;
use vstd::utf8::{decode_utf8, valid_utf8};

verus! {

/// Appends one character, as `String::push` documents.
pub assume_specification[ String::push ](text: &mut String, character: char)
    ensures
        final(text)@ == old(text)@.push(character),
;

/// The text of each string.
pub open spec fn texts(strings: Seq<String>) -> Seq<Seq<char>> {
    Seq::new(strings.len(), |i: int| strings[i]@)
}

/// The text of a string that may be absent.
pub open spec fn text_of(string: Option<String>) -> Option<Seq<char>> {
    match string {
        Some(string) => Some(string@),
        None => None,
    }
}

/// A copy of a string that may be absent.
pub fn copy_text(string: &Option<String>) -> (result: Option<String>)
    ensures
        text_of(result) == text_of(*string),
{
    match string {
        Some(string) => Some(string.clone()),
        None => None,
    }
}

/// The characters of a text.
pub fn characters(text: &str) -> (result: Vec<char>)
    ensures
        result@ == text@,
{
    let mut result: Vec<char> = Vec::new();
    for character in iter: text.chars()
        invariant
            result@ == iter.seq().take(iter.index() as int),
            iter.seq() == text@,
    {
        result.push(character);
    }
    result
}

/// The string that holds the characters from `start` up to `end`.
pub fn string_between(characters: &Vec<char>, start: usize, end: usize) -> (result: String)
    requires
        start <= end <= characters@.len(),
    ensures
        result@ == characters@.subrange(start as int, end as int),
{
    let mut result = String::new();
    let mut at: usize = start;
    while at < end
        invariant
            start <= at <= end <= characters@.len(),
            result@ == characters@.subrange(start as int, at as int),
        decreases end - at,
    {
        result.push(characters[at]);
        assert(characters@.subrange(start as int, at + 1) =~= characters@.subrange(
            start as int,
            at as int,
        ).push(characters@[at as int]));
        at = at + 1;
    }
    result
}

/// Whether a character counts as white space in Unicode.
pub open spec fn white_space(character: char) -> bool {
    ||| '\u{9}' <= character <= '\u{d}'
    ||| character == ' '
    ||| character == '\u{85}'
    ||| character == '\u{a0}'
    ||| character == '\u{1680}'
    ||| '\u{2000}' <= character <= '\u{200a}'
    ||| character == '\u{2028}'
    ||| character == '\u{2029}'
    ||| character == '\u{202f}'
    ||| character == '\u{205f}'
    ||| character == '\u{3000}'
}

/// The text without the white space at its start.
pub open spec fn trimmed_start(text: Seq<char>) -> Seq<char>
    decreases text.len(),
{
    if text.len() > 0 && white_space(text[0]) {
        trimmed_start(text.drop_first())
    } else {
        text
    }
}

/// The text without the white space at its end.
pub open spec fn trimmed_end(text: Seq<char>) -> Seq<char>
    decreases text.len(),
{
    if text.len() > 0 && white_space(text.last()) {
        trimmed_end(text.drop_last())
    } else {
        text
    }
}

/// The text without the white space around it.
pub open spec fn trimmed(text: Seq<char>) -> Seq<char> {
    trimmed_end(trimmed_start(text))
}

/// Whether a character counts as white space in Unicode.
pub fn is_white_space(character: char) -> (result: bool)
    ensures
        result == white_space(character),
{
    ('\u{9}' <= character && character <= '\u{d}') || character == ' ' || character == '\u{85}'
        || character == '\u{a0}' || character == '\u{1680}' || ('\u{2000}' <= character && character
        <= '\u{200a}') || character == '\u{2028}' || character == '\u{2029}' || character
        == '\u{202f}' || character == '\u{205f}' || character == '\u{3000}'
}

/// The text without the white space around it.
pub fn trim(text: &str) -> (result: String)
    ensures
        result@ == trimmed(text@),
{
    let characters = characters(text);
    let mut start: usize = 0;
    assert(characters@.skip(0) =~= characters@);
    while start < characters.len() && is_white_space(characters[start])
        invariant
            start <= characters@.len(),
            trimmed_start(characters@) == trimmed_start(characters@.skip(start as int)),
        decreases characters@.len() - start,
    {
        assert(characters@.skip(start as int).drop_first() =~= characters@.skip(start + 1));
        start = start + 1;
    }
    assert(trimmed_start(characters@) == characters@.skip(start as int));
    let mut end: usize = characters.len();
    assert(characters@.subrange(start as int, end as int) =~= characters@.skip(start as int));
    while start < end && is_white_space(characters[end - 1])
        invariant
            start <= end <= characters@.len(),
            trimmed_end(characters@.skip(start as int)) == trimmed_end(
                characters@.subrange(start as int, end as int),
            ),
        decreases end,
    {
        assert(characters@.subrange(start as int, end as int).drop_last()
            =~= characters@.subrange(start as int, end - 1));
        end = end - 1;
    }
    string_between(&characters, start, end)
}

/// Where a character first stands in a text, or the text's length.
pub open spec fn first_position(text: Seq<char>, character: char) -> int
    decreases text.len(),
{
    if text.len() == 0 || text[0] == character {
        0
    } else {
        1 + first_position(text.drop_first(), character)
    }
}

/// What `first_position` says of the characters on either side.
pub proof fn lemma_first_position(text: Seq<char>, character: char)
    ensures
        0 <= first_position(text, character) <= text.len(),
        forall|i: int| 0 <= i < first_position(text, character) ==> text[i] != character,
        first_position(text, character) < text.len() ==> text[first_position(
            text,
            character,
        ) as int] == character,
    decreases text.len(),
{
    if text.len() > 0 && text[0] != character {
        let rest = text.drop_first();
        lemma_first_position(rest, character);
        assert forall|i: int| 0 <= i < first_position(text, character) implies text[i]
            != character by {
            if i > 0 {
                assert(rest[i - 1] == text[i]);
            }
        }
    }
}

/// A position with nothing of the kind before it is the first one.
pub proof fn lemma_first_position_is(text: Seq<char>, character: char, position: int)
    requires
        0 <= position <= text.len(),
        forall|i: int| 0 <= i < position ==> text[i] != character,
        position < text.len() ==> text[position] == character,
    ensures
        first_position(text, character) == position,
{
    lemma_first_position(text, character);
    let first = first_position(text, character);
    if first < position {
        assert(text[first as int] == character);
    } else if position < first {
        assert(text[position as int] == character);
    }
}

/// Where a character first stands at or after `start`, or the number of characters.
pub fn find(characters: &Vec<char>, start: usize, character: char) -> (result: usize)
    requires
        start <= characters@.len(),
    ensures
        start <= result <= characters@.len(),
        result - start == first_position(characters@.skip(start as int), character),
{
    let mut at: usize = start;
    while at < characters.len() && characters[at] != character
        invariant
            start <= at <= characters@.len(),
            forall|i: int| start <= i < at ==> characters@[i] != character,
        decreases characters@.len() - at,
    {
        at = at + 1;
    }
    proof {
        lemma_first_position_is(characters@.skip(start as int), character, at - start);
    }
    at
}

/// A line without the carriage return that may end it.
pub open spec fn without_return(line: Seq<char>) -> Seq<char> {
    if line.len() > 0 && line.last() == '\r' {
        line.drop_last()
    } else {
        line
    }
}

/// The lines of a text. A line ends with a line feed, or with a carriage
/// return and a line feed, which do not belong to it; the last one may end
/// with the text.
pub open spec fn lines_of(text: Seq<char>) -> Seq<Seq<char>>
    decreases text.len(),
{
    if text.len() == 0 {
        Seq::empty()
    } else {
        let end = first_position(text, '\n');
        proof {
            lemma_first_position(text, '\n');
        }
        if end < text.len() {
            seq![without_return(text.take(end))] + lines_of(text.skip(end + 1))
        } else {
            seq![text]
        }
    }
}

/// The lines of a text.
pub fn lines(text: &str) -> (result: Vec<String>)
    ensures
        texts(result@) == lines_of(text@),
{
    let characters = characters(text);
    let mut result: Vec<String> = Vec::new();
    let mut start: usize = 0;
    assert(characters@.skip(0) =~= characters@);
    assert(texts(result@) + lines_of(characters@) =~= lines_of(characters@));
    while start < characters.len()
        invariant
            start <= characters@.len(),
            characters@ == text@,
            lines_of(text@) == texts(result@) + lines_of(characters@.skip(start as int)),
        decreases characters@.len() - start,
    {
        let ghost rest = characters@.skip(start as int);
        let ghost before = texts(result@);
        proof {
            lemma_first_position(rest, '\n');
        }
        let end = find(&characters, start, '\n');
        if end < characters.len() {
            let cut = if start < end && characters[end - 1] == '\r' {
                end - 1
            } else {
                end
            };
            let line = string_between(&characters, start, cut);
            assert(line@ =~= without_return(rest.take(end - start)));
            result.push(line);
            assert(texts(result@) =~= before.push(line@));
            assert(rest.skip(end - start + 1) =~= characters@.skip(end + 1));
            assert(before.push(line@) + lines_of(characters@.skip(end + 1)) =~= before + (
            seq![line@] + lines_of(characters@.skip(end + 1))));
            start = end + 1;
        } else {
            let line = string_between(&characters, start, end);
            assert(line@ =~= rest);
            result.push(line);
            assert(texts(result@) =~= before.push(line@));
            assert(lines_of(characters@.skip(end as int)) =~= Seq::<Seq<char>>::empty());
            assert(before + seq![line@] =~= texts(result@) + lines_of(
                characters@.skip(end as int),
            ));
            start = end;
        }
    }
    assert(texts(result@) + lines_of(characters@.skip(start as int)) =~= texts(result@));
    result
}

/// Whether two texts are the same.
pub fn same_text(left: &str, right: &str) -> (result: bool)
    ensures
        result == (left@ == right@),
{
    let ours = characters(left);
    let theirs = characters(right);
    if ours.len() != theirs.len() {
        return false;
    }
    let mut at: usize = 0;
    while at < ours.len()
        invariant
            at <= ours@.len(),
            ours@ == left@,
            theirs@ == right@,
            ours@.len() == theirs@.len(),
            ours@.take(at as int) =~= theirs@.take(at as int),
        decreases ours@.len() - at,
    {
        if ours[at] != theirs[at] {
            return false;
        }
        at = at + 1;
    }
    assert(ours@ =~= ours@.take(at as int));
    assert(theirs@ =~= theirs@.take(at as int));
    true
}

/// What follows a prefix, where the text starts with it.
pub open spec fn after_prefix(text: Seq<char>, prefix: Seq<char>) -> Option<Seq<char>> {
    if prefix.is_prefix_of(text) {
        Some(text.skip(prefix.len() as int))
    } else {
        None
    }
}

/// What follows a prefix, where the text starts with it.
pub fn strip_prefix(text: &str, prefix: &str) -> (result: Option<String>)
    ensures
        text_of(result) == after_prefix(text@, prefix@),
{
    let whole = characters(text);
    let start = characters(prefix);
    if whole.len() < start.len() {
        return None;
    }
    let mut at: usize = 0;
    while at < start.len()
        invariant
            at <= start@.len() <= whole@.len(),
            whole@ == text@,
            start@ == prefix@,
            start@.take(at as int) =~= whole@.take(at as int),
        decreases start@.len() - at,
    {
        if whole[at] != start[at] {
            assert(whole@.subrange(0, start@.len() as int)[at as int] != start@[at as int]);
            return None;
        }
        at = at + 1;
    }
    assert(start@ =~= whole@.subrange(0, start@.len() as int)) by {
        assert(start@.take(at as int) =~= start@);
    }
    let rest = string_between(&whole, start.len(), whole.len());
    assert(rest@ =~= whole@.skip(start@.len() as int));
    Some(rest)
}

/// The text with each comma turned into a point.
pub open spec fn with_points(text: Seq<char>) -> Seq<char> {
    Seq::new(
        text.len(),
        |i: int|
            if text[i] == ',' {
                '.'
            } else {
                text[i]
            },
    )
}

/// The text with each comma turned into a point.
pub fn commas_to_points(text: &str) -> (result: String)
    ensures
        result@ == with_points(text@),
{
    let characters = characters(text);
    let mut result = String::new();
    let mut at: usize = 0;
    while at < characters.len()
        invariant
            at <= characters@.len(),
            result@ == with_points(characters@).take(at as int),
        decreases characters@.len() - at,
    {
        if characters[at] == ',' {
            result.push('.');
        } else {
            result.push(characters[at]);
        }
        assert(with_points(characters@).take(at + 1) =~= with_points(characters@).take(
            at as int,
        ).push(with_points(characters@)[at as int]));
        at = at + 1;
    }
    assert(with_points(characters@).take(at as int) =~= with_points(characters@));
    result
}

/// Whether a character is a decimal digit.
pub open spec fn digit(character: char) -> bool {
    '0' <= character <= '9'
}

/// The number that a row of digits writes.
pub open spec fn digits_value(digits: Seq<char>) -> nat
    decreases digits.len(),
{
    if digits.len() == 0 {
        0
    } else {
        digits_value(digits.drop_last()) * 10 + (digits.last() as nat - '0' as nat) as nat
    }
}

/// The two digits at a place of a text, as a number.
pub(crate) fn two_digits(characters: &Vec<char>, start: usize) -> (result: u32)
    requires
        start + 2 <= characters.len(),
        digit(characters@[start as int]),
        digit(characters@[start + 1]),
    ensures
        result == digits_value(characters@.subrange(start as int, start + 2)),
        result < 100,
{
    proof {
        reveal_with_fuel(digits_value, 3);
        let digits = characters@.subrange(start as int, start + 2);
        assert(digits.drop_last().drop_last() =~= Seq::empty());
        assert(digits.drop_last().last() == characters@[start as int]);
        assert(digits.last() == characters@[start + 1]);
    }
    (characters[start] as u32 - '0' as u32) * 10 + (characters[start + 1] as u32 - '0' as u32)
}

/// The digits of a number, without leading zeros: none of zero.
pub open spec fn digits_of(number: nat) -> Seq<char>
    decreases number,
{
    if number == 0 {
        Seq::empty()
    } else {
        digits_of(number / 10).push(('0' as nat + number % 10) as char)
    }
}

/// The digits of a number, with zeros before them up to a width.
pub open spec fn padded(number: nat, width: nat) -> Seq<char> {
    let digits = digits_of(number);
    if digits.len() < width {
        Seq::new((width - digits.len()) as nat, |i: int| '0') + digits
    } else {
        digits
    }
}

/// An outcome with the text of its error.
pub open spec fn outcome<T>(result: Result<T, String>) -> Result<T, Seq<char>> {
    match result {
        Ok(value) => Ok(value),
        Err(error) => Err(error@),
    }
}

/// The text that bytes encode in UTF-8, where they do.
pub open spec fn utf8_text(bytes: Seq<u8>) -> Option<Seq<char>> {
    if valid_utf8(bytes) {
        Some(decode_utf8(bytes))
    } else {
        None
    }
}

/// Reads bytes as UTF-8 with `std::str::from_utf8`, which gives an error where
/// they are not valid.
#[verifier::external_body]
pub(crate) fn from_utf8(bytes: &[u8]) -> (result: Option<String>)
    ensures
        text_of(result) == utf8_text(bytes@),
{
    std::str::from_utf8(bytes).ok().map(|text: &str| text.to_owned())
}

/// What `String::from_utf8_lossy` makes of bytes.
pub uninterp spec fn lossy_text(bytes: Seq<u8>) -> Seq<char>;

/// Reads bytes as UTF-8 with `String::from_utf8_lossy`, which puts replacement
/// characters where they are not valid. The outcome goes by the bytes alone, and
/// valid ones are read as they stand.
#[verifier::external_body]
pub(crate) fn from_utf8_lossy(bytes: &[u8]) -> (result: String)
    ensures
        result@ == lossy_text(bytes@),
        valid_utf8(bytes@) ==> result@ == decode_utf8(bytes@),
{
    String::from_utf8_lossy(bytes).into_owned()
}

/// Whether each character of a text is a printable one of ASCII, and none a
/// quotation mark or a backslash.
pub open spec fn unescaped(text: Seq<char>) -> bool {
    forall|i: int|
        0 <= i < text.len() ==> ' ' <= #[trigger] text[i] <= '~' && text[i] != '"' && text[i]
            != '\\'
}

/// What the `{:?}` format writes of a text.
pub uninterp spec fn quoted_text(text: Seq<char>) -> Seq<char>;

/// Writes a text in quotes with the `{:?}` format of `str`. The outcome goes by
/// the text alone, and characters that need no escape stand in it as they are.
#[verifier::external_body]
pub(crate) fn quoted(text: &str) -> (result: String)
    ensures
        result@ == quoted_text(text@),
        unescaped(text@) ==> result@ == seq!['"'] + text@ + seq!['"'],
{
    format!("{:?}", text)
}

/// The digits of a number that may have a plus sign before them.
pub open spec fn unsigned_digits(text: Seq<char>) -> Seq<char> {
    if text.len() > 0 && text[0] == '+' {
        text.drop_first()
    } else {
        text
    }
}

/// The number that a text writes, where it is one that 32 bits hold.
pub open spec fn unsigned_number(text: Seq<char>) -> Option<u32> {
    let digits = unsigned_digits(text);
    if digits.len() > 0 && (forall|i: int| 0 <= i < digits.len() ==> digit(#[trigger] digits[i]))
        && digits_value(digits) <= u32::MAX {
        Some(digits_value(digits) as u32)
    } else {
        None
    }
}

/// What `u32::from_str` makes of a text: the number, or the text of its error.
pub uninterp spec fn u32_of(text: Seq<char>) -> Result<u32, Seq<char>>;

/// Reads a number with `u32::from_str`: one or more digits, with or without a
/// plus sign. The outcome goes by the text alone.
#[verifier::external_body]
pub(crate) fn parse_u32(text: &str) -> (result: Result<u32, String>)
    ensures
        outcome(result) == u32_of(text@),
        result.ok() == unsigned_number(text@),
{
    match text.parse::<u32>() {
        Ok(number) => Ok(number),
        Err(error) => Err(error.to_string()),
    }
}

/// The truth value that a text names.
pub open spec fn truth_value(text: Seq<char>) -> Option<bool> {
    if text == "true"@ {
        Some(true)
    } else if text == "false"@ {
        Some(false)
    } else {
        None
    }
}

/// What `bool::from_str` makes of a text: the value, or the text of its error.
pub uninterp spec fn bool_of(text: Seq<char>) -> Result<bool, Seq<char>>;

/// Reads a truth value with `bool::from_str`: `true` or `false`. The outcome
/// goes by the text alone.
#[verifier::external_body]
pub(crate) fn parse_bool(text: &str) -> (result: Result<bool, String>)
    ensures
        outcome(result) == bool_of(text@),
        result.ok() == truth_value(text@),
{
    match text.parse::<bool>() {
        Ok(value) => Ok(value),
        Err(error) => Err(error.to_string()),
    }
}

} // verus!
