//! What holds of the operations that statements are taken apart with.

use crate::text::{
    after_prefix, digit, digits_value, lemma_first_position_is, lines_of, text_of, texts, trimmed,
    trimmed_end, trimmed_start, white_space, with_points, without_return,
};
use vstd::arithmetic::power::{lemma_pow0, lemma_pow1, lemma_pow_adds, pow};
use vstd::prelude::*;

verus! {

/// Whether a text is white space alone.
pub open spec fn blank(text: Seq<char>) -> bool {
    forall|i: int| 0 <= i < text.len() ==> white_space(#[trigger] text[i])
}

/// White space is tabulators and line ends, spaces of each width, and the separators of
/// lines and paragraphs. The digits are the ten of ASCII.
pub proof fn law_kinds_of_characters(character: char)
    ensures
        ({
            let code = character as int;
            &&& white_space(character) <==> 9 <= code <= 13 || code == 32 || code == 0x85 || code
                == 0xa0 || code == 0x1680 || 0x2000 <= code <= 0x200a || code == 0x2028 || code
                == 0x2029 || code == 0x202f || code == 0x205f || code == 0x3000
            &&& digit(character) <==> 48 <= code <= 57
        }),
{
}

/// White space before a text is taken away.
proof fn lemma_blank_start(before: Seq<char>, text: Seq<char>)
    requires
        blank(before),
    ensures
        trimmed_start(before + text) == trimmed_start(text),
    decreases before.len(),
{
    if before.len() == 0 {
        assert(before + text =~= text);
    } else {
        let rest = before.drop_first();
        assert forall|i: int| 0 <= i < rest.len() implies white_space(#[trigger] rest[i]) by {
            assert(rest[i] == before[i + 1]);
        }
        assert(white_space(before[0]));
        assert((before + text).drop_first() =~= rest + text);
        lemma_blank_start(rest, text);
    }
}

/// White space behind a text is taken away.
proof fn lemma_blank_end(text: Seq<char>, behind: Seq<char>)
    requires
        blank(behind),
    ensures
        trimmed_end(text + behind) == trimmed_end(text),
    decreases behind.len(),
{
    if behind.len() == 0 {
        assert(text + behind =~= text);
    } else {
        let rest = behind.drop_last();
        assert forall|i: int| 0 <= i < rest.len() implies white_space(#[trigger] rest[i]) by {
            assert(rest[i] == behind[i]);
        }
        assert(white_space(behind[behind.len() - 1]));
        assert((text + behind).drop_last() =~= text + rest);
        lemma_blank_end(text, rest);
    }
}

/// Trimming takes the white space around a text away, all of it and nothing else.
pub proof fn law_trimmed_is_the_middle(before: Seq<char>, middle: Seq<char>, behind: Seq<char>)
    requires
        blank(before),
        blank(behind),
        middle.len() > 0 ==> !white_space(middle[0]) && !white_space(middle.last()),
    ensures
        trimmed(before + middle + behind) == middle,
{
    if middle.len() == 0 {
        let all = before + middle + behind;
        assert(all =~= before + behind);
        lemma_blank_start(before, behind);
        lemma_blank_start(behind, Seq::empty());
        assert(behind + Seq::empty() =~= behind);
        assert(trimmed_start(all) =~= Seq::empty());
        assert(trimmed(all) =~= middle);
    } else {
        assert(before + middle + behind =~= before + (middle + behind));
        lemma_blank_start(before, middle + behind);
        assert((middle + behind)[0] == middle[0]);
        lemma_blank_end(middle, behind);
    }
}

/// The lines of a text that starts with a line and its end are that line and the lines
/// of the rest. One carriage return before the line feed belongs to the end of the line.
pub proof fn law_first_line(line: Seq<char>, rest: Seq<char>)
    requires
        !line.contains('\n'),
    ensures
        lines_of(line + seq!['\r', '\n'] + rest) == seq![line] + lines_of(rest),
        line.len() == 0 || line.last() != '\r' ==> lines_of(line + seq!['\n'] + rest) == seq![line]
            + lines_of(rest),
{
    lemma_ended_line(line.push('\r'), rest);
    assert(line.push('\r') + seq!['\n'] + rest =~= line + seq!['\r', '\n'] + rest);
    assert(without_return(line.push('\r')) =~= line);
    lemma_ended_line(line, rest);
}

/// The lines of a text that starts with a line feed behind other characters.
proof fn lemma_ended_line(line: Seq<char>, rest: Seq<char>)
    requires
        forall|i: int| 0 <= i < line.len() ==> line[i] != '\n',
    ensures
        lines_of(line + seq!['\n'] + rest) == seq![without_return(line)] + lines_of(rest),
{
    let text = line + seq!['\n'] + rest;
    let end: int = line.len() as int;
    assert(text[end] == '\n');
    assert forall|i: int| 0 <= i < end implies text[i] != '\n' by {
        assert(text[i] == line[i]);
    }
    lemma_first_position_is(text, '\n', end);
    assert(text.take(end) =~= line);
    assert(text.skip(end + 1) =~= rest);
}

/// A text without a line feed is one line, as it stands, and an empty text has none.
pub proof fn law_last_line(line: Seq<char>)
    requires
        !line.contains('\n'),
    ensures
        line.len() > 0 ==> lines_of(line) == seq![line],
        line.len() == 0 ==> lines_of(line).len() == 0,
{
    assert forall|i: int| 0 <= i < line.len() implies line[i] != '\n' by {
        assert(line.contains(line[i]));
    }
    lemma_first_position_is(line, '\n', line.len() as int);
}

/// What follows a prefix is the rest of a text that starts with it. A text that does
/// not has nothing to follow it.
pub proof fn law_prefix_is_taken_off(prefix: Seq<char>, rest: Seq<char>, other: Seq<char>)
    ensures
        after_prefix(prefix + rest, prefix) == Some(rest),
        other.len() < prefix.len() || other.take(prefix.len() as int) != prefix ==> after_prefix(
            other,
            prefix,
        ) is None,
{
    assert((prefix + rest).skip(prefix.len() as int) =~= rest);
    assert(prefix =~= (prefix + rest).subrange(0, prefix.len() as int));
    if prefix.is_prefix_of(other) {
        assert(other.take(prefix.len() as int) =~= prefix);
    }
}

/// Turning commas into points keeps the other characters and all places.
pub proof fn law_commas_become_points(text: Seq<char>, at: int)
    requires
        0 <= at < text.len(),
    ensures
        with_points(text).len() == text.len(),
        text[at] == ',' ==> with_points(text)[at] == '.',
        text[at] != ',' ==> with_points(text)[at] == text[at],
{
}

/// A digit writes its number, and digits before others count by powers of ten.
pub proof fn law_digits_count_by_tens(left: Seq<char>, right: Seq<char>)
    ensures
        digits_value(left + right) == digits_value(left) * pow(10, right.len()) + digits_value(
            right,
        ),
        left.len() == 0 ==> digits_value(left) == 0,
        left.len() == 1 && digit(left[0]) ==> digits_value(left) == left[0] as int - 48,
    decreases right.len(),
{
    reveal_with_fuel(digits_value, 2);
    if right.len() == 0 {
        lemma_pow0(10);
        assert(left + right =~= left);
        assert(digits_value(left) * 1 == digits_value(left));
    } else {
        let shorter = right.drop_last();
        law_digits_count_by_tens(left, shorter);
        assert((left + right).drop_last() =~= left + shorter);
        lemma_pow1(10);
        lemma_pow_adds(10, shorter.len(), 1);
        assert(digits_value(left) * (pow(10, shorter.len()) * 10) == (digits_value(left) * pow(
            10,
            shorter.len(),
        )) * 10) by (nonlinear_arith);
    }
}

/// Strings are seen as their characters, each in its place, and one that is absent is
/// seen as absent.
pub proof fn law_texts_of_strings(strings: Seq<String>, string: String, at: int)
    requires
        0 <= at < strings.len(),
    ensures
        texts(strings).len() == strings.len(),
        texts(strings)[at] == strings[at]@,
        text_of(Some(string)) == Some(string@),
        text_of(None) is None,
{
}

} // verus!
