//! What holds of every statement.

use crate::error::FinTSErrorView;
use crate::mt940_parse::{
    cleaned, first_tags, joined, mt940_result, preview_of, separated, statement_text,
    statement_transactions, substantial, substantial_lines, tag_of, tags_of, text_preview,
    transaction_of, transactions_of, PREVIEW_TAGS,
};
use crate::fields::readable;
use crate::statement::{
    all_swift, ascii_bytes, ascii_text, decoded, swift_character, StatementLineView, StatementView,
};
use crate::text::{
    first_position, lemma_first_position, lemma_first_position_is, lines_of, trimmed,
    without_return,
};
use crate::types::{TransactionStatus, TransactionView};
use vstd::prelude::*;

verus! {

/// Whether each line of some holds no line feed.
pub open spec fn single_lines(lines: Seq<Seq<char>>) -> bool {
    forall|i: int| 0 <= i < lines.len() ==> !(#[trigger] lines[i]).contains('\n')
}

/// Whether a separator ends a line: a carriage return and a line feed, or a line
/// feed behind a line without a carriage return.
pub open spec fn ends_line(line: Seq<char>, separator: Seq<char>) -> bool {
    separator == "\r\n"@ || (separator == "\n"@ && !line.contains('\r'))
}

/// The first line of a text that starts with a line and its end.
proof fn lemma_first_line(line: Seq<char>, separator: Seq<char>, rest: Seq<char>)
    requires
        !line.contains('\n'),
        ends_line(line, separator),
    ensures
        lines_of(line + separator + rest) == seq![line] + lines_of(rest),
{
    reveal_strlit("\r\n");
    reveal_strlit("\n");
    let text = line + separator + rest;
    let end: int = line.len() + separator.len() - 1;
    assert(text[end] == '\n');
    assert forall|i: int| 0 <= i < end implies text[i] != '\n' by {
        if i < line.len() {
            assert(line.contains(line[i]));
        }
    }
    lemma_first_position_is(text, '\n', end);
    assert(text.skip(end + 1) =~= rest);
    if separator == "\r\n"@ {
        assert(text.take(end) =~= line.push('\r'));
        assert(without_return(line.push('\r')) =~= line);
    } else {
        assert(text.take(end) =~= line);
        if line.len() > 0 {
            assert(line.contains(line.last()));
        }
        assert(without_return(line) == line);
    }
}

/// Parts with separators, taken from the front.
proof fn lemma_separated_front(parts: Seq<Seq<char>>, separator: Seq<char>)
    requires
        parts.len() > 0,
    ensures
        separated(parts, separator) == separator + parts[0] + separated(
            parts.drop_first(),
            separator,
        ),
    decreases parts.len(),
{
    if parts.len() == 1 {
        assert(parts.drop_last() =~= Seq::empty());
        assert(parts.drop_first() =~= Seq::empty());
        assert(separated(parts, separator) =~= separator + parts[0] + separated(
            parts.drop_first(),
            separator,
        ));
    } else {
        lemma_separated_front(parts.drop_last(), separator);
        assert(parts.drop_last().drop_first() =~= parts.drop_first().drop_last());
        assert(separated(parts, separator) =~= separator + parts[0] + separated(
            parts.drop_first(),
            separator,
        ));
    }
}

/// Lines that are joined are the lines of the text, whether the last one is ended
/// or just not empty.
proof fn lemma_joined_lines(lines: Seq<Seq<char>>, separator: Seq<char>, ending: Seq<char>)
    requires
        single_lines(lines),
        lines.len() > 0,
        forall|i: int| 0 <= i < lines.len() ==> ends_line(#[trigger] lines[i], separator),
        ending == separator || (ending.len() == 0 && lines.last().len() > 0),
    ensures
        lines_of(joined(lines, separator) + ending) == lines,
    decreases lines.len(),
{
    let rest = lines.drop_first();
    assert(!lines[0].contains('\n'));
    assert(ends_line(lines[0], separator));
    if rest.len() == 0 {
        assert(separated(rest, separator) =~= Seq::empty());
        if ending == separator {
            assert(joined(lines, separator) + ending =~= lines[0] + separator + Seq::empty());
            lemma_first_line(lines[0], separator, Seq::empty());
            assert(lines_of(Seq::empty()) =~= Seq::empty());
            assert(seq![lines[0]] + lines_of(Seq::empty()) =~= lines);
        } else {
            let line = lines[0];
            assert(joined(lines, separator) + ending =~= line);
            assert forall|i: int| 0 <= i < line.len() implies line[i] != '\n' by {
                assert(line.contains(line[i]));
            }
            lemma_first_position_is(line, '\n', line.len() as int);
            assert(seq![line] =~= lines);
        }
    } else {
        assert forall|i: int| 0 <= i < rest.len() implies !(#[trigger] rest[i]).contains('\n')
            && ends_line(rest[i], separator) by {
            assert(rest[i] == lines[i + 1]);
        }
        lemma_joined_lines(rest, separator, ending);
        lemma_separated_front(rest, separator);
        let tail = joined(rest, separator) + ending;
        assert(joined(lines, separator) + ending =~= lines[0] + separator + tail);
        lemma_first_line(lines[0], separator, tail);
        assert(seq![lines[0]] + rest =~= lines);
    }
}

/// No line of a text holds a line feed.
pub proof fn law_lines_are_single(text: Seq<char>)
    ensures
        single_lines(lines_of(text)),
    decreases text.len(),
{
    if text.len() > 0 {
        let end = first_position(text, '\n');
        lemma_first_position(text, '\n');
        if end < text.len() {
            law_lines_are_single(text.skip(end + 1));
            let first = without_return(text.take(end));
            assert(!first.contains('\n')) by {
                if first.contains('\n') {
                    let at = choose|i: int| 0 <= i < first.len() && first[i] == '\n';
                    assert(text[at] == '\n');
                }
            }
            let rest = lines_of(text.skip(end + 1));
            assert forall|i: int| 0 <= i < lines_of(text).len() implies !(#[trigger] lines_of(
                text,
            )[i]).contains('\n') by {
                if i > 0 {
                    assert(lines_of(text)[i] == rest[i - 1]);
                }
            }
        }
    }
}

/// The lines that say something are among the lines, and say something.
proof fn lemma_substantial_lines(lines: Seq<Seq<char>>)
    ensures
        forall|i: int|
            0 <= i < substantial_lines(lines).len() ==> substantial(
                #[trigger] substantial_lines(lines)[i],
            ) && lines.contains(substantial_lines(lines)[i]),
    decreases lines.len(),
{
    if lines.len() > 0 {
        let fewer = lines.drop_last();
        lemma_substantial_lines(fewer);
        assert forall|i: int| 0 <= i < substantial_lines(lines).len() implies substantial(
            #[trigger] substantial_lines(lines)[i],
        ) && lines.contains(substantial_lines(lines)[i]) by {
            if i < substantial_lines(fewer).len() {
                let line = substantial_lines(fewer)[i];
                assert(fewer.contains(line));
                let at = choose|j: int| 0 <= j < fewer.len() && fewer[j] == line;
                assert(lines[at] == line);
            } else {
                assert(lines[lines.len() - 1] == lines.last());
            }
        }
    }
}

/// Lines that all say something are all kept.
proof fn lemma_all_substantial(lines: Seq<Seq<char>>)
    requires
        forall|i: int| 0 <= i < lines.len() ==> substantial(#[trigger] lines[i]),
    ensures
        substantial_lines(lines) == lines,
    decreases lines.len(),
{
    if lines.len() > 0 {
        assert forall|i: int| 0 <= i < lines.drop_last().len() implies substantial(
            #[trigger] lines.drop_last()[i],
        ) by {
            assert(lines.drop_last()[i] == lines[i]);
        }
        lemma_all_substantial(lines.drop_last());
        assert(substantial(lines[lines.len() - 1]));
        assert(lines.drop_last().push(lines.last()) =~= lines);
    } else {
        assert(substantial_lines(lines) =~= lines);
    }
}

/// Cleaning a text keeps the lines that say something, as they stand and in their
/// order, and no others. Where no line says something, one empty line is left.
pub proof fn law_cleaning_keeps_what_says_something(text: Seq<char>)
    ensures
        substantial_lines(lines_of(text)).len() > 0 ==> lines_of(cleaned(text))
            == substantial_lines(lines_of(text)),
        substantial_lines(lines_of(text)).len() == 0 ==> cleaned(text) == "\r\n"@,
{
    let kept = substantial_lines(lines_of(text));
    law_lines_are_single(text);
    lemma_substantial_lines(lines_of(text));
    if kept.len() > 0 {
        assert forall|i: int| 0 <= i < kept.len() implies !(#[trigger] kept[i]).contains('\n') by {
            assert(lines_of(text).contains(kept[i]));
            let at = choose|j: int|
                0 <= j < lines_of(text).len() && lines_of(text)[j] == kept[i];
            assert(!lines_of(text)[at].contains('\n'));
        }
        lemma_joined_lines(kept, "\r\n"@, "\r\n"@);
    } else {
        assert(cleaned(text) =~= "\r\n"@);
    }
}

/// A text that is clean is not changed by cleaning it again.
pub proof fn law_cleaned_twice(text: Seq<char>)
    ensures
        cleaned(cleaned(text)) == cleaned(text),
{
    let kept = substantial_lines(lines_of(text));
    law_cleaning_keeps_what_says_something(text);
    lemma_substantial_lines(lines_of(text));
    if kept.len() > 0 {
        lemma_all_substantial(kept);
    } else {
        reveal_strlit("\r\n");
        lemma_first_line(Seq::empty(), "\r\n"@, Seq::empty());
        assert(Seq::<char>::empty() + "\r\n"@ + Seq::empty() =~= "\r\n"@);
        assert(lines_of(Seq::empty()) =~= Seq::empty());
        let lines = lines_of("\r\n"@);
        assert(lines =~= seq![Seq::<char>::empty()]);
        assert(trimmed(Seq::<char>::empty()) =~= Seq::empty());
        assert(!substantial(lines.last()));
        assert(lines.drop_last() =~= Seq::empty());
        assert(substantial_lines(lines.drop_last()) =~= Seq::empty());
        assert(substantial_lines(lines) =~= Seq::empty());
        assert(cleaned("\r\n"@) =~= "\r\n"@);
    }
}

/// The characters of lines are those of the text.
proof fn lemma_line_characters(text: Seq<char>)
    requires
        all_swift(text),
    ensures
        forall|i: int, j: int|
            0 <= i < lines_of(text).len() && 0 <= j < lines_of(text)[i].len() ==> swift_character(
                #[trigger] lines_of(text)[i][j],
            ),
    decreases text.len(),
{
    if text.len() > 0 {
        let end = first_position(text, '\n');
        lemma_first_position(text, '\n');
        if end < text.len() {
            let rest = text.skip(end + 1);
            assert forall|i: int| 0 <= i < rest.len() implies swift_character(
                #[trigger] rest[i],
            ) by {
                assert(rest[i] == text[end + 1 + i]);
            }
            lemma_line_characters(rest);
            assert forall|i: int, j: int|
                0 <= i < lines_of(text).len() && 0 <= j < lines_of(
                    text,
                )[i].len() implies swift_character(#[trigger] lines_of(text)[i][j]) by {
                if i == 0 {
                    assert(lines_of(text)[0][j] == text[j]);
                } else {
                    assert(lines_of(text)[i] == lines_of(rest)[i - 1]);
                    assert(swift_character(lines_of(rest)[i - 1][j]));
                }
            }
        }
    }
}

/// The characters of lines that are kept are those of the lines.
proof fn lemma_kept_characters(lines: Seq<Seq<char>>)
    requires
        forall|i: int, j: int|
            0 <= i < lines.len() && 0 <= j < lines[i].len() ==> swift_character(
                #[trigger] lines[i][j],
            ),
    ensures
        forall|i: int, j: int|
            0 <= i < substantial_lines(lines).len() && 0 <= j < substantial_lines(lines)[i].len()
                ==> swift_character(#[trigger] substantial_lines(lines)[i][j]),
    decreases lines.len(),
{
    if lines.len() > 0 {
        let fewer = lines.drop_last();
        assert forall|i: int, j: int|
            0 <= i < fewer.len() && 0 <= j < fewer[i].len() implies swift_character(
            #[trigger] fewer[i][j],
        ) by {
            assert(swift_character(lines[i][j]));
        }
        lemma_kept_characters(fewer);
        let kept = substantial_lines(fewer);
        assert forall|i: int, j: int|
            0 <= i < substantial_lines(lines).len() && 0 <= j < substantial_lines(
                lines,
            )[i].len() implies swift_character(#[trigger] substantial_lines(lines)[i][j]) by {
            if i < kept.len() {
                assert(swift_character(kept[i][j]));
            } else {
                assert(swift_character(lines[lines.len() - 1][j]));
            }
        }
    }
}

/// The characters of parts with separators are those of the parts and the separator.
proof fn lemma_separated_characters(parts: Seq<Seq<char>>, separator: Seq<char>)
    requires
        forall|i: int, j: int|
            0 <= i < parts.len() && 0 <= j < parts[i].len() ==> swift_character(
                #[trigger] parts[i][j],
            ),
        forall|i: int| 0 <= i < separator.len() ==> swift_character(#[trigger] separator[i]),
    ensures
        forall|i: int|
            0 <= i < separated(parts, separator).len() ==> swift_character(
                #[trigger] separated(parts, separator)[i],
            ),
    decreases parts.len(),
{
    if parts.len() > 0 {
        let fewer = parts.drop_last();
        assert forall|i: int, j: int|
            0 <= i < fewer.len() && 0 <= j < fewer[i].len() implies swift_character(
            #[trigger] fewer[i][j],
        ) by {
            assert(swift_character(parts[i][j]));
        }
        lemma_separated_characters(fewer, separator);
        let before = separated(fewer, separator);
        let all = separated(parts, separator);
        assert forall|i: int| 0 <= i < all.len() implies swift_character(#[trigger] all[i]) by {
            if i < before.len() {
                assert(swift_character(before[i]));
            } else if i < before.len() + separator.len() {
                assert(swift_character(separator[i - before.len()]));
            } else {
                assert(swift_character(
                    parts[parts.len() - 1][i - before.len() - separator.len()],
                ));
            }
        }
    }
}

/// Cleaning a text brings in no characters that may not stand in a SWIFT message.
proof fn lemma_cleaned_characters(text: Seq<char>)
    requires
        all_swift(text),
    ensures
        all_swift(cleaned(text)),
{
    reveal_strlit("\r\n");
    lemma_line_characters(text);
    lemma_kept_characters(lines_of(text));
    let kept = substantial_lines(lines_of(text));
    if kept.len() > 0 {
        let rest = kept.drop_first();
        assert forall|i: int, j: int|
            0 <= i < rest.len() && 0 <= j < rest[i].len() implies swift_character(
            #[trigger] rest[i][j],
        ) by {
            assert(swift_character(kept[i + 1][j]));
        }
        lemma_separated_characters(rest, "\r\n"@);
        let tail = separated(rest, "\r\n"@);
        let all = cleaned(text);
        assert forall|i: int| 0 <= i < all.len() implies swift_character(#[trigger] all[i]) by {
            if i < kept[0].len() {
                assert(swift_character(kept[0][i]));
            } else if i < kept[0].len() + tail.len() {
                assert(swift_character(tail[i - kept[0].len()]));
            }
        }
    }
}

/// Whether bytes are ASCII and stand for characters of SWIFT.
pub open spec fn swift_bytes(data: Seq<u8>) -> bool {
    ascii_bytes(data) && all_swift(ascii_text(data))
}

/// A statement in ASCII and the characters of SWIFT is read as it stands, but for
/// the lines that say nothing.
pub proof fn law_swift_statement_stays(data: Seq<u8>)
    requires
        swift_bytes(data),
    ensures
        statement_text(data) == cleaned(ascii_text(data)),
{
    lemma_cleaned_characters(ascii_text(data));
}

/// Statements with the same lines that say something are read the same: blank
/// lines, hyphens that end a statement, the kind of line ending and a last line
/// without one make no difference.
pub proof fn law_lines_decide(left: Seq<u8>, right: Seq<u8>, status: TransactionStatus)
    requires
        left.len() > 0,
        right.len() > 0,
        substantial_lines(lines_of(decoded(left).0)) == substantial_lines(
            lines_of(decoded(right).0),
        ),
    ensures
        statement_text(left) == statement_text(right),
        mt940_result(left, status) == mt940_result(right, status),
{
}

/// Statements in ASCII with the same lines that say something are read the same.
pub proof fn law_ascii_lines_decide(left: Seq<u8>, right: Seq<u8>, status: TransactionStatus)
    requires
        left.len() > 0,
        right.len() > 0,
        ascii_bytes(left),
        ascii_bytes(right),
        substantial_lines(lines_of(ascii_text(left))) == substantial_lines(
            lines_of(ascii_text(right)),
        ),
    ensures
        statement_text(left) == statement_text(right),
        readable(statement_text(left)) == readable(statement_text(right)),
        mt940_result(left, status) == mt940_result(right, status),
{
    law_lines_decide(left, right, status);
}

/// Lines that are ended with a line feed, or with a carriage return and a line feed,
/// are the same lines, whether the last one is ended or not.
pub proof fn law_line_endings_do_not_matter(lines: Seq<Seq<char>>)
    requires
        single_lines(lines),
        lines.len() > 0,
        forall|i: int| 0 <= i < lines.len() ==> !(#[trigger] lines[i]).contains('\r'),
        lines.last().len() > 0,
    ensures
        lines_of(joined(lines, "\r\n"@) + "\r\n"@) == lines,
        lines_of(joined(lines, "\r\n"@)) == lines,
        lines_of(joined(lines, "\n"@) + "\n"@) == lines,
        lines_of(joined(lines, "\n"@)) == lines,
{
    let nothing = Seq::<char>::empty();
    lemma_joined_lines(lines, "\r\n"@, "\r\n"@);
    lemma_joined_lines(lines, "\r\n"@, nothing);
    lemma_joined_lines(lines, "\n"@, "\n"@);
    lemma_joined_lines(lines, "\n"@, nothing);
    assert(joined(lines, "\r\n"@) + nothing =~= joined(lines, "\r\n"@));
    assert(joined(lines, "\n"@) + nothing =~= joined(lines, "\n"@));
}

/// The number of lines of statements.
pub open spec fn line_count(statements: Seq<StatementView>) -> nat
    decreases statements.len(),
{
    if statements.len() == 0 {
        0
    } else {
        line_count(statements.drop_last()) + statements.last().lines.len()
    }
}

/// Each line of each statement gives one transaction.
pub proof fn law_one_transaction_for_each_line(
    statements: Seq<StatementView>,
    status: TransactionStatus,
)
    ensures
        transactions_of(statements, status).len() == line_count(statements),
    decreases statements.len(),
{
    if statements.len() > 0 {
        law_one_transaction_for_each_line(statements.drop_last(), status);
    }
}

/// The lines of statements with their currencies, one statement after the other.
pub open spec fn lines_in_order(statements: Seq<StatementView>) -> Seq<
    (StatementLineView, Seq<char>),
>
    decreases statements.len(),
{
    if statements.len() == 0 {
        Seq::empty()
    } else {
        let last = statements.last();
        lines_in_order(statements.drop_last()) + Seq::new(
            last.lines.len(),
            |i: int| (last.lines[i], last.currency),
        )
    }
}

/// The transactions follow the lines: each is that of the line at its place, in
/// the currency of its statement.
pub proof fn law_transactions_follow_lines(
    statements: Seq<StatementView>,
    status: TransactionStatus,
    at: int,
)
    requires
        0 <= at < lines_in_order(statements).len(),
    ensures
        transactions_of(statements, status).len() == lines_in_order(statements).len(),
        transactions_of(statements, status)[at] == transaction_of(
            lines_in_order(statements)[at].0,
            lines_in_order(statements)[at].1,
            status,
        ),
    decreases statements.len(),
{
    lemma_line_count(statements);
    law_one_transaction_for_each_line(statements, status);
    if statements.len() > 0 {
        let fewer = statements.drop_last();
        lemma_line_count(fewer);
        law_one_transaction_for_each_line(fewer, status);
        let before = lines_in_order(fewer);
        if at < before.len() {
            law_transactions_follow_lines(fewer, status, at);
        } else {
            let own = statement_transactions(statements.last(), status);
            assert(transactions_of(statements, status)[at] == own[at - before.len()]);
        }
    }
}

/// The lines in order are as many as the lines of the statements.
proof fn lemma_line_count(statements: Seq<StatementView>)
    ensures
        lines_in_order(statements).len() == line_count(statements),
    decreases statements.len(),
{
    if statements.len() > 0 {
        lemma_line_count(statements.drop_last());
    }
}

/// Each transaction has the status that was asked for, and the reference of the
/// customer.
pub proof fn law_status_is_handed_on(
    statements: Seq<StatementView>,
    status: TransactionStatus,
    at: int,
)
    requires
        0 <= at < transactions_of(statements, status).len(),
    ensures
        transactions_of(statements, status)[at].status == status,
        transactions_of(statements, status)[at].reference is Some,
    decreases statements.len(),
{
    if statements.len() > 0 {
        let before = transactions_of(statements.drop_last(), status);
        let own = statement_transactions(statements.last(), status);
        if at < before.len() {
            law_status_is_handed_on(statements.drop_last(), status, at);
        } else {
            assert(transactions_of(statements, status)[at] == own[at - before.len()]);
        }
    }
}

/// The status shows nowhere else: two readings of the same statements differ in it alone.
pub proof fn law_status_shows_nowhere_else(
    statements: Seq<StatementView>,
    left: TransactionStatus,
    right: TransactionStatus,
    at: int,
)
    requires
        0 <= at < transactions_of(statements, left).len(),
    ensures
        transactions_of(statements, right).len() == transactions_of(statements, left).len(),
        transactions_of(statements, right)[at] == (TransactionView {
            status: right,
            ..transactions_of(statements, left)[at]
        }),
    decreases statements.len(),
{
    law_one_transaction_for_each_line(statements, left);
    law_one_transaction_for_each_line(statements, right);
    if statements.len() > 0 {
        let fewer = statements.drop_last();
        law_one_transaction_for_each_line(fewer, left);
        law_one_transaction_for_each_line(fewer, right);
        let before = transactions_of(fewer, left);
        if at < before.len() {
            law_status_shows_nowhere_else(fewer, left, right, at);
        } else {
            let ours = statement_transactions(statements.last(), left);
            let theirs = statement_transactions(statements.last(), right);
            assert(transactions_of(statements, left)[at] == ours[at - before.len()]);
            assert(transactions_of(statements, right)[at] == theirs[at - before.len()]);
        }
    }
}

/// Money that a line takes from the account has a negative amount, and no other
/// has: a credit, or what reverses a debit or a credit, keeps its amount.
pub proof fn law_debits_are_negative(
    line: StatementLineView,
    currency: Seq<char>,
    status: TransactionStatus,
)
    requires
        !line.amount.negative,
    ensures
        transaction_of(line, currency, status).amount.negative <==> line.mark is Debit,
        transaction_of(line, currency, status).amount.mantissa == line.amount.mantissa,
        transaction_of(line, currency, status).amount.scale == line.amount.scale,
{
}

/// Empty data holds no transactions and has nothing to show.
pub proof fn law_empty_data(status: TransactionStatus)
    ensures
        mt940_result(Seq::empty(), status) == Ok::<Seq<TransactionView>, FinTSErrorView>(
            Seq::empty(),
        ),
        preview_of(Seq::empty()) == "empty"@,
{
}

/// Each error says that a statement could not be read, and begins so.
pub proof fn law_statement_errors(data: Seq<u8>, status: TransactionStatus)
    ensures
        mt940_result(data, status) is Err ==> exists|message: Seq<char>|
            mt940_result(data, status)->Err_0 == FinTSErrorView::Mt940(
                #[trigger] ("MT940 parse error: "@ + message),
            ),
{
}

/// A preview shows at most twelve tags. Each begins and ends with a colon, and
/// holds no other.
pub proof fn law_preview_shows_tags(text: Seq<char>, at: int)
    requires
        0 <= at < first_tags(text).len(),
    ensures
        first_tags(text).len() <= PREVIEW_TAGS,
        ({
            let tag = first_tags(text)[at];
            &&& tag.len() >= 2
            &&& tag[0] == ':'
            &&& tag.last() == ':'
            &&& forall|i: int| 0 < i < tag.len() - 1 ==> #[trigger] tag[i] != ':'
        }),
{
    lemma_tags(lines_of(text), at);
}

/// A tag begins and ends with a colon, and holds no other.
proof fn lemma_tags(lines: Seq<Seq<char>>, at: int)
    requires
        0 <= at < tags_of(lines).len(),
    ensures
        ({
            let tag = tags_of(lines)[at];
            &&& tag.len() >= 2
            &&& tag[0] == ':'
            &&& tag.last() == ':'
            &&& forall|i: int| 0 < i < tag.len() - 1 ==> #[trigger] tag[i] != ':'
        }),
    decreases lines.len(),
{
    if lines.len() > 0 {
        let before = tags_of(lines.drop_last());
        if at < before.len() {
            lemma_tags(lines.drop_last(), at);
        } else {
            let content = trimmed(lines.last());
            let rest = content.drop_first();
            let end = first_position(rest, ':');
            lemma_first_position(rest, ':');
            let tag = content.take(end + 2);
            assert(tag_of(lines.last()) == Some(tag));
            assert(tag.last() == rest[end]);
            assert forall|i: int| 0 < i < tag.len() - 1 implies #[trigger] tag[i] != ':' by {
                assert(rest[i - 1] == content[i]);
            }
        }
    }
}

/// A preview depends on the tags of the text alone.
pub proof fn law_preview_goes_by_tags(left: Seq<char>, right: Seq<char>)
    requires
        tags_of(lines_of(left)) == tags_of(lines_of(right)),
    ensures
        text_preview(left) == text_preview(right),
{
}

} // verus!
