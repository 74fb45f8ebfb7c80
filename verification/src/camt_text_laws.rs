//! Which part of an account report each text changes, and which it leaves as it was.

use crate::amount::{decimal_of, Amount};
use crate::camt::ReportBuilderView;
use crate::camt_assign::{amount_read, context_of, date_read, ends, timestamp_read, Context};
use crate::date::{date_of, timestamp_of, Date, Timestamp};
use crate::error::FinTSErrorView;
use crate::text::{bool_of, quoted_text, trimmed, u32_of, with_points};
use vstd::prelude::*;

verus! {

/// The names of elements are different names.
proof fn lemma_element_names()
    ensures
        "Acct"@.len() == 4,
        "Acct"@[0] == 'A',
        "Acct"@[1] == 'c',
        "Acct"@[2] == 'c',
        "Acct"@[3] == 't',
        "AcctSvcrRef"@.len() == 11,
        "AcctSvcrRef"@[0] == 'A',
        "AcctSvcrRef"@[1] == 'c',
        "AcctSvcrRef"@[2] == 'c',
        "AcctSvcrRef"@[10] == 'f',
        "AddtlNtryInf"@.len() == 12,
        "AddtlNtryInf"@[0] == 'A',
        "AddtlNtryInf"@[1] == 'd',
        "AddtlNtryInf"@[2] == 'd',
        "AddtlNtryInf"@[11] == 'f',
        "Amt"@.len() == 3,
        "Amt"@[0] == 'A',
        "Amt"@[1] == 'm',
        "Amt"@[2] == 't',
        "BICFI"@.len() == 5,
        "BICFI"@[0] == 'B',
        "BICFI"@[1] == 'I',
        "BICFI"@[2] == 'C',
        "BICFI"@[4] == 'I',
        "Bal"@.len() == 3,
        "Bal"@[0] == 'B',
        "Bal"@[1] == 'a',
        "Bal"@[2] == 'l',
        "BookgDt"@.len() == 7,
        "BookgDt"@[0] == 'B',
        "BookgDt"@[1] == 'o',
        "BookgDt"@[2] == 'o',
        "BookgDt"@[6] == 't',
        "Ccy"@.len() == 3,
        "Ccy"@[0] == 'C',
        "Ccy"@[1] == 'c',
        "Ccy"@[2] == 'y',
        "Cd"@.len() == 2,
        "Cd"@[0] == 'C',
        "Cd"@[1] == 'd',
        "CdOrPrtry"@.len() == 9,
        "CdOrPrtry"@[0] == 'C',
        "CdOrPrtry"@[1] == 'd',
        "CdOrPrtry"@[2] == 'O',
        "CdOrPrtry"@[8] == 'y',
        "CdtDbtInd"@.len() == 9,
        "CdtDbtInd"@[0] == 'C',
        "CdtDbtInd"@[1] == 'd',
        "CdtDbtInd"@[2] == 't',
        "CdtDbtInd"@[8] == 'd',
        "Cdtr"@.len() == 4,
        "Cdtr"@[0] == 'C',
        "Cdtr"@[1] == 'd',
        "Cdtr"@[2] == 't',
        "Cdtr"@[3] == 'r',
        "CdtrAcct"@.len() == 8,
        "CdtrAcct"@[0] == 'C',
        "CdtrAcct"@[1] == 'd',
        "CdtrAcct"@[2] == 't',
        "CdtrAcct"@[7] == 't',
        "CdtrAgt"@.len() == 7,
        "CdtrAgt"@[0] == 'C',
        "CdtrAgt"@[1] == 'd',
        "CdtrAgt"@[2] == 't',
        "CdtrAgt"@[6] == 't',
        "Dbtr"@.len() == 4,
        "Dbtr"@[0] == 'D',
        "Dbtr"@[1] == 'b',
        "Dbtr"@[2] == 't',
        "Dbtr"@[3] == 'r',
        "DbtrAcct"@.len() == 8,
        "DbtrAcct"@[0] == 'D',
        "DbtrAcct"@[1] == 'b',
        "DbtrAcct"@[2] == 't',
        "DbtrAcct"@[7] == 't',
        "DbtrAgt"@.len() == 7,
        "DbtrAgt"@[0] == 'D',
        "DbtrAgt"@[1] == 'b',
        "DbtrAgt"@[2] == 't',
        "DbtrAgt"@[6] == 't',
        "Domn"@.len() == 4,
        "Domn"@[0] == 'D',
        "Domn"@[1] == 'o',
        "Domn"@[2] == 'm',
        "Domn"@[3] == 'n',
        "Dt"@.len() == 2,
        "Dt"@[0] == 'D',
        "Dt"@[1] == 't',
        "EndToEndId"@.len() == 10,
        "EndToEndId"@[0] == 'E',
        "EndToEndId"@[1] == 'n',
        "EndToEndId"@[2] == 'd',
        "EndToEndId"@[9] == 'd',
        "FinInstnId"@.len() == 10,
        "FinInstnId"@[0] == 'F',
        "FinInstnId"@[1] == 'i',
        "FinInstnId"@[2] == 'n',
        "FinInstnId"@[9] == 'd',
        "Fmly"@.len() == 4,
        "Fmly"@[0] == 'F',
        "Fmly"@[1] == 'm',
        "Fmly"@[2] == 'l',
        "Fmly"@[3] == 'y',
        "IBAN"@.len() == 4,
        "IBAN"@[0] == 'I',
        "IBAN"@[1] == 'B',
        "IBAN"@[2] == 'A',
        "IBAN"@[3] == 'N',
        "Id"@.len() == 2,
        "Id"@[0] == 'I',
        "Id"@[1] == 'd',
        "InstdAmt"@.len() == 8,
        "InstdAmt"@[0] == 'I',
        "InstdAmt"@[1] == 'n',
        "InstdAmt"@[2] == 's',
        "InstdAmt"@[7] == 't',
        "Issr"@.len() == 4,
        "Issr"@[0] == 'I',
        "Issr"@[1] == 's',
        "Issr"@[2] == 's',
        "Issr"@[3] == 'r',
        "LastPgInd"@.len() == 9,
        "LastPgInd"@[0] == 'L',
        "LastPgInd"@[1] == 'a',
        "LastPgInd"@[2] == 's',
        "LastPgInd"@[8] == 'd',
        "MsgPgntn"@.len() == 8,
        "MsgPgntn"@[0] == 'M',
        "MsgPgntn"@[1] == 's',
        "MsgPgntn"@[2] == 'g',
        "MsgPgntn"@[7] == 'n',
        "Nm"@.len() == 2,
        "Nm"@[0] == 'N',
        "Nm"@[1] == 'm',
        "Ntry"@.len() == 4,
        "Ntry"@[0] == 'N',
        "Ntry"@[1] == 't',
        "Ntry"@[2] == 'r',
        "Ntry"@[3] == 'y',
        "Othr"@.len() == 4,
        "Othr"@[0] == 'O',
        "Othr"@[1] == 't',
        "Othr"@[2] == 'h',
        "Othr"@[3] == 'r',
        "PgNb"@.len() == 4,
        "PgNb"@[0] == 'P',
        "PgNb"@[1] == 'g',
        "PgNb"@[2] == 'N',
        "PgNb"@[3] == 'b',
        "Prtry"@.len() == 5,
        "Prtry"@[0] == 'P',
        "Prtry"@[1] == 'r',
        "Prtry"@[2] == 't',
        "Prtry"@[4] == 'y',
        "Pty"@.len() == 3,
        "Pty"@[0] == 'P',
        "Pty"@[1] == 't',
        "Pty"@[2] == 'y',
        "Purp"@.len() == 4,
        "Purp"@[0] == 'P',
        "Purp"@[1] == 'u',
        "Purp"@[2] == 'r',
        "Purp"@[3] == 'p',
        "Sts"@.len() == 3,
        "Sts"@[0] == 'S',
        "Sts"@[1] == 't',
        "Sts"@[2] == 's',
        "SubFmlyCd"@.len() == 9,
        "SubFmlyCd"@[0] == 'S',
        "SubFmlyCd"@[1] == 'u',
        "SubFmlyCd"@[2] == 'b',
        "SubFmlyCd"@[8] == 'd',
        "Svcr"@.len() == 4,
        "Svcr"@[0] == 'S',
        "Svcr"@[1] == 'v',
        "Svcr"@[2] == 'c',
        "Svcr"@[3] == 'r',
        "TxDtTm"@.len() == 6,
        "TxDtTm"@[0] == 'T',
        "TxDtTm"@[1] == 'x',
        "TxDtTm"@[2] == 'D',
        "TxDtTm"@[5] == 'm',
        "TxDtls"@.len() == 6,
        "TxDtls"@[0] == 'T',
        "TxDtls"@[1] == 'x',
        "TxDtls"@[2] == 'D',
        "TxDtls"@[5] == 's',
        "Ustrd"@.len() == 5,
        "Ustrd"@[0] == 'U',
        "Ustrd"@[1] == 's',
        "Ustrd"@[2] == 't',
        "Ustrd"@[4] == 'd',
        "ValDt"@.len() == 5,
        "ValDt"@[0] == 'V',
        "ValDt"@[1] == 'a',
        "ValDt"@[2] == 'l',
        "ValDt"@[4] == 't',
{
    reveal_strlit("Acct");
    reveal_strlit("AcctSvcrRef");
    reveal_strlit("AddtlNtryInf");
    reveal_strlit("Amt");
    reveal_strlit("BICFI");
    reveal_strlit("Bal");
    reveal_strlit("BookgDt");
    reveal_strlit("Ccy");
    reveal_strlit("Cd");
    reveal_strlit("CdOrPrtry");
    reveal_strlit("CdtDbtInd");
    reveal_strlit("Cdtr");
    reveal_strlit("CdtrAcct");
    reveal_strlit("CdtrAgt");
    reveal_strlit("Dbtr");
    reveal_strlit("DbtrAcct");
    reveal_strlit("DbtrAgt");
    reveal_strlit("Domn");
    reveal_strlit("Dt");
    reveal_strlit("EndToEndId");
    reveal_strlit("FinInstnId");
    reveal_strlit("Fmly");
    reveal_strlit("IBAN");
    reveal_strlit("Id");
    reveal_strlit("InstdAmt");
    reveal_strlit("Issr");
    reveal_strlit("LastPgInd");
    reveal_strlit("MsgPgntn");
    reveal_strlit("Nm");
    reveal_strlit("Ntry");
    reveal_strlit("Othr");
    reveal_strlit("PgNb");
    reveal_strlit("Prtry");
    reveal_strlit("Pty");
    reveal_strlit("Purp");
    reveal_strlit("Sts");
    reveal_strlit("SubFmlyCd");
    reveal_strlit("Svcr");
    reveal_strlit("TxDtTm");
    reveal_strlit("TxDtls");
    reveal_strlit("Ustrd");
    reveal_strlit("ValDt");
}

/// A path ends with names where its last names are these.
pub proof fn law_path_ends(path: Seq<Seq<char>>, last: Seq<Seq<char>>)
    ensures
        ends(path, last) <==> path.len() >= last.len() && forall|i: int|
            0 <= i < last.len() ==> path[path.len() - last.len() + i] == #[trigger] last[i],
{
    if path.len() >= last.len() {
        let tail = path.subrange(path.len() - last.len(), path.len() as int);
        if ends(path, last) {
            assert forall|i: int| 0 <= i < last.len() implies path[path.len() - last.len() + i]
                == #[trigger] last[i] by {
                assert(tail[i] == last[i]);
            }
        } else if forall|i: int|
            0 <= i < last.len() ==> path[path.len() - last.len() + i] == #[trigger] last[i] {
            assert(tail =~= last);
        }
    }
}

/// The last names of a path, so many of them, or all where there are fewer.
pub open spec fn last_names(path: Seq<Seq<char>>, count: int) -> Seq<Seq<char>> {
    if path.len() < count {
        path
    } else {
        path.skip(path.len() - count)
    }
}

/// Where a path ends with names, its last names are these.
proof fn lemma_ending(path: Seq<Seq<char>>, last: Seq<Seq<char>>)
    requires
        last.len() > 0,
    ensures
        ends(path, last) <==> last_names(path, last.len() as int) == last,
        ends(path, last) ==> path.last() == last.last(),
        ends(path, last) && last.len() > 1 ==> path[path.len() - 2] == last[last.len() - 2],
{
    if path.len() >= last.len() {
        let tail = path.subrange(path.len() - last.len(), path.len() as int);
        assert(tail =~= path.skip(path.len() - last.len()));
        if ends(path, last) {
            assert(tail.last() == path.last());
            if last.len() > 1 {
                assert(tail[last.len() - 2] == path[path.len() - 2]);
            }
        }
    }
}

/// A text changes a part of the account exactly where its path ends with the names
/// of that part, and changes no complete entry or balance.
pub proof fn law_text_and_account(builder: ReportBuilderView, text: Seq<char>)
    ensures
        ({
            let path = builder.path;
            let value = trimmed(text);
            let before = builder.held;
            let after = builder.texted(text).0.held;
            &&& after.report.account.currency == if value.len() > 0
                && last_names(path, 2) == seq!["Acct"@, "Ccy"@] {
                Some(value)
            } else {
                before.report.account.currency
            }
            &&& after.report.account.iban == if value.len() > 0
                && last_names(path, 3) == seq!["Acct"@, "Id"@, "IBAN"@] {
                Some(value)
            } else {
                before.report.account.iban
            }
            &&& after.report.account.other_id == if value.len() > 0
                && last_names(path, 4) == seq!["Acct"@, "Id"@, "Othr"@, "Id"@] {
                Some(value)
            } else {
                before.report.account.other_id
            }
            &&& after.report.account.bic == if value.len() > 0
                && last_names(path, 3) == seq!["Svcr"@, "FinInstnId"@, "BICFI"@] {
                Some(value)
            } else {
                before.report.account.bic
            }
            &&& after.report.entries == before.report.entries
            &&& after.report.balances == before.report.balances
        }),
{
    let path = builder.path;
    lemma_element_names();
    lemma_ending(path, seq!["Acct"@, "Ccy"@]);
    lemma_ending(path, seq!["Acct"@, "Id"@, "IBAN"@]);
    lemma_ending(path, seq!["Acct"@, "Id"@, "Othr"@, "Id"@]);
    lemma_ending(path, seq!["Svcr"@, "FinInstnId"@, "BICFI"@]);
    lemma_ending(path, seq!["MsgPgntn"@, "PgNb"@]);
    lemma_ending(path, seq!["MsgPgntn"@, "LastPgInd"@]);
}

/// What is said of the account of a debtor or a creditor says nothing of the account of
/// the report.
pub proof fn law_parties_leave_the_account(builder: ReportBuilderView, text: Seq<char>)
    requires
        last_names(builder.path, 3) == seq!["DbtrAcct"@, "Id"@, "IBAN"@]
            || last_names(builder.path, 3) == seq!["CdtrAcct"@, "Id"@, "IBAN"@],
    ensures
        builder.texted(text).0.held.report.account == builder.held.report.account,
{
    let path = builder.path;
    lemma_element_names();
    lemma_ending(path, seq!["DbtrAcct"@, "Id"@, "IBAN"@]);
    lemma_ending(path, seq!["CdtrAcct"@, "Id"@, "IBAN"@]);
    assert(last_names(path, 3)[0] == path[path.len() - 3]);
    lemma_ending(path, seq!["Acct"@, "Ccy"@]);
    lemma_ending(path, seq!["Acct"@, "Id"@, "IBAN"@]);
    lemma_ending(path, seq!["Acct"@, "Id"@, "Othr"@, "Id"@]);
    lemma_ending(path, seq!["Svcr"@, "FinInstnId"@, "BICFI"@]);
    lemma_ending(path, seq!["MsgPgntn"@, "PgNb"@]);
    lemma_ending(path, seq!["MsgPgntn"@, "LastPgInd"@]);
    lemma_account_name(path);
}

/// The third name from the end of the path of an account number.
proof fn lemma_account_name(path: Seq<Seq<char>>)
    ensures
        ends(path, seq!["Acct"@, "Id"@, "IBAN"@]) ==> path.len() >= 3 && path[path.len() - 3]
            == "Acct"@,
{
    law_path_ends(path, seq!["Acct"@, "Id"@, "IBAN"@]);
    assert(seq!["Acct"@, "Id"@, "IBAN"@][0] == "Acct"@);
}

/// A text changes the number of the page or the mark of the last page exactly where
/// its path ends with their names and it can be read.
pub proof fn law_text_and_page(builder: ReportBuilderView, text: Seq<char>)
    ensures
        ({
            let path = builder.path;
            let value = trimmed(text);
            let before = builder.held;
            let after = builder.texted(text).0.held;
            &&& after.report.page_number == if value.len() > 0
                && last_names(path, 2) == seq!["MsgPgntn"@, "PgNb"@] && u32_of(
                value,
            ) is Ok {
                Some(u32_of(value)->Ok_0)
            } else {
                before.report.page_number
            }
            &&& after.report.last_page == if value.len() > 0
                && last_names(path, 2) == seq!["MsgPgntn"@, "LastPgInd"@] && bool_of(
                value,
            ) is Ok {
                Some(bool_of(value)->Ok_0)
            } else {
                before.report.last_page
            }
        }),
{
    let path = builder.path;
    lemma_element_names();
    lemma_ending(path, seq!["Acct"@, "Ccy"@]);
    lemma_ending(path, seq!["Acct"@, "Id"@, "IBAN"@]);
    lemma_ending(path, seq!["Acct"@, "Id"@, "Othr"@, "Id"@]);
    lemma_ending(path, seq!["Svcr"@, "FinInstnId"@, "BICFI"@]);
    lemma_ending(path, seq!["MsgPgntn"@, "PgNb"@]);
    lemma_ending(path, seq!["MsgPgntn"@, "LastPgInd"@]);
}

/// A text leaves the open elements as they are, and what pending entries were asked
/// for. The currency of an amount is used up by the first text that can be read.
pub proof fn law_text_and_currency(builder: ReportBuilderView, text: Seq<char>)
    ensures
        ({
            let (after, error) = builder.texted(text);
            &&& after.path == builder.path
            &&& after.pending == builder.pending
            &&& error is None ==> after.amount_currency is None
            &&& error is Some ==> after.amount_currency == builder.amount_currency
        }),
{
}

/// A text that is read changes a part of the balance in hand exactly where it stands
/// in a balance, outside entries, and its path ends with the names of that part.
pub proof fn law_text_and_balance(builder: ReportBuilderView, text: Seq<char>)
    ensures
        ({
            let path = builder.path;
            let value = trimmed(text);
            let before = builder.held;
            let after = builder.texted(text).0.held;
            let here = value.len() > 0 && builder.texted(text).1 is None && path.contains("Bal"@)
                    && !path.contains("Ntry"@) && !path.contains("TxDtls"@);
            let number = decimal_of(with_points(value));
            let currency = match builder.amount_currency {
                Some(currency) => currency,
                None => Seq::empty(),
            };
            &&& (after.balance is Some <==> before.balance is Some)
            &&& before.balance is Some ==> {
                let was = before.balance->0;
                let now = after.balance->0;
                &&& now.code == if here && last_names(path, 2) == seq!["CdOrPrtry"@, "Cd"@] {
                    value
                } else {
                    was.code
                }
                &&& now.amount == if here && last_names(path, 1) == seq!["Amt"@] {
                    number->Ok_0
                } else {
                    was.amount
                }
                &&& now.currency == if here && last_names(path, 1) == seq!["Amt"@] {
                    currency
                } else {
                    was.currency
                }
                &&& now.credit_debit == if here && last_names(path, 1) == seq!["CdtDbtInd"@] {
                    value
                } else {
                    was.credit_debit
                }
                &&& now.date == if here && last_names(path, 2) == seq!["Dt"@, "Dt"@] {
                    Some(date_of(value)->Ok_0)
                } else {
                    was.date
                }
            }
        }),
{
    let path = builder.path;
    lemma_element_names();
    lemma_ending(path, seq!["Acct"@, "Ccy"@]);
    lemma_ending(path, seq!["Acct"@, "Id"@, "IBAN"@]);
    lemma_ending(path, seq!["Acct"@, "Id"@, "Othr"@, "Id"@]);
    lemma_ending(path, seq!["Svcr"@, "FinInstnId"@, "BICFI"@]);
    lemma_ending(path, seq!["MsgPgntn"@, "PgNb"@]);
    lemma_ending(path, seq!["MsgPgntn"@, "LastPgInd"@]);
    lemma_ending(path, seq!["CdOrPrtry"@, "Cd"@]);
    lemma_ending(path, seq!["Amt"@]);
    lemma_ending(path, seq!["CdtDbtInd"@]);
    lemma_ending(path, seq!["Dt"@, "Dt"@]);
}

/// A text that is read changes a part of the entry in hand exactly where it stands in
/// an entry, outside transactions, and its path ends with the names of that part.
pub proof fn law_text_and_entry(builder: ReportBuilderView, text: Seq<char>)
    ensures
        ({
            let path = builder.path;
            let value = trimmed(text);
            let before = builder.held;
            let after = builder.texted(text).0.held;
            let here = value.len() > 0 && builder.texted(text).1 is None && path.contains("Ntry"@)
                    && !path.contains("TxDtls"@);
            let number = decimal_of(with_points(value));
            let currency = match builder.amount_currency {
                Some(currency) => currency,
                None => Seq::empty(),
            };
            &&& (after.entry is Some <==> before.entry is Some)
            &&& before.entry is Some ==> {
                let was = before.entry->0;
                let now = after.entry->0;
                &&& now.amount == if here && last_names(path, 1) == seq!["Amt"@] {
                    number->Ok_0
                } else {
                    was.amount
                }
                &&& now.currency == if here && last_names(path, 1) == seq!["Amt"@] {
                    currency
                } else {
                    was.currency
                }
                &&& now.credit_debit == if here && last_names(path, 1) == seq!["CdtDbtInd"@] {
                    value
                } else {
                    was.credit_debit
                }
                &&& now.status == if here && last_names(path, 2) == seq!["Sts"@, "Cd"@] {
                    value
                } else {
                    was.status
                }
                &&& now.booking_date == if here && last_names(path, 2) == seq!["BookgDt"@, "Dt"@] {
                    Some(date_of(value)->Ok_0)
                } else {
                    was.booking_date
                }
                &&& now.value_date == if here && last_names(path, 2) == seq!["ValDt"@, "Dt"@] {
                    Some(date_of(value)->Ok_0)
                } else {
                    was.value_date
                }
                &&& now.acct_svcr_ref == if here && last_names(path, 1) == seq!["AcctSvcrRef"@] {
                    Some(value)
                } else {
                    was.acct_svcr_ref
                }
                &&& now.additional_info == if here && last_names(path, 1) == seq!["AddtlNtryInf"@] {
                    Some(value)
                } else {
                    was.additional_info
                }
                &&& now.code.domain == if here && last_names(path, 2) == seq!["Domn"@, "Cd"@] {
                    Some(value)
                } else {
                    was.code.domain
                }
                &&& now.code.family == if here && last_names(path, 2) == seq!["Fmly"@, "Cd"@] {
                    Some(value)
                } else {
                    was.code.family
                }
                &&& now.code.subfamily == if here
                    && last_names(path, 2) == seq!["Fmly"@, "SubFmlyCd"@] {
                    Some(value)
                } else {
                    was.code.subfamily
                }
                &&& now.code.proprietary == if here
                    && last_names(path, 2) == seq!["Prtry"@, "Cd"@] {
                    Some(value)
                } else {
                    was.code.proprietary
                }
                &&& now.code.issuer == if here && last_names(path, 2) == seq!["Prtry"@, "Issr"@] {
                    Some(value)
                } else {
                    was.code.issuer
                }
                &&& now.transactions == was.transactions
            }
        }),
{
    let path = builder.path;
    lemma_element_names();
    lemma_ending(path, seq!["Acct"@, "Ccy"@]);
    lemma_ending(path, seq!["Acct"@, "Id"@, "IBAN"@]);
    lemma_ending(path, seq!["Acct"@, "Id"@, "Othr"@, "Id"@]);
    lemma_ending(path, seq!["Svcr"@, "FinInstnId"@, "BICFI"@]);
    lemma_ending(path, seq!["MsgPgntn"@, "PgNb"@]);
    lemma_ending(path, seq!["MsgPgntn"@, "LastPgInd"@]);
    lemma_ending(path, seq!["Amt"@]);
    lemma_ending(path, seq!["CdtDbtInd"@]);
    lemma_ending(path, seq!["Sts"@, "Cd"@]);
    lemma_ending(path, seq!["BookgDt"@, "Dt"@]);
    lemma_ending(path, seq!["ValDt"@, "Dt"@]);
    lemma_ending(path, seq!["AcctSvcrRef"@]);
    lemma_ending(path, seq!["AddtlNtryInf"@]);
    lemma_ending(path, seq!["Domn"@, "Cd"@]);
    lemma_ending(path, seq!["Fmly"@, "Cd"@]);
    lemma_ending(path, seq!["Fmly"@, "SubFmlyCd"@]);
    lemma_ending(path, seq!["Prtry"@, "Cd"@]);
    lemma_ending(path, seq!["Prtry"@, "Issr"@]);
}

/// A text that is read changes a part of the transaction in hand exactly where it
/// stands in a transaction and its path ends with the names of that part.
pub proof fn law_text_and_transaction(builder: ReportBuilderView, text: Seq<char>)
    ensures
        ({
            let path = builder.path;
            let value = trimmed(text);
            let before = builder.held;
            let after = builder.texted(text).0.held;
            let here = value.len() > 0 && builder.texted(text).1 is None && path.contains(
                "TxDtls"@,
            );
            let number = decimal_of(with_points(value));
            let currency = match builder.amount_currency {
                Some(currency) => currency,
                None => Seq::empty(),
            };
            &&& (after.transaction is Some <==> before.transaction is Some)
            &&& before.transaction is Some ==> {
                let was = before.transaction->0;
                let now = after.transaction->0;
                &&& now.original_amount == if here
                    && last_names(path, 2) == seq!["InstdAmt"@, "Amt"@] {
                    Some(number->Ok_0)
                } else {
                    was.original_amount
                }
                &&& now.original_currency == if here
                    && last_names(path, 2) == seq!["InstdAmt"@, "Amt"@] {
                    builder.amount_currency
                } else {
                    was.original_currency
                }
                &&& now.amount == if here && last_names(path, 1) == seq!["Amt"@]
                    && last_names(path, 2) != seq!["InstdAmt"@, "Amt"@] {
                    number->Ok_0
                } else {
                    was.amount
                }
                &&& now.currency == if here && last_names(path, 1) == seq!["Amt"@]
                    && last_names(path, 2) != seq!["InstdAmt"@, "Amt"@] {
                    currency
                } else {
                    was.currency
                }
                &&& now.credit_debit == if here && last_names(path, 1) == seq!["CdtDbtInd"@] {
                    value
                } else {
                    was.credit_debit
                }
                &&& now.end_to_end_id == if here && last_names(path, 1) == seq!["EndToEndId"@] {
                    Some(value)
                } else {
                    was.end_to_end_id
                }
                &&& now.transaction_at == if here && last_names(path, 1) == seq!["TxDtTm"@] {
                    Some(timestamp_of(value)->Ok_0)
                } else {
                    was.transaction_at
                }
                &&& now.debtor.name == if here
                    && last_names(path, 3) == seq!["Dbtr"@, "Pty"@, "Nm"@] {
                    Some(value)
                } else {
                    was.debtor.name
                }
                &&& now.debtor.iban == if here
                    && last_names(path, 3) == seq!["DbtrAcct"@, "Id"@, "IBAN"@] {
                    Some(value)
                } else {
                    was.debtor.iban
                }
                &&& now.debtor.bic == if here
                    && last_names(path, 3) == seq!["DbtrAgt"@, "FinInstnId"@, "BICFI"@] {
                    Some(value)
                } else {
                    was.debtor.bic
                }
                &&& now.creditor.name == if here
                    && last_names(path, 3) == seq!["Cdtr"@, "Pty"@, "Nm"@] {
                    Some(value)
                } else {
                    was.creditor.name
                }
                &&& now.creditor.iban == if here
                    && last_names(path, 3) == seq!["CdtrAcct"@, "Id"@, "IBAN"@] {
                    Some(value)
                } else {
                    was.creditor.iban
                }
                &&& now.creditor.bic == if here
                    && last_names(path, 3) == seq!["CdtrAgt"@, "FinInstnId"@, "BICFI"@] {
                    Some(value)
                } else {
                    was.creditor.bic
                }
                &&& now.purpose_code == if here && last_names(path, 2) == seq!["Purp"@, "Cd"@] {
                    Some(value)
                } else {
                    was.purpose_code
                }
                &&& now.remittance == if here && last_names(path, 1) == seq!["Ustrd"@] {
                    Some(value)
                } else {
                    was.remittance
                }
                &&& now.code.domain == if here && last_names(path, 2) == seq!["Domn"@, "Cd"@] {
                    Some(value)
                } else {
                    was.code.domain
                }
                &&& now.code.family == if here && last_names(path, 2) == seq!["Fmly"@, "Cd"@] {
                    Some(value)
                } else {
                    was.code.family
                }
                &&& now.code.subfamily == if here
                    && last_names(path, 2) == seq!["Fmly"@, "SubFmlyCd"@] {
                    Some(value)
                } else {
                    was.code.subfamily
                }
                &&& now.code.proprietary == if here
                    && last_names(path, 2) == seq!["Prtry"@, "Cd"@] {
                    Some(value)
                } else {
                    was.code.proprietary
                }
                &&& now.code.issuer == if here && last_names(path, 2) == seq!["Prtry"@, "Issr"@] {
                    Some(value)
                } else {
                    was.code.issuer
                }
            }
        }),
{
    let path = builder.path;
    lemma_element_names();
    lemma_ending(path, seq!["Acct"@, "Ccy"@]);
    lemma_ending(path, seq!["Acct"@, "Id"@, "IBAN"@]);
    lemma_ending(path, seq!["Acct"@, "Id"@, "Othr"@, "Id"@]);
    lemma_ending(path, seq!["Svcr"@, "FinInstnId"@, "BICFI"@]);
    lemma_ending(path, seq!["MsgPgntn"@, "PgNb"@]);
    lemma_ending(path, seq!["MsgPgntn"@, "LastPgInd"@]);
    lemma_ending(path, seq!["InstdAmt"@, "Amt"@]);
    lemma_ending(path, seq!["Amt"@]);
    lemma_ending(path, seq!["CdtDbtInd"@]);
    lemma_ending(path, seq!["EndToEndId"@]);
    lemma_ending(path, seq!["TxDtTm"@]);
    lemma_ending(path, seq!["Dbtr"@, "Pty"@, "Nm"@]);
    lemma_ending(path, seq!["DbtrAcct"@, "Id"@, "IBAN"@]);
    lemma_ending(path, seq!["DbtrAgt"@, "FinInstnId"@, "BICFI"@]);
    lemma_ending(path, seq!["Cdtr"@, "Pty"@, "Nm"@]);
    lemma_ending(path, seq!["CdtrAcct"@, "Id"@, "IBAN"@]);
    lemma_ending(path, seq!["CdtrAgt"@, "FinInstnId"@, "BICFI"@]);
    lemma_ending(path, seq!["Purp"@, "Cd"@]);
    lemma_ending(path, seq!["Ustrd"@]);
    lemma_ending(path, seq!["Domn"@, "Cd"@]);
    lemma_ending(path, seq!["Fmly"@, "Cd"@]);
    lemma_ending(path, seq!["Fmly"@, "SubFmlyCd"@]);
    lemma_ending(path, seq!["Prtry"@, "Cd"@]);
    lemma_ending(path, seq!["Prtry"@, "Issr"@]);
}

/// A text is refused exactly where it is a page number, a mark of the last page, an
/// amount, a date or a point in time that cannot be read. The error says so.
pub proof fn law_text_is_refused(builder: ReportBuilderView, text: Seq<char>)
    ensures
        ({
            let path = builder.path;
            let value = trimmed(text);
            let held = builder.held;
            let said = value.len() > 0;
            let error = builder.texted(text).1;
            let transaction = path.contains("TxDtls"@) && held.transaction is Some;
            let entry = path.contains("Ntry"@) && !path.contains("TxDtls"@) && held.entry is Some;
            let balance = path.contains("Bal"@) && !path.contains("Ntry"@) && !path.contains(
                "TxDtls"@,
            ) && held.balance is Some;
            let page = said && (last_names(path, 2)
                == seq!["MsgPgntn"@, "PgNb"@]) && u32_of(value) is Err;
            let last = said && (last_names(path, 2)
                == seq!["MsgPgntn"@, "LastPgInd"@]) && bool_of(value) is Err;
            let amount = said && (transaction || entry || balance) && path.len() > 0 && path.last()
                == "Amt"@ && decimal_of(with_points(value)) is Err;
            let day = said && (balance && (last_names(path, 2)
                == seq!["Dt"@, "Dt"@]) || entry && ((last_names(path, 2) == seq!["BookgDt"@, "Dt"@])
                || (last_names(path, 2) == seq!["ValDt"@, "Dt"@]))) && date_of(value) is Err;
            let time = said && transaction && path.len() > 0 && path.last() == "TxDtTm"@
                && timestamp_of(value) is Err;
            &&& error is Some <==> page || last || amount || day || time
            &&& page ==> error == Some(
                FinTSErrorView::Dialog(
                    "CAMT parse failed: "@ + ("invalid CAMT page number: "@ + u32_of(value)->Err_0),
                ),
            )
            &&& last ==> error == Some(
                FinTSErrorView::Dialog(
                    "CAMT parse failed: "@ + ("invalid CAMT last-page flag: "@ + bool_of(
                        value,
                    )->Err_0),
                ),
            )
            &&& amount ==> error == Some(
                FinTSErrorView::Dialog(
                    "CAMT parse failed: "@ + ("invalid CAMT amount "@ + quoted_text(value) + ": "@
                        + decimal_of(with_points(value))->Err_0),
                ),
            )
            &&& day ==> error == Some(
                FinTSErrorView::Dialog(
                    "CAMT parse failed: "@ + ("invalid CAMT date "@ + quoted_text(value) + ": "@
                        + date_of(value)->Err_0),
                ),
            )
            &&& time ==> error == Some(
                FinTSErrorView::Dialog("CAMT parse failed: "@ + timestamp_of(value)->Err_0),
            )
        }),
{
    let path = builder.path;
    lemma_element_names();
    if path.len() > 0 {
        assert(path.skip(path.len() - 1) =~= seq![path.last()]);
    }
    lemma_ending(path, seq!["Acct"@, "Ccy"@]);
    lemma_ending(path, seq!["Acct"@, "Id"@, "IBAN"@]);
    lemma_ending(path, seq!["Acct"@, "Id"@, "Othr"@, "Id"@]);
    lemma_ending(path, seq!["Svcr"@, "FinInstnId"@, "BICFI"@]);
    lemma_ending(path, seq!["MsgPgntn"@, "PgNb"@]);
    lemma_ending(path, seq!["MsgPgntn"@, "LastPgInd"@]);
    lemma_ending(path, seq!["CdOrPrtry"@, "Cd"@]);
    lemma_ending(path, seq!["Amt"@]);
    lemma_ending(path, seq!["CdtDbtInd"@]);
    lemma_ending(path, seq!["Dt"@, "Dt"@]);
    lemma_ending(path, seq!["Sts"@, "Cd"@]);
    lemma_ending(path, seq!["BookgDt"@, "Dt"@]);
    lemma_ending(path, seq!["ValDt"@, "Dt"@]);
    lemma_ending(path, seq!["AcctSvcrRef"@]);
    lemma_ending(path, seq!["AddtlNtryInf"@]);
    lemma_ending(path, seq!["InstdAmt"@, "Amt"@]);
    lemma_ending(path, seq!["EndToEndId"@]);
    lemma_ending(path, seq!["TxDtTm"@]);
    lemma_ending(path, seq!["Dbtr"@, "Pty"@, "Nm"@]);
    lemma_ending(path, seq!["DbtrAcct"@, "Id"@, "IBAN"@]);
    lemma_ending(path, seq!["DbtrAgt"@, "FinInstnId"@, "BICFI"@]);
    lemma_ending(path, seq!["Cdtr"@, "Pty"@, "Nm"@]);
    lemma_ending(path, seq!["CdtrAcct"@, "Id"@, "IBAN"@]);
    lemma_ending(path, seq!["CdtrAgt"@, "FinInstnId"@, "BICFI"@]);
    lemma_ending(path, seq!["Purp"@, "Cd"@]);
    lemma_ending(path, seq!["Ustrd"@]);
    lemma_ending(path, seq!["Domn"@, "Cd"@]);
    lemma_ending(path, seq!["Fmly"@, "Cd"@]);
    lemma_ending(path, seq!["Fmly"@, "SubFmlyCd"@]);
    lemma_ending(path, seq!["Prtry"@, "Cd"@]);
    lemma_ending(path, seq!["Prtry"@, "Issr"@]);
}

/// A path leads into a transaction where it has the name of one anywhere, else into an
/// entry, else into a balance.
pub proof fn law_where_a_path_leads(path: Seq<Seq<char>>)
    ensures
        context_of(path) == Context::Transaction <==> path.contains("TxDtls"@),
        context_of(path) == Context::Entry <==> path.contains("Ntry"@) && !path.contains(
            "TxDtls"@,
        ),
        context_of(path) == Context::Balance <==> path.contains("Bal"@) && !path.contains("Ntry"@)
            && !path.contains("TxDtls"@),
        context_of(path) == Context::Outside <==> !path.contains("Bal"@) && !path.contains("Ntry"@)
            && !path.contains("TxDtls"@),
{
}

/// An amount, a date or a point in time is what the text writes. In an amount a comma
/// stands for a point. Where the text writes none, the error says which text and why.
pub proof fn law_values_are_read(value: Seq<char>)
    ensures
        match decimal_of(with_points(value)) {
            Ok(amount) => amount_read(value) == Ok::<Amount, FinTSErrorView>(amount),
            Err(error) => amount_read(value) == Err::<Amount, FinTSErrorView>(
                FinTSErrorView::Dialog(
                    "CAMT parse failed: "@ + ("invalid CAMT amount "@ + quoted_text(value) + ": "@
                        + error),
                ),
            ),
        },
        match date_of(value) {
            Ok(date) => date_read(value) == Ok::<Date, FinTSErrorView>(date),
            Err(error) => date_read(value) == Err::<Date, FinTSErrorView>(
                FinTSErrorView::Dialog(
                    "CAMT parse failed: "@ + ("invalid CAMT date "@ + quoted_text(value) + ": "@
                        + error),
                ),
            ),
        },
        match timestamp_of(value) {
            Ok(time) => timestamp_read(value) == Ok::<Timestamp, FinTSErrorView>(time),
            Err(error) => timestamp_read(value) == Err::<Timestamp, FinTSErrorView>(
                FinTSErrorView::Dialog("CAMT parse failed: "@ + error),
            ),
        },
{
}

} // verus!
