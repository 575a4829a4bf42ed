//! The record parser: reads delimited text into transactions. The first row
//! is unconditionally a header; every later row with at least three fields is
//! (date, description, amount); rows are skipped when short, header-like, or
//! zero-amount; one malformed amount aborts the whole parse.
use vstd::prelude::*;

use crate::amount::{parse_amount_chars, spec_parse_amount};
use crate::model::{ParseError, Transaction, TransactionView, txs_view, MAX_CENTS};
use crate::text::{
    chars_to_string, contains_chars, contains_seq, lower_chars, lower_seq, split_chars, split_on,
    str_to_chars, lemma_split_on_nonempty,
};

verus! {

/// A line with one trailing carriage return removed.
pub open spec fn strip_cr(line: Seq<char>) -> Seq<char> {
    if line.len() > 0 && line.last() == '\r' {
        line.drop_last()
    } else {
        line
    }
}

/// The rows after the header: the content split on newlines, each line with a
/// trailing carriage return dropped and then split on commas.
pub open spec fn data_rows(content: Seq<char>) -> Seq<Seq<Seq<char>>> {
    let lines = split_on(content, '\n');
    Seq::new((lines.len() - 1) as nat, |i: int| split_on(strip_cr(lines[i + 1]), ','))
}

/// A row is dropped when its description looks like a stray header row or its
/// amount is exactly zero.
pub open spec fn skip_row(desc: Seq<char>, cents: int) -> bool {
    contains_seq(lower_seq(desc), "description"@) || contains_seq(lower_seq(desc), "transaction"@)
        || cents == 0
}

/// The transaction a surviving row yields: date, description, and the
/// absolute value of the parsed amount, not yet categorized.
pub open spec fn row_tx(row: Seq<Seq<char>>, cents: int) -> TransactionView {
    TransactionView {
        date: row[0],
        description: row[1],
        amount_cents: if cents >= 0 {
            cents
        } else {
            -cents
        },
        category: Option::None,
    }
}

/// The parse of a row sequence: rows with fewer than three fields and rows
/// meeting `skip_row` are dropped, and any row whose amount token fails the
/// normalizer aborts the whole parse.
pub open spec fn parse_rows(rows: Seq<Seq<Seq<char>>>) -> Option<Seq<TransactionView>>
    decreases rows.len(),
{
    if rows.len() == 0 {
        Option::Some(Seq::<TransactionView>::empty())
    } else {
        match parse_rows(rows.drop_last()) {
            Option::None => Option::None,
            Option::Some(txs) => {
                let row = rows.last();
                if row.len() < 3 {
                    Option::Some(txs)
                } else {
                    match spec_parse_amount(row[2]) {
                        Option::None => Option::None,
                        Option::Some(v) => if skip_row(row[1], v) {
                            Option::Some(txs)
                        } else {
                            Option::Some(txs.push(row_tx(row, v)))
                        },
                    }
                }
            },
        }
    }
}

/// The full delimited parse of a file's text: header consumed, then the rows.
pub open spec fn spec_parse_csv(content: Seq<char>) -> Option<Seq<TransactionView>> {
    parse_rows(data_rows(content))
}

pub proof fn lemma_parse_rows_none(rows: Seq<Seq<Seq<char>>>, i: int)
    requires
        0 <= i <= rows.len(),
        parse_rows(rows.take(i)) is None,
    ensures
        parse_rows(rows) is None,
    decreases rows.len(),
{
    if i == rows.len() {
        assert(rows.take(i) =~= rows);
    } else {
        assert(rows.drop_last().take(i) =~= rows.take(i));
        lemma_parse_rows_none(rows.drop_last(), i);
    }
}

/// Every transaction a parse yields has a positive magnitude of at most
/// `MAX_CENTS` and no category yet.
pub proof fn lemma_parse_rows_amounts(rows: Seq<Seq<Seq<char>>>)
    ensures
        parse_rows(rows) matches Option::Some(txs) ==> forall|i: int|
            0 <= i < txs.len() ==> 1 <= #[trigger] txs[i].amount_cents <= MAX_CENTS as int,
    decreases rows.len(),
{
    if rows.len() > 0 {
        lemma_parse_rows_amounts(rows.drop_last());
    }
}

/// Reads delimited text into the ordered transactions of its data rows.
pub fn parse_csv(content: &str) -> (r: Result<Vec<Transaction>, ParseError>)
    ensures
        r is Ok <==> spec_parse_csv(content@) is Some,
        r is Ok ==> txs_view(r->Ok_0@) == spec_parse_csv(content@)->Some_0,
        r is Err ==> r->Err_0 == ParseError::NumberFormat,
{
    let chars = str_to_chars(content);
    let lines = split_chars(&chars, '\n');
    let ghost data = data_rows(content@);
    proof {
        lemma_split_on_nonempty(content@, '\n');
    }
    let mut txs: Vec<Transaction> = Vec::new();
    let mut j: usize = 1;
    while j < lines.len()
        invariant
            1 <= j <= lines@.len(),
            lines.deep_view() == split_on(content@, '\n'),
            data == data_rows(content@),
            data.len() == lines@.len() - 1,
            parse_rows(data.take(j - 1)) == Option::Some(txs_view(txs@)),
        decreases lines@.len() - j,
    {
        proof {
            assert(data.take(j as int).drop_last() =~= data.take(j - 1));
            assert(data.take(j as int).last() == data[j - 1]);
            assert(lines.deep_view()[j as int] == lines@[j as int]@);
        }
        let line = &lines[j];
        let mut lv: Vec<char> = Vec::new();
        let m = if line.len() > 0 && line[line.len() - 1] == '\r' {
            line.len() - 1
        } else {
            line.len()
        };
        let mut k: usize = 0;
        while k < m
            invariant
                k <= m <= line@.len(),
                lv@ =~= line@.take(k as int),
            decreases m - k,
        {
            lv.push(line[k]);
            assert(lv@ =~= line@.take(k + 1));
            k = k + 1;
        }
        proof {
            assert(lv@ =~= strip_cr(lines@[j as int]@));
        }
        let fields = split_chars(&lv, ',');
        let ghost row = data[j - 1];
        proof {
            assert(fields.deep_view() == row);
        }
        if fields.len() >= 3 {
            proof {
                assert(fields.deep_view()[2] == fields@[2]@);
                assert(fields.deep_view()[1] == fields@[1]@);
                assert(fields.deep_view()[0] == fields@[0]@);
            }
            let cents = match parse_amount_chars(&fields[2]) {
                Result::Ok(v) => v,
                Result::Err(_) => {
                    proof {
                        lemma_parse_rows_none(data, j as int);
                    }
                    return Result::Err(ParseError::NumberFormat);
                },
            };
            let low = lower_chars(&fields[1]);
            let is_header_like = contains_chars(&low, "description") || contains_chars(
                &low,
                "transaction",
            );
            if !(is_header_like || cents == 0) {
                let magnitude: u64 = if cents >= 0 {
                    cents as u64
                } else {
                    (-cents) as u64
                };
                let tx = Transaction {
                    date: chars_to_string(&fields[0]),
                    description: chars_to_string(&fields[1]),
                    amount_cents: magnitude,
                    category: Option::None,
                };
                let ghost old_txs = txs@;
                txs.push(tx);
                proof {
                    assert(txs_view(txs@) =~= txs_view(old_txs).push(
                        row_tx(row, spec_parse_amount(row[2])->Some_0),
                    ));
                }
            }
        }
        j = j + 1;
    }
    proof {
        assert(data.take(data.len() as int) =~= data);
    }
    Result::Ok(txs)
}

/// The file-extension gate before parsing: only a `.csv` suffix selects the
/// delimited parsing path.
pub open spec fn has_csv_ext(p: Seq<char>) -> bool {
    p.len() >= 4 && p[p.len() - 4] == '.' && p[p.len() - 3] == 'c' && p[p.len() - 2] == 's'
        && p[p.len() - 1] == 'v'
}

/// What parsing a file yields: the parsed rows of delimited text for a
/// `.csv` path, nothing for any other extension.
pub open spec fn spec_parse_file(path: Seq<char>, content: Seq<char>) -> Option<
    Seq<TransactionView>,
> {
    if has_csv_ext(path) {
        spec_parse_csv(content)
    } else {
        Option::None
    }
}

/// Parses a file's text according to its path's extension: `.csv` runs the
/// delimited parser, anything else is an unsupported format.
pub fn parse_file(path: &str, content: &str) -> (r: Result<Vec<Transaction>, ParseError>)
    ensures
        r is Ok <==> spec_parse_file(path@, content@) is Some,
        r is Ok ==> txs_view(r->Ok_0@) == spec_parse_file(path@, content@)->Some_0,
        r is Err ==> r->Err_0 == if has_csv_ext(path@) {
            ParseError::NumberFormat
        } else {
            ParseError::UnsupportedFormat
        },
{
    let pc = str_to_chars(path);
    let n = pc.len();
    let is_csv = n >= 4 && pc[n - 4] == '.' && pc[n - 3] == 'c' && pc[n - 2] == 's' && pc[n - 1]
        == 'v';
    if is_csv {
        parse_csv(content)
    } else {
        Result::Err(ParseError::UnsupportedFormat)
    }
}

} // verus!
