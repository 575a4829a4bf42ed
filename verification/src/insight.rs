//! The insight generator: fixed, ordered, human-readable observations derived
//! from the transactions, the category breakdown, and the source path.
use vstd::prelude::*;

use crate::model::{CategoryTotal, CategoryTotalView, Transaction, TransactionView, txs_view};
use crate::aggregate::cats_vview;
use crate::text::{
    chars_to_string, dec_of, digit_char, digit_char_exec, filename_chars, filename_of, fmt_u128,
    push_all, push_str_chars, str_to_chars,
};

verus! {

/// A percentage in tenths rendered with one decimal place.
pub open spec fn fmt_pct_tenths(p: int) -> Seq<char> {
    dec_of(p / 10).push('.').push(digit_char(p % 10))
}

/// A cents value rendered as a decimal with two places.
pub open spec fn fmt_cents(c: int) -> Seq<char> {
    dec_of(c / 100).push('.').push(digit_char((c % 100) / 10)).push(digit_char(c % 10))
}

/// How many transactions are small: under ten units, that is under a thousand
/// cents.
pub open spec fn small_count(txs: Seq<TransactionView>) -> int
    decreases txs.len(),
{
    if txs.len() == 0 {
        0
    } else {
        small_count(txs.drop_last()) + if txs.last().amount_cents < 1000 {
            1int
        } else {
            0int
        }
    }
}

/// The summed amount of the small transactions, in cents.
pub open spec fn small_sum(txs: Seq<TransactionView>) -> int
    decreases txs.len(),
{
    if txs.len() == 0 {
        0
    } else {
        small_sum(txs.drop_last()) + if txs.last().amount_cents < 1000 {
            txs.last().amount_cents
        } else {
            0int
        }
    }
}

/// The fixed insight list: the analyzed count and file name; the top category
/// and its share when a category exists; the small-transaction count and sum
/// when more than five are small; and a closing recommendation.
pub open spec fn spec_insights(
    txs: Seq<TransactionView>,
    cats: Seq<CategoryTotalView>,
    path: Seq<char>,
) -> Seq<Seq<char>> {
    let first = "Successfully analyzed "@ + dec_of(txs.len() as int) + " transactions from "@
        + filename_of(path);
    let base = seq![first];
    let with_top = if cats.len() > 0 {
        base.push(
            "Your largest spending category is "@ + cats[0].category + " at "@ + fmt_pct_tenths(
                cats[0].percentage_tenths,
            ) + "% of total spending"@,
        )
    } else {
        base
    };
    let with_small = if small_count(txs) > 5 {
        with_top.push(
            "You have "@ + dec_of(small_count(txs)) + " small transactions (under $10) totaling $"@
                + fmt_cents(small_sum(txs)),
        )
    } else {
        with_top
    };
    with_small.push("Consider setting up spending alerts for your top categories"@)
}

fn fmt_pct_exec(p: u64) -> (r: Vec<char>)
    ensures
        r@ == fmt_pct_tenths(p as int),
{
    let mut r = fmt_u128((p / 10) as u128);
    r.push('.');
    r.push(digit_char_exec((p % 10) as u128));
    r
}

fn fmt_cents_exec(c: u128) -> (r: Vec<char>)
    ensures
        r@ == fmt_cents(c as int),
{
    let mut r = fmt_u128(c / 100);
    r.push('.');
    r.push(digit_char_exec((c % 100) / 10));
    r.push(digit_char_exec(c % 10));
    r
}

/// Derives the ordered observation strings for a report.
pub fn generate_insights(
    transactions: &Vec<Transaction>,
    categories: &Vec<CategoryTotal>,
    file_path: &str,
) -> (r: Vec<String>)
    ensures
        r.deep_view() == spec_insights(
            txs_view(transactions@),
            cats_vview(categories@),
            file_path@,
        ),
{
    let ghost tv = txs_view(transactions@);
    let ghost cv = cats_vview(categories@);
    let n = transactions.len();

    let mut first: Vec<char> = Vec::new();
    push_str_chars(&mut first, "Successfully analyzed ");
    let count_chars = fmt_u128(n as u128);
    push_all(&mut first, &count_chars);
    push_str_chars(&mut first, " transactions from ");
    let path_chars = str_to_chars(file_path);
    let fname = filename_chars(&path_chars);
    push_all(&mut first, &fname);

    let mut out: Vec<String> = Vec::new();
    out.push(chars_to_string(&first));
    proof {
        assert(out.deep_view() =~~= seq![
            "Successfully analyzed "@ + dec_of(tv.len() as int) + " transactions from "@
                + filename_of(file_path@),
        ]);
    }

    if categories.len() > 0 {
        let ghost before = out.deep_view();
        let mut second: Vec<char> = Vec::new();
        push_str_chars(&mut second, "Your largest spending category is ");
        let cat_chars = str_to_chars(categories[0].category.as_str());
        push_all(&mut second, &cat_chars);
        push_str_chars(&mut second, " at ");
        let pct_chars = fmt_pct_exec(categories[0].percentage_tenths);
        push_all(&mut second, &pct_chars);
        push_str_chars(&mut second, "% of total spending");
        out.push(chars_to_string(&second));
        proof {
            assert(cv[0].category == categories@[0]@.category);
            assert(out.deep_view() =~~= before.push(
                "Your largest spending category is "@ + cv[0].category + " at "@ + fmt_pct_tenths(
                    cv[0].percentage_tenths,
                ) + "% of total spending"@,
            ));
        }
    }

    let mut small_cnt: usize = 0;
    let mut small_total: u128 = 0;
    let mut i: usize = 0;
    while i < n
        invariant
            i <= n,
            n == transactions@.len(),
            tv == txs_view(transactions@),
            small_cnt as int == small_count(tv.take(i as int)),
            small_total as int == small_sum(tv.take(i as int)),
            small_cnt <= i,
            small_total <= i as int * 1000,
        decreases n - i,
    {
        proof {
            assert(tv.take(i + 1).drop_last() =~= tv.take(i as int));
            assert(tv.take(i + 1).last() == tv[i as int]);
            assert(tv[i as int] == transactions@[i as int]@);
        }
        if transactions[i].amount_cents < 1000 {
            small_cnt = small_cnt + 1;
            small_total = small_total + transactions[i].amount_cents as u128;
        }
        i = i + 1;
    }
    proof {
        assert(tv.take(n as int) =~= tv);
    }
    if small_cnt > 5 {
        let ghost before = out.deep_view();
        let mut third: Vec<char> = Vec::new();
        push_str_chars(&mut third, "You have ");
        let cnt_chars = fmt_u128(small_cnt as u128);
        push_all(&mut third, &cnt_chars);
        push_str_chars(&mut third, " small transactions (under $10) totaling $");
        let sum_chars = fmt_cents_exec(small_total);
        push_all(&mut third, &sum_chars);
        out.push(chars_to_string(&third));
        proof {
            assert(out.deep_view() =~~= before.push(
                "You have "@ + dec_of(small_count(tv))
                    + " small transactions (under $10) totaling $"@ + fmt_cents(small_sum(tv)),
            ));
        }
    }

    let ghost before_last = out.deep_view();
    out.push("Consider setting up spending alerts for your top categories".to_owned());
    proof {
        assert(out.deep_view() =~~= before_last.push(
            "Consider setting up spending alerts for your top categories"@,
        ));
        assert(out.deep_view() =~~= spec_insights(tv, cv, file_path@));
    }
    out
}

} // verus!
