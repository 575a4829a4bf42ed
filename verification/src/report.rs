//! The report orchestrator: validates, parses, analyzes, and falls back to a
//! fixed sample report whenever parsing fails or yields no rows. Only a
//! missing file surfaces as an error to the caller.
use vstd::prelude::*;

use crate::aggregate::{
    calculate_categories, find_top_merchants, spec_calculate_categories, spec_top_merchants,
};
use crate::category::{categorize_description, spec_category_name};
use crate::insight::{generate_insights, spec_insights};
use crate::model::{
    AnalysisResult, AnalysisResultView, CategoryTotal, CategoryTotalView, MerchantTotal,
    MerchantTotalView, Transaction, TransactionView, sum_amounts, txs_view, MAX_CENTS,
    MAX_MONTHLY_CENTS,
};
use crate::parse::{data_rows, lemma_parse_rows_amounts, parse_file, spec_parse_file};
use crate::text::filename_of;
use vstd::arithmetic::mul::lemma_mul_inequality;

verus! {

/// What the surrounding I/O edge observed of the file: it does not exist, it
/// exists but could not be read, or its whole text.
pub enum ReadOutcome {
    Missing,
    Unreadable,
    Content(String),
}

pub enum ReadView {
    Missing,
    Unreadable,
    Content(Seq<char>),
}

impl View for ReadOutcome {
    type V = ReadView;

    open spec fn view(&self) -> ReadView {
        match self {
            ReadOutcome::Missing => ReadView::Missing,
            ReadOutcome::Unreadable => ReadView::Unreadable,
            ReadOutcome::Content(c) => ReadView::Content(c@),
        }
    }
}

/// The fixed sample report used whenever no real analysis is possible: two
/// sample categories, one sample merchant, a fixed monthly total, a zero
/// transaction count, and insights naming the file, the triggering reason,
/// and the data's illustrative nature.
pub open spec fn spec_fallback(path: Seq<char>, reason: Option<Seq<char>>) -> AnalysisResultView {
    AnalysisResultView {
        spending_categories: seq![
            CategoryTotalView { category: "Food & Dining"@, total_cents: 25050, percentage_tenths: 352 },
            CategoryTotalView {
                category: "Gas & Transportation"@,
                total_cents: 18025,
                percentage_tenths: 253,
            },
        ],
        top_merchants: seq![
            MerchantTotalView { merchant: "Sample Data"@, total_cents: 8550, count: 12 },
        ],
        monthly_total_cents: 71245,
        insights: ({
            let base = seq!["File: "@ + filename_of(path)];
            let with_reason = match reason {
                Option::Some(r) => base.push(r),
                Option::None => base,
            };
            with_reason.push("Showing sample data for demonstration"@).push(
                "Upload a CSV with Date, Description, Amount columns for real analysis"@,
            )
        }),
        transaction_count: 0,
    }
}

/// Builds the fixed sample report, annotated with the triggering reason.
pub fn create_mock_analysis(file_path: &str, additional_insight: Option<&str>) -> (r:
    AnalysisResult)
    ensures
        r@ == spec_fallback(
            file_path@,
            match additional_insight {
                Option::Some(s) => Option::Some(s@),
                Option::None => Option::None,
            },
        ),
{
    let mut spending_categories: Vec<CategoryTotal> = Vec::new();
    spending_categories.push(
        CategoryTotal {
            category: "Food & Dining".to_owned(),
            total_cents: 25050,
            percentage_tenths: 352,
        },
    );
    spending_categories.push(
        CategoryTotal {
            category: "Gas & Transportation".to_owned(),
            total_cents: 18025,
            percentage_tenths: 253,
        },
    );
    let mut top_merchants: Vec<MerchantTotal> = Vec::new();
    top_merchants.push(
        MerchantTotal { merchant: "Sample Data".to_owned(), total_cents: 8550, count: 12 },
    );
    let mut insights: Vec<String> = Vec::new();
    let mut first: Vec<char> = Vec::new();
    crate::text::push_str_chars(&mut first, "File: ");
    let path_chars = crate::text::str_to_chars(file_path);
    let fname = crate::text::filename_chars(&path_chars);
    crate::text::push_all(&mut first, &fname);
    insights.push(crate::text::chars_to_string(&first));
    match additional_insight {
        Option::Some(s) => {
            let ghost before = insights.deep_view();
            insights.push(s.to_owned());
            proof {
                assert(insights.deep_view() =~~= before.push(s@));
            }
        },
        Option::None => {},
    }
    insights.push("Showing sample data for demonstration".to_owned());
    insights.push("Upload a CSV with Date, Description, Amount columns for real analysis".to_owned());
    let r = AnalysisResult {
        spending_categories,
        top_merchants,
        monthly_total_cents: 71245,
        insights,
        transaction_count: 0,
    };
    proof {
        let expected = spec_fallback(
            file_path@,
            match additional_insight {
                Option::Some(s) => Option::Some(s@),
                Option::None => Option::None,
            },
        );
        assert(r@.spending_categories =~= expected.spending_categories);
        assert(r@.top_merchants =~= expected.top_merchants);
        assert(r@.insights =~~= expected.insights);
    }
    r
}

/// The transactions with their categories attached, everything else kept.
pub open spec fn spec_categorize_txs(txs: Seq<TransactionView>) -> Seq<TransactionView> {
    Seq::new(
        txs.len(),
        |i: int|
            TransactionView {
                date: txs[i].date,
                description: txs[i].description,
                amount_cents: txs[i].amount_cents,
                category: Option::Some(spec_category_name(txs[i].description)),
            },
    )
}

/// Attaches a category to every transaction.
pub fn categorize_transactions(transactions: &Vec<Transaction>) -> (r: Vec<Transaction>)
    ensures
        txs_view(r@) == spec_categorize_txs(txs_view(transactions@)),
{
    let ghost tv = txs_view(transactions@);
    let n = transactions.len();
    let mut out: Vec<Transaction> = Vec::new();
    let mut i: usize = 0;
    while i < n
        invariant
            i <= n,
            n == transactions@.len(),
            tv == txs_view(transactions@),
            txs_view(out@) =~= spec_categorize_txs(tv).take(i as int),
        decreases n - i,
    {
        proof {
            assert(tv[i as int] == transactions@[i as int]@);
        }
        let tx = Transaction {
            date: transactions[i].date.clone(),
            description: transactions[i].description.clone(),
            amount_cents: transactions[i].amount_cents,
            category: Option::Some(categorize_description(transactions[i].description.as_str())),
        };
        let ghost old_out = txs_view(out@);
        let ghost txv = tx@;
        out.push(tx);
        proof {
            assert(txs_view(out@) =~= old_out.push(txv));
            assert(txv == spec_categorize_txs(tv)[i as int]);
            assert(txs_view(out@) =~= spec_categorize_txs(tv).take(i + 1));
        }
        i = i + 1;
    }
    proof {
        assert(spec_categorize_txs(tv).take(n as int) =~= spec_categorize_txs(tv));
    }
    out
}

/// The real report for parsed transactions: categorized totals, merchant
/// totals, the monthly sum, and the insight list.
pub open spec fn spec_analyze_transactions(
    txs: Seq<TransactionView>,
    path: Seq<char>,
) -> AnalysisResultView {
    let total = sum_amounts(txs);
    let cats = spec_calculate_categories(spec_categorize_txs(txs), total);
    AnalysisResultView {
        spending_categories: cats,
        top_merchants: spec_top_merchants(txs),
        monthly_total_cents: total,
        insights: spec_insights(txs, cats, path),
        transaction_count: txs.len() as int,
    }
}

/// Amount sums agree across the categorizing step, which keeps amounts.
pub proof fn lemma_sum_amounts_categorized(txs: Seq<TransactionView>)
    ensures
        sum_amounts(spec_categorize_txs(txs)) == sum_amounts(txs),
    decreases txs.len(),
{
    if txs.len() > 0 {
        lemma_sum_amounts_categorized(txs.drop_last());
        assert(spec_categorize_txs(txs).drop_last() =~= spec_categorize_txs(txs.drop_last()));
        assert(spec_categorize_txs(txs).last().amount_cents == txs.last().amount_cents);
    }
}

/// Runs the analysis pipeline over genuinely parsed transactions.
pub fn analyze_transactions(transactions: Vec<Transaction>, file_path: &str) -> (r: AnalysisResult)
    requires
        transactions@.len() >= 1,
        forall|i: int|
            0 <= i < transactions@.len() ==> 1 <= (#[trigger] transactions@[i])@.amount_cents
                <= MAX_CENTS as int,
    ensures
        r@ == spec_analyze_transactions(txs_view(transactions@), file_path@),
{
    let ghost tv = txs_view(transactions@);
    let n = transactions.len();
    let mut total: u128 = 0;
    let mut i: usize = 0;
    while i < n
        invariant
            i <= n,
            n == transactions@.len(),
            tv == txs_view(transactions@),
            forall|k: int|
                0 <= k < transactions@.len() ==> 1 <= (#[trigger] transactions@[k])@.amount_cents
                    <= MAX_CENTS as int,
            total as int == sum_amounts(tv.take(i as int)),
            total as int <= i as int * MAX_CENTS as int,
            i >= 1 ==> total >= 1,
        decreases n - i,
    {
        proof {
            assert(tv.take(i + 1).drop_last() =~= tv.take(i as int));
            assert(tv.take(i + 1).last() == tv[i as int]);
            assert(tv[i as int] == transactions@[i as int]@);
            assert((i as int + 1) * MAX_CENTS as int <= 0x1_0000_0000_0000_0000int
                * MAX_CENTS as int) by {
                lemma_mul_inequality(i as int + 1, 0x1_0000_0000_0000_0000int, MAX_CENTS as int);
            }
        }
        total = total + transactions[i].amount_cents as u128;
        i = i + 1;
    }
    proof {
        assert(tv.take(n as int) =~= tv);
        assert(n as int * MAX_CENTS as int <= 0x1_0000_0000_0000_0000int * MAX_CENTS as int) by {
            lemma_mul_inequality(n as int, 0x1_0000_0000_0000_0000int, MAX_CENTS as int);
        }
        assert(total <= MAX_MONTHLY_CENTS);
    }
    let categorized = categorize_transactions(&transactions);
    proof {
        lemma_sum_amounts_categorized(tv);
        assert(forall|k: int|
            0 <= k < categorized@.len() ==> (#[trigger] txs_view(categorized@)[k])
                == spec_categorize_txs(tv)[k]);
        assert(forall|k: int|
            0 <= k < categorized@.len() ==> (#[trigger] categorized@[k])@ == spec_categorize_txs(
                tv,
            )[k]);
    }
    let categories = calculate_categories(&categorized, total);
    let merchants = find_top_merchants(&transactions);
    let insights = generate_insights(&transactions, &categories, file_path);
    let count = transactions.len();
    let r = AnalysisResult {
        spending_categories: categories,
        top_merchants: merchants,
        monthly_total_cents: total,
        insights,
        transaction_count: count,
    };
    proof {
        let expected = spec_analyze_transactions(tv, file_path@);
        assert(r@.spending_categories =~= expected.spending_categories);
        assert(r@.top_merchants =~= expected.top_merchants);
        assert(r@.insights =~~= expected.insights);
    }
    r
}

/// The report for a path and a read outcome, when the file was found: the
/// parsed transactions analyzed, or the sample report with the reason that
/// parsing failed or found nothing.
pub open spec fn spec_analyze(path: Seq<char>, read: ReadView) -> AnalysisResultView {
    match read {
        ReadView::Missing => spec_fallback(path, Option::None),
        ReadView::Unreadable => spec_fallback(
            path,
            Option::Some("Could not parse file - showing sample data"@),
        ),
        ReadView::Content(c) => match spec_parse_file(path, c) {
            Option::None => spec_fallback(
                path,
                Option::Some("Could not parse file - showing sample data"@),
            ),
            Option::Some(txs) => if txs.len() == 0 {
                spec_fallback(path, Option::Some("No transactions found in file"@))
            } else {
                spec_analyze_transactions(txs, path)
            },
        },
    }
}

/// The boundary operation: a missing file is the one hard error; every other
/// outcome yields a complete report, real or fallback.
pub fn analyze_statement(file_path: &str, read: ReadOutcome) -> (r: Result<AnalysisResult, String>)
    ensures
        r is Err <==> read@ is Missing,
        r is Err ==> r->Err_0@ == "File not found"@,
        r is Ok ==> r->Ok_0@ == spec_analyze(file_path@, read@),
{
    match read {
        ReadOutcome::Missing => Result::Err("File not found".to_owned()),
        ReadOutcome::Unreadable => Result::Ok(
            create_mock_analysis(
                file_path,
                Option::Some("Could not parse file - showing sample data"),
            ),
        ),
        ReadOutcome::Content(content) => {
            match parse_file(file_path, content.as_str()) {
                Result::Err(_) => Result::Ok(
                    create_mock_analysis(
                        file_path,
                        Option::Some("Could not parse file - showing sample data"),
                    ),
                ),
                Result::Ok(transactions) => {
                    if transactions.len() == 0 {
                        Result::Ok(
                            create_mock_analysis(
                                file_path,
                                Option::Some("No transactions found in file"),
                            ),
                        )
                    } else {
                        proof {
                            lemma_parse_rows_amounts(data_rows(content@));
                            assert(forall|k: int|
                                0 <= k < transactions@.len() ==> (#[trigger] transactions@[k])@
                                    == txs_view(transactions@)[k]);
                        }
                        Result::Ok(analyze_transactions(transactions, file_path))
                    }
                },
            }
        },
    }
}

/// The analysis is a function of the path and the read outcome alone: two
/// runs over the same unchanged inputs yield identical reports.
pub proof fn lemma_analyze_deterministic(
    path: Seq<char>,
    read: ReadView,
    r1: AnalysisResultView,
    r2: AnalysisResultView,
)
    requires
        r1 == spec_analyze(path, read),
        r2 == spec_analyze(path, read),
    ensures
        r1 == r2,
{
}

} // verus!
