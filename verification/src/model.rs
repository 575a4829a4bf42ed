//! The data model: transactions, aggregate rows, the assembled report, and
//! the parse-error taxonomy. Monetary values are held as integer cents and
//! percentages as tenths of a percent, so every quantity is exact.
use vstd::prelude::*;

verus! {

/// Largest transaction magnitude accepted by the amount normalizer, in cents.
pub const MAX_CENTS: u64 = 1_000_000_000_000_000;

/// Why a file's rows could not be turned into transactions.
#[derive(Debug, Clone, Copy, PartialEq, Eq, Structural)]
pub enum ParseError {
    /// An amount token had non-numeric residue after normalization, or its
    /// magnitude exceeded `MAX_CENTS`.
    NumberFormat,
    /// The file's extension selects no supported parsing path.
    UnsupportedFormat,
}

/// One parsed statement line. The date is opaque text; the description keeps
/// its original casing; the amount is a non-negative magnitude in cents; the
/// category is attached by the categorizer and absent until then.
#[derive(Debug, Clone, PartialEq)]
pub struct Transaction {
    pub date: String,
    pub description: String,
    pub amount_cents: u64,
    pub category: Option<String>,
}

pub struct TransactionView {
    pub date: Seq<char>,
    pub description: Seq<char>,
    pub amount_cents: int,
    pub category: Option<Seq<char>>,
}

impl View for Transaction {
    type V = TransactionView;

    open spec fn view(&self) -> TransactionView {
        TransactionView {
            date: self.date@,
            description: self.description@,
            amount_cents: self.amount_cents as int,
            category: match self.category {
                Option::Some(c) => Option::Some(c@),
                Option::None => Option::None,
            },
        }
    }
}

/// One category's share of spending: summed total in cents and its share of
/// the overall total in tenths of a percent.
#[derive(Debug, Clone, PartialEq)]
pub struct CategoryTotal {
    pub category: String,
    pub total_cents: u128,
    pub percentage_tenths: u64,
}

pub struct CategoryTotalView {
    pub category: Seq<char>,
    pub total_cents: int,
    pub percentage_tenths: int,
}

impl View for CategoryTotal {
    type V = CategoryTotalView;

    open spec fn view(&self) -> CategoryTotalView {
        CategoryTotalView {
            category: self.category@,
            total_cents: self.total_cents as int,
            percentage_tenths: self.percentage_tenths as int,
        }
    }
}

/// One merchant's summed spending and number of occurrences.
#[derive(Debug, Clone, PartialEq)]
pub struct MerchantTotal {
    pub merchant: String,
    pub total_cents: u128,
    pub count: usize,
}

pub struct MerchantTotalView {
    pub merchant: Seq<char>,
    pub total_cents: int,
    pub count: int,
}

impl View for MerchantTotal {
    type V = MerchantTotalView;

    open spec fn view(&self) -> MerchantTotalView {
        MerchantTotalView {
            merchant: self.merchant@,
            total_cents: self.total_cents as int,
            count: self.count as int,
        }
    }
}

/// The complete report returned for one analysis call.
#[derive(Debug, Clone, PartialEq)]
pub struct AnalysisResult {
    pub spending_categories: Vec<CategoryTotal>,
    pub top_merchants: Vec<MerchantTotal>,
    pub monthly_total_cents: u128,
    pub insights: Vec<String>,
    pub transaction_count: usize,
}

pub struct AnalysisResultView {
    pub spending_categories: Seq<CategoryTotalView>,
    pub top_merchants: Seq<MerchantTotalView>,
    pub monthly_total_cents: int,
    pub insights: Seq<Seq<char>>,
    pub transaction_count: int,
}

impl View for AnalysisResult {
    type V = AnalysisResultView;

    open spec fn view(&self) -> AnalysisResultView {
        AnalysisResultView {
            spending_categories: Seq::new(
                self.spending_categories@.len(),
                |i: int| self.spending_categories@[i]@,
            ),
            top_merchants: Seq::new(self.top_merchants@.len(), |i: int| self.top_merchants@[i]@),
            monthly_total_cents: self.monthly_total_cents as int,
            insights: self.insights.deep_view(),
            transaction_count: self.transaction_count as int,
        }
    }
}

/// The sequence of transaction views behind a transaction vector.
pub open spec fn txs_view(txs: Seq<Transaction>) -> Seq<TransactionView> {
    Seq::new(txs.len(), |i: int| txs[i]@)
}

/// Sum of the transactions' amounts, in cents.
pub open spec fn sum_amounts(txs: Seq<TransactionView>) -> int
    decreases txs.len(),
{
    if txs.len() == 0 {
        0
    } else {
        sum_amounts(txs.drop_last()) + txs.last().amount_cents
    }
}

/// Largest monthly total the aggregator accepts; reachable sums stay below it
/// because a transaction vector holds fewer than two-to-the-sixty-fourth
/// entries of at most `MAX_CENTS` each.
pub const MAX_MONTHLY_CENTS: u128 = 0x1_0000_0000_0000_0000 * 1_000_000_000_000_000;

} // verus!
