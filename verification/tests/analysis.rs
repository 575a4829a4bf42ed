use spending_analyzer::aggregate::{calculate_categories, extract_merchant_name, find_top_merchants};
use spending_analyzer::amount::parse_amount;
use spending_analyzer::category::categorize_description;
use spending_analyzer::model::{ParseError, Transaction};
use spending_analyzer::parse::{parse_csv, parse_file};
use spending_analyzer::report::{analyze_statement, analyze_transactions, ReadOutcome};

fn tx(date: &str, desc: &str, cents: u64) -> Transaction {
    Transaction {
        date: date.to_string(),
        description: desc.to_string(),
        amount_cents: cents,
        category: None,
    }
}

#[test]
fn amount_strips_currency_and_grouping() {
    assert_eq!(parse_amount("$1,234.56"), Ok(123456));
}

#[test]
fn amount_parenthesized_is_negative() {
    assert_eq!(parse_amount("(12.00)"), Ok(-1200));
}

#[test]
fn amount_trims_whitespace() {
    assert_eq!(parse_amount("  42 "), Ok(4200));
}

#[test]
fn amount_rejects_non_numeric() {
    assert_eq!(parse_amount("abc"), Err(ParseError::NumberFormat));
}

#[test]
fn amount_more_shapes() {
    assert_eq!(parse_amount("0.5"), Ok(50));
    assert_eq!(parse_amount(".5"), Ok(50));
    assert_eq!(parse_amount("7."), Ok(700));
    assert_eq!(parse_amount("-3.25"), Ok(-325));
    assert_eq!(parse_amount("+3.25"), Ok(325));
    assert_eq!(parse_amount(""), Err(ParseError::NumberFormat));
    assert_eq!(parse_amount("."), Err(ParseError::NumberFormat));
    assert_eq!(parse_amount("1 2"), Err(ParseError::NumberFormat));
    assert_eq!(parse_amount("12-3"), Err(ParseError::NumberFormat));
}

#[test]
fn csv_two_rows_parse_and_categorize() {
    let content = "Date,Description,Amount\n2024-01-01,Starbucks Coffee,$4.50\n2024-01-02,AMAZON.COM,($25.00)";
    let txs = parse_csv(content).unwrap();
    assert_eq!(txs.len(), 2);
    assert_eq!(txs[0].date, "2024-01-01");
    assert_eq!(txs[0].description, "Starbucks Coffee");
    assert_eq!(txs[0].amount_cents, 450);
    assert_eq!(txs[1].amount_cents, 2500);
    assert_eq!(categorize_description(&txs[0].description), "Food & Dining");
    assert_eq!(categorize_description(&txs[1].description), "Shopping");
}

#[test]
fn csv_drops_zero_short_and_headerish_rows() {
    let content = "Date,Description,Amount\n\
        2024-01-01,Zero Thing,0.00\n\
        2024-01-02,OnlyTwoFields\n\
        2024-01-03,Transaction Fee,5.00\n\
        2024-01-04,Groceries,12.00";
    let txs = parse_csv(content).unwrap();
    assert_eq!(txs.len(), 1);
    assert_eq!(txs[0].description, "Groceries");
    assert_eq!(txs[0].amount_cents, 1200);
}

#[test]
fn csv_bad_amount_aborts_whole_file() {
    let content = "Date,Description,Amount\n2024-01-01,Fine Row,5.00\n2024-01-02,Bad Row,abc";
    assert_eq!(parse_csv(content), Err(ParseError::NumberFormat));
}

#[test]
fn csv_handles_crlf_lines() {
    let content = "Date,Description,Amount\r\n2024-01-01,Starbucks Coffee,$4.50\r\n";
    let txs = parse_csv(content).unwrap();
    assert_eq!(txs.len(), 1);
    assert_eq!(txs[0].description, "Starbucks Coffee");
}

#[test]
fn non_csv_extension_is_unsupported() {
    assert_eq!(
        parse_file("statement.pdf", "anything"),
        Err(ParseError::UnsupportedFormat)
    );
    assert_eq!(
        parse_file("statement.txt", "anything"),
        Err(ParseError::UnsupportedFormat)
    );
}

#[test]
fn category_first_match_precedence() {
    assert_eq!(categorize_description("Pizza Store Downtown"), "Food & Dining");
}

#[test]
fn category_all_six_buckets() {
    assert_eq!(categorize_description("Neighborhood Restaurant"), "Food & Dining");
    assert_eq!(categorize_description("SHELL OIL 1234"), "Gas & Transportation");
    assert_eq!(categorize_description("Walmart Supercenter"), "Shopping");
    assert_eq!(categorize_description("Netflix.com"), "Entertainment");
    assert_eq!(categorize_description("CVS Pharmacy"), "Healthcare");
    assert_eq!(categorize_description("Mystery Vendor"), "Other");
}

#[test]
fn merchant_key_first_two_tokens_uppercased() {
    assert_eq!(extract_merchant_name("Starbucks Coffee #123"), "STARBUCKS COFFEE");
    assert_eq!(extract_merchant_name("uber"), "UBER");
    assert_eq!(extract_merchant_name("  two   spaced words "), "TWO SPACED");
    assert_eq!(extract_merchant_name(""), "");
}

#[test]
fn category_totals_group_sum_and_sort() {
    let mut txs = vec![
        tx("d", "Starbucks Coffee", 450),
        tx("d", "AMAZON.COM", 2500),
        tx("d", "Pizza Palace", 1550),
    ];
    for t in txs.iter_mut() {
        t.category = Some(categorize_description(&t.description));
    }
    let txs: Vec<Transaction> = txs;
    let total: u128 = 450 + 2500 + 1550;
    let cats = calculate_categories(&txs, total);
    assert_eq!(cats.len(), 2);
    assert_eq!(cats[0].category, "Shopping");
    assert_eq!(cats[0].total_cents, 2500);
    assert_eq!(cats[1].category, "Food & Dining");
    assert_eq!(cats[1].total_cents, 2000);
    // 2500/4500 = 55.5..%, 2000/4500 = 44.4..%
    assert_eq!(cats[0].percentage_tenths, 555);
    assert_eq!(cats[1].percentage_tenths, 444);
    let pct_sum: u64 = cats.iter().map(|c| c.percentage_tenths).sum();
    assert!(pct_sum <= 1000 && pct_sum >= 1000 - cats.len() as u64);
}

#[test]
fn top_merchants_capped_at_five_sorted_descending() {
    let txs = vec![
        tx("d", "AA One", 100),
        tx("d", "BB Two", 700),
        tx("d", "CC Three", 300),
        tx("d", "DD Four", 600),
        tx("d", "EE Five", 200),
        tx("d", "FF Six", 500),
        tx("d", "GG Seven", 400),
    ];
    let merchants = find_top_merchants(&txs);
    assert_eq!(merchants.len(), 5);
    for w in merchants.windows(2) {
        assert!(w[0].total_cents >= w[1].total_cents);
    }
    assert_eq!(merchants[0].merchant, "BB TWO");
    assert_eq!(merchants[0].total_cents, 700);
    assert_eq!(merchants[4].total_cents, 300);
}

#[test]
fn merchants_group_by_key_with_counts() {
    let txs = vec![
        tx("d", "Starbucks Coffee #1", 300),
        tx("d", "Starbucks Coffee #2", 500),
        tx("d", "Corner Cafe", 250),
    ];
    let merchants = find_top_merchants(&txs);
    assert_eq!(merchants.len(), 2);
    assert_eq!(merchants[0].merchant, "STARBUCKS COFFEE");
    assert_eq!(merchants[0].total_cents, 800);
    assert_eq!(merchants[0].count, 2);
    assert_eq!(merchants[1].merchant, "CORNER CAFE");
    assert_eq!(merchants[1].count, 1);
}

#[test]
fn missing_file_is_the_only_hard_error() {
    let r = analyze_statement("no/such/file.csv", ReadOutcome::Missing);
    assert_eq!(r.unwrap_err(), "File not found");
}

#[test]
fn pdf_path_falls_back_with_parse_insight() {
    let r = analyze_statement(
        "docs/statement.pdf",
        ReadOutcome::Content("Date,Description,Amount\n2024-01-01,Starbucks Coffee,$4.50".to_string()),
    )
    .unwrap();
    assert_eq!(r.transaction_count, 0);
    assert!(r
        .insights
        .iter()
        .any(|i| i == "Could not parse file - showing sample data"));
    assert!(r.insights.iter().any(|i| i == "File: statement.pdf"));
}

#[test]
fn header_only_csv_falls_back_citing_no_transactions() {
    let r = analyze_statement(
        "data.csv",
        ReadOutcome::Content("Date,Description,Amount".to_string()),
    )
    .unwrap();
    assert_eq!(r.transaction_count, 0);
    assert!(r.insights.iter().any(|i| i == "No transactions found in file"));
}

#[test]
fn unreadable_file_falls_back() {
    let r = analyze_statement("data.csv", ReadOutcome::Unreadable).unwrap();
    assert_eq!(r.transaction_count, 0);
    assert!(r
        .insights
        .iter()
        .any(|i| i == "Could not parse file - showing sample data"));
}

#[test]
fn fallback_report_fixed_sample_values() {
    let r = analyze_statement("x.csv", ReadOutcome::Unreadable).unwrap();
    assert_eq!(r.spending_categories.len(), 2);
    assert_eq!(r.spending_categories[0].category, "Food & Dining");
    assert_eq!(r.spending_categories[0].total_cents, 25050);
    assert_eq!(r.spending_categories[0].percentage_tenths, 352);
    assert_eq!(r.spending_categories[1].category, "Gas & Transportation");
    assert_eq!(r.spending_categories[1].total_cents, 18025);
    assert_eq!(r.spending_categories[1].percentage_tenths, 253);
    assert_eq!(r.top_merchants.len(), 1);
    assert_eq!(r.top_merchants[0].merchant, "Sample Data");
    assert_eq!(r.top_merchants[0].total_cents, 8550);
    assert_eq!(r.top_merchants[0].count, 12);
    assert_eq!(r.monthly_total_cents, 71245);
    assert!(r.insights.iter().any(|i| i == "Showing sample data for demonstration"));
    assert!(r
        .insights
        .iter()
        .any(|i| i == "Upload a CSV with Date, Description, Amount columns for real analysis"));
}

#[test]
fn real_analysis_end_to_end() {
    let content = "Date,Description,Amount\n\
        2024-01-01,Starbucks Coffee,$4.50\n\
        2024-01-02,AMAZON.COM,($25.00)";
    let r = analyze_statement("bank/statement.csv", ReadOutcome::Content(content.to_string()))
        .unwrap();
    assert_eq!(r.transaction_count, 2);
    assert_eq!(r.monthly_total_cents, 2950);
    assert_eq!(r.spending_categories.len(), 2);
    assert_eq!(r.spending_categories[0].category, "Shopping");
    assert_eq!(r.spending_categories[0].total_cents, 2500);
    assert_eq!(r.spending_categories[1].category, "Food & Dining");
    assert_eq!(r.spending_categories[1].total_cents, 450);
    assert_eq!(
        r.insights[0],
        "Successfully analyzed 2 transactions from statement.csv"
    );
    assert_eq!(
        r.insights[1],
        "Your largest spending category is Shopping at 84.7% of total spending"
    );
    assert_eq!(
        r.insights.last().unwrap(),
        "Consider setting up spending alerts for your top categories"
    );
}

#[test]
fn small_transaction_insight_appears_past_five() {
    let mut rows = String::from("Date,Description,Amount\n");
    for i in 0..6 {
        rows.push_str(&format!("2024-01-0{},Snack Shop,4.50\n", i + 1));
    }
    let r = analyze_statement("s.csv", ReadOutcome::Content(rows)).unwrap();
    assert!(r
        .insights
        .iter()
        .any(|i| i == "You have 6 small transactions (under $10) totaling $27.00"));
}

#[test]
fn analyze_is_deterministic() {
    let content = "Date,Description,Amount\n\
        2024-01-01,Starbucks Coffee,$4.50\n\
        2024-01-02,AMAZON.COM,($25.00)\n\
        2024-01-03,Shell Gas,30.00";
    let r1 = analyze_statement("a/b.csv", ReadOutcome::Content(content.to_string())).unwrap();
    let r2 = analyze_statement("a/b.csv", ReadOutcome::Content(content.to_string())).unwrap();
    assert_eq!(r1, r2);
}

#[test]
fn analyze_transactions_assembles_report() {
    let txs = vec![tx("2024-01-01", "Corner Cafe", 900), tx("2024-01-02", "Shell Gas", 3000)];
    let r = analyze_transactions(txs, "m.csv");
    assert_eq!(r.transaction_count, 2);
    assert_eq!(r.monthly_total_cents, 3900);
    assert_eq!(r.spending_categories[0].category, "Gas & Transportation");
    assert_eq!(r.top_merchants.len(), 2);
}
