//! The categorizer: maps a free-text description to one of six fixed
//! spending categories through ordered keyword rules, first match winning.
use vstd::prelude::*;

use crate::text::{contains_chars, contains_seq, lower_chars, lower_seq, str_to_chars};

verus! {

/// Food & Dining keywords, tested against the case-folded description.
pub open spec fn matches_food(low: Seq<char>) -> bool {
    contains_seq(low, "restaurant"@) || contains_seq(low, "food"@) || contains_seq(
        low,
        "starbucks"@,
    ) || contains_seq(low, "mcdonald"@) || contains_seq(low, "pizza"@) || contains_seq(
        low,
        "cafe"@,
    )
}

/// Gas & Transportation keywords.
pub open spec fn matches_gas(low: Seq<char>) -> bool {
    contains_seq(low, "gas"@) || contains_seq(low, "fuel"@) || contains_seq(low, "shell"@)
        || contains_seq(low, "chevron"@) || contains_seq(low, "exxon"@) || contains_seq(
        low,
        "uber"@,
    ) || contains_seq(low, "lyft"@)
}

/// Shopping keywords.
pub open spec fn matches_shopping(low: Seq<char>) -> bool {
    contains_seq(low, "amazon"@) || contains_seq(low, "target"@) || contains_seq(low, "walmart"@)
        || contains_seq(low, "store"@)
}

/// Entertainment keywords.
pub open spec fn matches_entertainment(low: Seq<char>) -> bool {
    contains_seq(low, "netflix"@) || contains_seq(low, "spotify"@) || contains_seq(low, "movie"@)
        || contains_seq(low, "entertainment"@)
}

/// Healthcare keywords.
pub open spec fn matches_healthcare(low: Seq<char>) -> bool {
    contains_seq(low, "pharmacy"@) || contains_seq(low, "medical"@) || contains_seq(
        low,
        "doctor"@,
    ) || contains_seq(low, "health"@)
}

/// The category name assigned to a description: the keyword rules are tested
/// in a fixed order against the ASCII-lower-cased description and the first
/// matching rule wins; `Other` is the default.
pub open spec fn spec_category_name(desc: Seq<char>) -> Seq<char> {
    let low = lower_seq(desc);
    if matches_food(low) {
        "Food & Dining"@
    } else if matches_gas(low) {
        "Gas & Transportation"@
    } else if matches_shopping(low) {
        "Shopping"@
    } else if matches_entertainment(low) {
        "Entertainment"@
    } else if matches_healthcare(low) {
        "Healthcare"@
    } else {
        "Other"@
    }
}

/// Maps one description to exactly one of the six categories. Total and
/// deterministic; order of the rules is part of the contract.
pub fn categorize_description(description: &str) -> (r: String)
    ensures
        r@ == spec_category_name(description@),
{
    let chars = str_to_chars(description);
    let low = lower_chars(&chars);
    let name: &str = if contains_chars(&low, "restaurant") || contains_chars(&low, "food")
        || contains_chars(&low, "starbucks") || contains_chars(&low, "mcdonald")
        || contains_chars(&low, "pizza") || contains_chars(&low, "cafe") {
        "Food & Dining"
    } else if contains_chars(&low, "gas") || contains_chars(&low, "fuel") || contains_chars(
        &low,
        "shell",
    ) || contains_chars(&low, "chevron") || contains_chars(&low, "exxon") || contains_chars(
        &low,
        "uber",
    ) || contains_chars(&low, "lyft") {
        "Gas & Transportation"
    } else if contains_chars(&low, "amazon") || contains_chars(&low, "target") || contains_chars(
        &low,
        "walmart",
    ) || contains_chars(&low, "store") {
        "Shopping"
    } else if contains_chars(&low, "netflix") || contains_chars(&low, "spotify")
        || contains_chars(&low, "movie") || contains_chars(&low, "entertainment") {
        "Entertainment"
    } else if contains_chars(&low, "pharmacy") || contains_chars(&low, "medical")
        || contains_chars(&low, "doctor") || contains_chars(&low, "health") {
        "Healthcare"
    } else {
        "Other"
    };
    name.to_owned()
}

} // verus!
