//! The amount normalizer: strips currency decoration from a raw token,
//! converts accounting-style parentheses to a leading minus, and parses the
//! residue as a signed base-10 decimal, exact in cents.
use vstd::prelude::*;

use crate::model::{ParseError, MAX_CENTS};

verus! {

/// What one character contributes after decoration stripping: `$`, `,` and
/// `)` vanish, `(` becomes `-`, everything else is kept.
pub open spec fn clean_char(c: char) -> Seq<char> {
    if c == '$' || c == ',' || c == ')' {
        Seq::<char>::empty()
    } else if c == '(' {
        seq!['-']
    } else {
        seq![c]
    }
}

/// The token with currency decoration stripped, characterwise.
pub open spec fn clean_seq(s: Seq<char>) -> Seq<char>
    decreases s.len(),
{
    if s.len() == 0 {
        Seq::<char>::empty()
    } else {
        clean_seq(s.drop_last()) + clean_char(s.last())
    }
}

pub fn clean_chars(s: &Vec<char>) -> (r: Vec<char>)
    ensures
        r@ == clean_seq(s@),
{
    let n = s.len();
    let mut r: Vec<char> = Vec::new();
    let mut i: usize = 0;
    while i < n
        invariant
            i <= n,
            n == s@.len(),
            r@ =~= clean_seq(s@.take(i as int)),
        decreases n - i,
    {
        proof {
            assert(s@.take(i + 1).drop_last() =~= s@.take(i as int));
            assert(s@.take(i + 1).last() == s@[i as int]);
        }
        let c = s[i];
        if c == '$' || c == ',' || c == ')' {
        } else if c == '(' {
            r.push('-');
        } else {
            r.push(c);
        }
        proof {
            assert(r@ =~= clean_seq(s@.take(i + 1)));
        }
        i = i + 1;
    }
    proof {
        assert(s@.take(n as int) =~= s@);
    }
    r
}

pub open spec fn is_digit(c: char) -> bool {
    c == '0' || c == '1' || c == '2' || c == '3' || c == '4' || c == '5' || c == '6' || c == '7'
        || c == '8' || c == '9'
}

pub open spec fn digit_val(c: char) -> int {
    match c {
        '0' => 0, '1' => 1, '2' => 2, '3' => 3, '4' => 4,
        '5' => 5, '6' => 6, '7' => 7, '8' => 8,
        _ => 9,
    }
}

pub open spec fn all_digits(s: Seq<char>) -> bool {
    forall|i: int| 0 <= i < s.len() ==> is_digit(s[i])
}

/// The value of a digit string read in base 10 (0 for the empty string).
pub open spec fn digits_val(s: Seq<char>) -> int
    decreases s.len(),
{
    if s.len() == 0 {
        0
    } else {
        digits_val(s.drop_last()) * 10 + digit_val(s.last())
    }
}

pub proof fn lemma_digits_val_nonneg(s: Seq<char>)
    ensures
        digits_val(s) >= 0,
    decreases s.len(),
{
    if s.len() > 0 {
        lemma_digits_val_nonneg(s.drop_last());
    }
}

pub proof fn lemma_digits_val_prefix(s: Seq<char>, i: int)
    requires
        0 <= i <= s.len(),
    ensures
        digits_val(s.take(i)) <= digits_val(s),
    decreases s.len(),
{
    lemma_digits_val_nonneg(s.take(i));
    if i < s.len() {
        assert(s.drop_last().take(i) =~= s.take(i));
        lemma_digits_val_prefix(s.drop_last(), i);
        lemma_digits_val_nonneg(s.drop_last());
    } else {
        assert(s.take(i) =~= s);
    }
}

/// The cents contributed by a fraction part: the first two digits weigh ten
/// and one, further digits are beyond cent resolution and are dropped.
pub open spec fn frac_cents(f: Seq<char>) -> int {
    if f.len() == 0 {
        0
    } else if f.len() == 1 {
        digit_val(f[0]) * 10
    } else {
        digit_val(f[0]) * 10 + digit_val(f[1])
    }
}

/// The signed cents value of a normalized token, or `None` when non-numeric
/// residue remains. The token (after stripping and trimming) must be an
/// optional sign, then digits with at most one decimal point and at least one
/// digit overall.
pub open spec fn amount_of(token: Seq<char>) -> Option<int> {
    let t = crate::text::trim_ws(clean_seq(token));
    let neg = t.len() > 0 && t[0] == '-';
    let mag = if t.len() > 0 && (t[0] == '-' || t[0] == '+') {
        t.drop_first()
    } else {
        t
    };
    let parts = crate::text::split_on(mag, '.');
    if (parts.len() == 1 || parts.len() == 2) && all_digits(parts[0]) && (parts.len() == 1
        || all_digits(parts[1])) && mag.len() >= 1 && mag.len() > (parts.len() - 1) {
        let cents = digits_val(parts[0]) * 100 + if parts.len() == 2 {
            frac_cents(parts[1])
        } else {
            0
        };
        if neg {
            Option::Some(-cents)
        } else {
            Option::Some(cents)
        }
    } else {
        Option::None
    }
}

/// The amount normalizer's result: the exact cents value when the token is a
/// well-formed decimal of magnitude at most `MAX_CENTS`, `None` otherwise.
pub open spec fn spec_parse_amount(token: Seq<char>) -> Option<int> {
    match amount_of(token) {
        Option::None => Option::None,
        Option::Some(v) => if -(MAX_CENTS as int) <= v <= MAX_CENTS as int {
            Option::Some(v)
        } else {
            Option::None
        },
    }
}

/// Largest integer (dollar) part the parser accepts: `MAX_CENTS` over the
/// hundred cents of one unit.
pub const CAP_INT: u64 = 10_000_000_000_000;

pub fn is_digit_exec(c: char) -> (r: bool)
    ensures
        r == is_digit(c),
{
    c == '0' || c == '1' || c == '2' || c == '3' || c == '4' || c == '5' || c == '6' || c == '7'
        || c == '8' || c == '9'
}

pub fn digit_val_exec(c: char) -> (r: u64)
    ensures
        r as int == digit_val(c),
        r <= 9,
{
    match c {
        '0' => 0, '1' => 1, '2' => 2, '3' => 3, '4' => 4,
        '5' => 5, '6' => 6, '7' => 7, '8' => 8,
        _ => 9,
    }
}

pub fn all_digits_exec(v: &Vec<char>) -> (r: bool)
    ensures
        r == all_digits(v@),
{
    let n = v.len();
    let mut i: usize = 0;
    while i < n
        invariant
            i <= n,
            n == v@.len(),
            forall|j: int| 0 <= j < i ==> is_digit(v@[j]),
        decreases n - i,
    {
        if !is_digit_exec(v[i]) {
            return false;
        }
        i = i + 1;
    }
    true
}

/// The base-10 value of a digit string, or `None` when it exceeds `CAP_INT`.
fn int_value_capped(v: &Vec<char>) -> (r: Option<u64>)
    requires
        all_digits(v@),
    ensures
        r is Some <==> digits_val(v@) <= CAP_INT as int,
        r is Some ==> r->Some_0 as int == digits_val(v@),
{
    let n = v.len();
    let mut acc: u64 = 0;
    let mut i: usize = 0;
    while i < n
        invariant
            i <= n,
            n == v@.len(),
            all_digits(v@),
            acc as int == digits_val(v@.take(i as int)),
            acc <= CAP_INT,
        decreases n - i,
    {
        proof {
            assert(v@.take(i + 1).drop_last() =~= v@.take(i as int));
            assert(v@.take(i + 1).last() == v@[i as int]);
        }
        let d = digit_val_exec(v[i]);
        let nv = acc * 10 + d;
        if nv > CAP_INT {
            proof {
                lemma_digits_val_prefix(v@, i + 1);
            }
            return Option::None;
        }
        acc = nv;
        i = i + 1;
    }
    proof {
        assert(v@.take(n as int) =~= v@);
    }
    Option::Some(acc)
}

fn frac_value(f: &Vec<char>) -> (r: u64)
    requires
        all_digits(f@),
    ensures
        r as int == frac_cents(f@),
        r <= 99,
{
    if f.len() == 0 {
        0
    } else if f.len() == 1 {
        digit_val_exec(f[0]) * 10
    } else {
        digit_val_exec(f[0]) * 10 + digit_val_exec(f[1])
    }
}

/// Normalizes one raw amount token to signed cents: `$` and `,` are stripped,
/// `(`/`)` mark a negative, surrounding whitespace is trimmed, and the rest
/// must be a base-10 decimal of magnitude at most `MAX_CENTS`.
pub fn parse_amount(token: &str) -> (r: Result<i64, ParseError>)
    ensures
        r is Ok <==> spec_parse_amount(token@) is Some,
        r is Ok ==> r->Ok_0 as int == spec_parse_amount(token@)->Some_0,
        r is Err ==> r->Err_0 == ParseError::NumberFormat,
{
    let chars = crate::text::str_to_chars(token);
    parse_amount_chars(&chars)
}

/// `parse_amount` on an already decoded character vector.
pub fn parse_amount_chars(chars: &Vec<char>) -> (r: Result<i64, ParseError>)
    ensures
        r is Ok <==> spec_parse_amount(chars@) is Some,
        r is Ok ==> r->Ok_0 as int == spec_parse_amount(chars@)->Some_0,
        r is Err ==> r->Err_0 == ParseError::NumberFormat,
{
    let cleaned = clean_chars(chars);
    let t = crate::text::trim_chars(&cleaned);
    let ghost tg = t@;
    let neg: bool;
    let mut mag: Vec<char> = t;
    if mag.len() > 0 && (mag[0] == '-' || mag[0] == '+') {
        neg = mag[0] == '-';
        mag.remove(0);
        proof {
            assert(mag@ =~= tg.drop_first());
        }
    } else {
        neg = false;
    }
    let ghost magg = mag@;
    let parts = crate::text::split_chars(&mag, '.');
    proof {
        crate::text::lemma_split_on_nonempty(magg, '.');
        assert(parts.deep_view() == crate::text::split_on(magg, '.'));
        assert(parts@.len() == parts.deep_view().len());
        assert(parts.deep_view()[0] == parts@[0]@);
    }
    if !(parts.len() == 1 || parts.len() == 2) {
        return Result::Err(ParseError::NumberFormat);
    }
    if mag.len() < 1 || mag.len() <= parts.len() - 1 {
        return Result::Err(ParseError::NumberFormat);
    }
    if !all_digits_exec(&parts[0]) {
        return Result::Err(ParseError::NumberFormat);
    }
    if parts.len() == 2 {
        proof {
            assert(parts.deep_view()[1] == parts@[1]@);
        }
        if !all_digits_exec(&parts[1]) {
            return Result::Err(ParseError::NumberFormat);
        }
    }
    let iv = match int_value_capped(&parts[0]) {
        Option::Some(iv) => iv,
        Option::None => {
            proof {
                lemma_digits_val_nonneg(parts@[0]@);
                if parts.deep_view().len() == 2 {
                    assert(frac_cents(parts.deep_view()[1]) >= 0);
                }
            }
            return Result::Err(ParseError::NumberFormat);
        },
    };
    let fv = if parts.len() == 2 {
        frac_value(&parts[1])
    } else {
        0
    };
    let total = iv * 100 + fv;
    proof {
        lemma_digits_val_nonneg(parts@[0]@);
    }
    if total > MAX_CENTS {
        return Result::Err(ParseError::NumberFormat);
    }
    if neg {
        Result::Ok(-(total as i64))
    } else {
        Result::Ok(total as i64)
    }
}

} // verus!
