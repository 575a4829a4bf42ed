//! Character and sequence utilities: ASCII case folding, substring search,
//! splitting, trimming, tokenizing, and decimal rendering of integers.
use vstd::prelude::*;
use vstd::string::StrSliceExecFns;

verus! {

/// The ASCII whitespace characters recognized when trimming amount tokens
/// and splitting descriptions into tokens.
pub open spec fn is_ws(c: char) -> bool {
    c == ' ' || c == '\t' || c == '\n' || c == '\r'
}

pub fn char_is_ws(c: char) -> (r: bool)
    ensures
        r == is_ws(c),
{
    c == ' ' || c == '\t' || c == '\n' || c == '\r'
}

/// ASCII lower-casing of one character; characters outside `A..=Z` are kept.
pub open spec fn lower_char(c: char) -> char {
    match c {
        'A' => 'a', 'B' => 'b', 'C' => 'c', 'D' => 'd', 'E' => 'e', 'F' => 'f',
        'G' => 'g', 'H' => 'h', 'I' => 'i', 'J' => 'j', 'K' => 'k', 'L' => 'l',
        'M' => 'm', 'N' => 'n', 'O' => 'o', 'P' => 'p', 'Q' => 'q', 'R' => 'r',
        'S' => 's', 'T' => 't', 'U' => 'u', 'V' => 'v', 'W' => 'w', 'X' => 'x',
        'Y' => 'y', 'Z' => 'z',
        _ => c,
    }
}

/// ASCII upper-casing of one character; characters outside `a..=z` are kept.
pub open spec fn upper_char(c: char) -> char {
    match c {
        'a' => 'A', 'b' => 'B', 'c' => 'C', 'd' => 'D', 'e' => 'E', 'f' => 'F',
        'g' => 'G', 'h' => 'H', 'i' => 'I', 'j' => 'J', 'k' => 'K', 'l' => 'L',
        'm' => 'M', 'n' => 'N', 'o' => 'O', 'p' => 'P', 'q' => 'Q', 'r' => 'R',
        's' => 'S', 't' => 'T', 'u' => 'U', 'v' => 'V', 'w' => 'W', 'x' => 'X',
        'y' => 'Y', 'z' => 'Z',
        _ => c,
    }
}

pub fn lower_char_exec(c: char) -> (r: char)
    ensures
        r == lower_char(c),
{
    match c {
        'A' => 'a', 'B' => 'b', 'C' => 'c', 'D' => 'd', 'E' => 'e', 'F' => 'f',
        'G' => 'g', 'H' => 'h', 'I' => 'i', 'J' => 'j', 'K' => 'k', 'L' => 'l',
        'M' => 'm', 'N' => 'n', 'O' => 'o', 'P' => 'p', 'Q' => 'q', 'R' => 'r',
        'S' => 's', 'T' => 't', 'U' => 'u', 'V' => 'v', 'W' => 'w', 'X' => 'x',
        'Y' => 'y', 'Z' => 'z',
        _ => c,
    }
}

pub fn upper_char_exec(c: char) -> (r: char)
    ensures
        r == upper_char(c),
{
    match c {
        'a' => 'A', 'b' => 'B', 'c' => 'C', 'd' => 'D', 'e' => 'E', 'f' => 'F',
        'g' => 'G', 'h' => 'H', 'i' => 'I', 'j' => 'J', 'k' => 'K', 'l' => 'L',
        'm' => 'M', 'n' => 'N', 'o' => 'O', 'p' => 'P', 'q' => 'Q', 'r' => 'R',
        's' => 'S', 't' => 'T', 'u' => 'U', 'v' => 'V', 'w' => 'W', 'x' => 'X',
        'y' => 'Y', 'z' => 'Z',
        _ => c,
    }
}

/// Pointwise ASCII lower-casing of a character sequence.
pub open spec fn lower_seq(s: Seq<char>) -> Seq<char> {
    Seq::new(s.len(), |i: int| lower_char(s[i]))
}

/// Pointwise ASCII upper-casing of a character sequence.
pub open spec fn upper_seq(s: Seq<char>) -> Seq<char> {
    Seq::new(s.len(), |i: int| upper_char(s[i]))
}

pub fn lower_chars(s: &Vec<char>) -> (r: Vec<char>)
    ensures
        r@ == lower_seq(s@),
{
    let mut r: Vec<char> = Vec::new();
    let mut i: usize = 0;
    while i < s.len()
        invariant
            i <= s.len(),
            r@.len() == i,
            forall|j: int| 0 <= j < i ==> r@[j] == lower_char(s@[j]),
        decreases s.len() - i,
    {
        r.push(lower_char_exec(s[i]));
        i = i + 1;
    }
    assert(r@ =~= lower_seq(s@));
    r
}

pub fn upper_chars(s: &Vec<char>) -> (r: Vec<char>)
    ensures
        r@ == upper_seq(s@),
{
    let mut r: Vec<char> = Vec::new();
    let mut i: usize = 0;
    while i < s.len()
        invariant
            i <= s.len(),
            r@.len() == i,
            forall|j: int| 0 <= j < i ==> r@[j] == upper_char(s@[j]),
        decreases s.len() - i,
    {
        r.push(upper_char_exec(s[i]));
        i = i + 1;
    }
    assert(r@ =~= upper_seq(s@));
    r
}

/// Copies the characters of a string slice into a vector.
pub fn str_to_chars(s: &str) -> (r: Vec<char>)
    ensures
        r@ == s@,
{
    let n = s.unicode_len();
    let mut r: Vec<char> = Vec::new();
    let mut i: usize = 0;
    while i < n
        invariant
            i <= n,
            n == s@.len(),
            r@ == s@.take(i as int),
        decreases n - i,
    {
        r.push(s.get_char(i));
        assert(r@ =~= s@.take(i + 1));
        i = i + 1;
    }
    assert(r@ =~= s@);
    r
}

/// Relies on `core::iter::Iterator::collect`: collecting `char`s yields a
/// `String` whose characters are exactly the collected ones, in order.
#[verifier::external_body]
pub fn chars_to_string(v: &Vec<char>) -> (r: String)
    ensures
        r@ == v@,
{
    v.iter().collect()
}

/// The decimal digit character for a value in `0..=9`.
pub open spec fn digit_char(d: int) -> char {
    if d == 0 { '0' } else if d == 1 { '1' } else if d == 2 { '2' }
    else if d == 3 { '3' } else if d == 4 { '4' } else if d == 5 { '5' }
    else if d == 6 { '6' } else if d == 7 { '7' } else if d == 8 { '8' }
    else { '9' }
}

pub fn digit_char_exec(d: u128) -> (r: char)
    requires
        d < 10,
    ensures
        r == digit_char(d as int),
{
    if d == 0 { '0' } else if d == 1 { '1' } else if d == 2 { '2' }
    else if d == 3 { '3' } else if d == 4 { '4' } else if d == 5 { '5' }
    else if d == 6 { '6' } else if d == 7 { '7' } else if d == 8 { '8' }
    else { '9' }
}

/// The usual base-10 rendering of a non-negative integer, without sign,
/// grouping, or leading zeros (except for the single digit of zero itself).
pub open spec fn dec_of(n: int) -> Seq<char>
    decreases n,
{
    if n < 10 {
        seq![digit_char(n)]
    } else {
        dec_of(n / 10).push(digit_char(n % 10))
    }
}

pub fn fmt_u128(n: u128) -> (r: Vec<char>)
    ensures
        r@ == dec_of(n as int),
    decreases n,
{
    if n < 10 {
        let mut r: Vec<char> = Vec::new();
        r.push(digit_char_exec(n));
        assert(r@ =~= seq![digit_char(n as int)]);
        r
    } else {
        let mut r = fmt_u128(n / 10);
        r.push(digit_char_exec(n % 10));
        assert(r@ =~= dec_of((n / 10) as int).push(digit_char((n % 10) as int)));
        r
    }
}

/// `needle` occurs in `hay` starting at position `i`.
pub open spec fn match_at(hay: Seq<char>, needle: Seq<char>, i: int) -> bool {
    0 <= i && i + needle.len() <= hay.len() && hay.subrange(i, i + needle.len()) == needle
}

/// `needle` occurs somewhere in `hay` as a contiguous run.
pub open spec fn contains_seq(hay: Seq<char>, needle: Seq<char>) -> bool {
    exists|i: int| match_at(hay, needle, i)
}

/// Substring search: whether the characters of `needle` occur contiguously in `hay`.
pub fn contains_chars(hay: &Vec<char>, needle: &str) -> (r: bool)
    ensures
        r == contains_seq(hay@, needle@),
{
    let n = hay.len();
    let m = needle.unicode_len();
    if m > n {
        assert(forall|i: int| !match_at(hay@, needle@, i));
        return false;
    }
    if m == 0 {
        assert(hay@.subrange(0, 0) =~= needle@);
        assert(match_at(hay@, needle@, 0));
        return true;
    }
    let mut i: usize = 0;
    while i <= n - m
        invariant
            1 <= m <= n,
            n == hay@.len(),
            m == needle@.len(),
            i <= n - m + 1,
            forall|k: int| 0 <= k < i ==> !match_at(hay@, needle@, k),
        decreases n - i,
    {
        let mut j: usize = 0;
        let mut mismatch = false;
        while j < m
            invariant
                i + m <= n,
                n == hay@.len(),
                m == needle@.len(),
                j <= m,
                !mismatch ==> forall|t: int| 0 <= t < j ==> hay@[i + t] == needle@[t],
                mismatch ==> !match_at(hay@, needle@, i as int),
            decreases m - j,
        {
            if hay[i + j] != needle.get_char(j) {
                proof {
                    if match_at(hay@, needle@, i as int) {
                        assert(hay@.subrange(i as int, i + m as int)[j as int] == hay@[i + j]);
                    }
                }
                mismatch = true;
                j = m;
            } else {
                j = j + 1;
            }
        }
        if !mismatch {
            assert(hay@.subrange(i as int, i + m as int) =~= needle@);
            assert(match_at(hay@, needle@, i as int));
            return true;
        }
        i = i + 1;
    }
    assert(forall|k: int| match_at(hay@, needle@, k) ==> 0 <= k < i);
    false
}

/// Splitting a character sequence on a separator, keeping empty pieces: the
/// result has one piece more than the number of separator occurrences.
pub open spec fn split_on(s: Seq<char>, sep: char) -> Seq<Seq<char>>
    decreases s.len(),
{
    if s.len() == 0 {
        seq![Seq::<char>::empty()]
    } else if s.last() == sep {
        split_on(s.drop_last(), sep).push(Seq::empty())
    } else {
        let r = split_on(s.drop_last(), sep);
        r.update(r.len() - 1, r.last().push(s.last()))
    }
}

pub proof fn lemma_split_on_nonempty(s: Seq<char>, sep: char)
    ensures
        split_on(s, sep).len() >= 1,
    decreases s.len(),
{
    if s.len() > 0 {
        lemma_split_on_nonempty(s.drop_last(), sep);
    }
}

pub fn split_chars(s: &Vec<char>, sep: char) -> (r: Vec<Vec<char>>)
    ensures
        r.deep_view() == split_on(s@, sep),
{
    let n = s.len();
    let mut fields: Vec<Vec<char>> = Vec::new();
    let mut cur: Vec<char> = Vec::new();
    let mut i: usize = 0;
    while i < n
        invariant
            i <= n,
            n == s@.len(),
            fields.deep_view().push(cur@) =~~= split_on(s@.take(i as int), sep),
        decreases n - i,
    {
        proof {
            assert(s@.take(i + 1).drop_last() =~= s@.take(i as int));
            assert(s@.take(i + 1).last() == s@[i as int]);
            lemma_split_on_nonempty(s@.take(i as int), sep);
        }
        if s[i] == sep {
            let ghost old_fields = fields.deep_view();
            let ghost old_cur = cur@;
            fields.push(cur);
            cur = Vec::new();
            proof {
                assert(fields.deep_view() =~~= old_fields.push(old_cur));
                assert(fields.deep_view().push(cur@) =~~= split_on(s@.take(i + 1), sep));
            }
        } else {
            let ghost old_cur = cur@;
            cur.push(s[i]);
            proof {
                let prev = split_on(s@.take(i as int), sep);
                assert(prev.last() == old_cur);
                assert(fields.deep_view().push(cur@) =~~= prev.update(
                    prev.len() - 1,
                    prev.last().push(s@[i as int]),
                ));
            }
        }
        i = i + 1;
    }
    proof {
        assert(s@.take(n as int) =~= s@);
    }
    let ghost old_fields = fields.deep_view();
    let ghost old_cur = cur@;
    fields.push(cur);
    proof {
        assert(fields.deep_view() =~~= old_fields.push(old_cur));
    }
    fields
}

/// What remains of `s` after dropping leading ASCII whitespace.
pub open spec fn strip_leading(s: Seq<char>) -> Seq<char>
    decreases s.len(),
{
    if s.len() > 0 && is_ws(s[0]) {
        strip_leading(s.drop_first())
    } else {
        s
    }
}

/// What remains of `s` after dropping trailing ASCII whitespace.
pub open spec fn strip_trailing(s: Seq<char>) -> Seq<char>
    decreases s.len(),
{
    if s.len() > 0 && is_ws(s.last()) {
        strip_trailing(s.drop_last())
    } else {
        s
    }
}

/// `s` with ASCII whitespace removed from both ends.
pub open spec fn trim_ws(s: Seq<char>) -> Seq<char> {
    strip_trailing(strip_leading(s))
}

pub fn trim_chars(s: &Vec<char>) -> (r: Vec<char>)
    ensures
        r@ == trim_ws(s@),
{
    let n = s.len();
    proof {
        assert(s@.skip(0) =~= s@);
    }
    let mut lo: usize = 0;
    while lo < n && char_is_ws_at(s, lo)
        invariant
            lo <= n,
            n == s@.len(),
            strip_leading(s@) == strip_leading(s@.skip(lo as int)),
        decreases n - lo,
    {
        proof {
            assert(s@.skip(lo as int)[0] == s@[lo as int]);
            assert(s@.skip(lo as int).drop_first() =~= s@.skip(lo + 1));
        }
        lo = lo + 1;
    }
    proof {
        if lo < n {
            assert(s@.skip(lo as int)[0] == s@[lo as int]);
        }
        assert(strip_leading(s@.skip(lo as int)) == s@.skip(lo as int));
    }
    let mut hi: usize = n;
    while hi > lo && char_is_ws_at(s, hi - 1)
        invariant
            lo <= hi <= n,
            n == s@.len(),
            strip_leading(s@) == strip_leading(s@.skip(lo as int)),
            strip_leading(s@.skip(lo as int)) == s@.skip(lo as int),
            strip_trailing(s@.skip(lo as int)) == strip_trailing(
                s@.subrange(lo as int, hi as int),
            ),
        decreases hi,
    {
        proof {
            let piece = s@.subrange(lo as int, hi as int);
            assert(piece.last() == s@[hi - 1]);
            assert(piece.drop_last() =~= s@.subrange(lo as int, hi - 1));
        }
        hi = hi - 1;
    }
    proof {
        let piece = s@.subrange(lo as int, hi as int);
        if hi > lo {
            assert(piece.last() == s@[hi - 1]);
        }
        assert(strip_trailing(piece) == piece);
        assert(s@.skip(lo as int) =~= s@.subrange(lo as int, n as int));
    }
    let mut r: Vec<char> = Vec::new();
    let mut i: usize = lo;
    while i < hi
        invariant
            lo <= i <= hi <= n,
            n == s@.len(),
            r@ =~= s@.subrange(lo as int, i as int),
        decreases hi - i,
    {
        r.push(s[i]);
        assert(r@ =~= s@.subrange(lo as int, i + 1));
        i = i + 1;
    }
    r
}

fn char_is_ws_at(s: &Vec<char>, i: usize) -> (r: bool)
    requires
        i < s@.len(),
    ensures
        r == is_ws(s@[i as int]),
{
    char_is_ws(s[i])
}

/// The maximal runs of non-whitespace characters of `s`, in order, with
/// whitespace runs acting as separators and producing no empty tokens.
pub open spec fn tokens_of(s: Seq<char>) -> Seq<Seq<char>>
    decreases s.len(),
{
    if s.len() == 0 {
        Seq::<Seq<char>>::empty()
    } else if is_ws(s.last()) {
        tokens_of(s.drop_last())
    } else if s.len() == 1 || is_ws(s[s.len() - 2]) {
        tokens_of(s.drop_last()).push(seq![s.last()])
    } else {
        let t = tokens_of(s.drop_last());
        t.update(t.len() - 1, t.last().push(s.last()))
    }
}

pub proof fn lemma_tokens_nonempty(s: Seq<char>)
    requires
        s.len() > 0,
        !is_ws(s.last()),
    ensures
        tokens_of(s).len() >= 1,
    decreases s.len(),
{
    if s.len() > 1 && !is_ws(s[s.len() - 2]) {
        lemma_tokens_nonempty(s.drop_last());
    }
}

pub fn tokens_chars(s: &Vec<char>) -> (r: Vec<Vec<char>>)
    ensures
        r.deep_view() == tokens_of(s@),
{
    let n = s.len();
    let mut toks: Vec<Vec<char>> = Vec::new();
    let mut cur: Vec<char> = Vec::new();
    let mut i: usize = 0;
    while i < n
        invariant
            i <= n,
            n == s@.len(),
            (cur@.len() == 0) == (i == 0 || is_ws(s@[i - 1])),
            cur@.len() == 0 ==> toks.deep_view() =~~= tokens_of(s@.take(i as int)),
            cur@.len() > 0 ==> toks.deep_view().push(cur@) =~~= tokens_of(s@.take(i as int)),
        decreases n - i,
    {
        proof {
            assert(s@.take(i + 1).drop_last() =~= s@.take(i as int));
            assert(s@.take(i + 1).last() == s@[i as int]);
        }
        if char_is_ws_at(s, i) {
            if cur.len() > 0 {
                let ghost old_toks = toks.deep_view();
                let ghost old_cur = cur@;
                toks.push(cur);
                cur = Vec::new();
                proof {
                    assert(toks.deep_view() =~~= old_toks.push(old_cur));
                }
            }
        } else {
            if cur.len() == 0 {
                cur.push(s[i]);
                proof {
                    assert(cur@ =~= seq![s@[i as int]]);
                    assert(toks.deep_view().push(cur@) =~~= tokens_of(s@.take(i + 1)));
                }
            } else {
                let ghost prev = tokens_of(s@.take(i as int));
                proof {
                    lemma_tokens_nonempty(s@.take(i as int));
                    assert(prev.last() == cur@);
                }
                cur.push(s[i]);
                proof {
                    assert(toks.deep_view().push(cur@) =~~= prev.update(
                        prev.len() - 1,
                        prev.last().push(s@[i as int]),
                    ));
                }
            }
        }
        i = i + 1;
    }
    proof {
        assert(s@.take(n as int) =~= s@);
    }
    if cur.len() > 0 {
        let ghost old_toks = toks.deep_view();
        let ghost old_cur = cur@;
        toks.push(cur);
        proof {
            assert(toks.deep_view() =~~= old_toks.push(old_cur));
        }
    }
    toks
}

/// Appends all characters of `src` to `dst`.
pub fn push_all(dst: &mut Vec<char>, src: &Vec<char>)
    ensures
        final(dst)@ == old(dst)@ + src@,
{
    let n = src.len();
    let mut i: usize = 0;
    while i < n
        invariant
            i <= n,
            n == src@.len(),
            dst@ =~= old(dst)@ + src@.take(i as int),
        decreases n - i,
    {
        dst.push(src[i]);
        assert(dst@ =~= old(dst)@ + src@.take(i + 1));
        i = i + 1;
    }
    assert(dst@ =~= old(dst)@ + src@);
}

/// Appends the characters of a string slice to `dst`.
pub fn push_str_chars(dst: &mut Vec<char>, s: &str)
    ensures
        final(dst)@ == old(dst)@ + s@,
{
    let cs = str_to_chars(s);
    push_all(dst, &cs);
}

/// The final path segment: the suffix of `p` after its last `/`, or all of
/// `p` when it holds no `/`.
pub open spec fn filename_of(p: Seq<char>) -> Seq<char>
    decreases p.len(),
{
    if p.len() == 0 {
        Seq::<char>::empty()
    } else if p.last() == '/' {
        Seq::<char>::empty()
    } else {
        filename_of(p.drop_last()).push(p.last())
    }
}

pub fn filename_chars(p: &Vec<char>) -> (r: Vec<char>)
    ensures
        r@ == filename_of(p@),
{
    let n = p.len();
    let mut cur: Vec<char> = Vec::new();
    let mut i: usize = 0;
    while i < n
        invariant
            i <= n,
            n == p@.len(),
            cur@ =~= filename_of(p@.take(i as int)),
        decreases n - i,
    {
        proof {
            assert(p@.take(i + 1).drop_last() =~= p@.take(i as int));
            assert(p@.take(i + 1).last() == p@[i as int]);
        }
        if p[i] == '/' {
            cur = Vec::new();
        } else {
            cur.push(p[i]);
        }
        i = i + 1;
    }
    proof {
        assert(p@.take(n as int) =~= p@);
    }
    cur
}

} // verus!
