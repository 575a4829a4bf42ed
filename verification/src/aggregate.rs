//! The aggregator: groups categorized transactions into category totals and
//! merchant totals, keyed in first-seen order, sorted descending by total.
//! Grouping works over entries `(key, total, count)`.
use vstd::prelude::*;

use vstd::arithmetic::mul::lemma_mul_inequality;
use crate::model::{
    CategoryTotal, CategoryTotalView, MerchantTotal, MerchantTotalView, Transaction,
    TransactionView, txs_view, sum_amounts, MAX_CENTS,
};
use crate::text::{
    chars_to_string, push_all, str_to_chars, tokens_chars, tokens_of, upper_chars, upper_seq,
};

verus! {

/// Spec view of an executable key/amount pair list.
pub open spec fn pview(ps: Seq<(String, u64)>) -> Seq<(Seq<char>, int)> {
    Seq::new(ps.len(), |i: int| (ps[i].0@, ps[i].1 as int))
}

/// Spec view of an executable grouped-entry list `(key, total, count)`.
pub open spec fn gview(gs: Seq<(String, u128, usize)>) -> Seq<(Seq<char>, int, int)> {
    Seq::new(gs.len(), |i: int| (gs[i].0@, gs[i].1 as int, gs[i].2 as int))
}

/// Adds one observation to grouped entries: the first entry with the same key
/// absorbs the amount and counts once more; a new key is appended at the end,
/// so keys stand in first-seen order.
pub open spec fn add_group(
    gs: Seq<(Seq<char>, int, int)>,
    key: Seq<char>,
    amt: int,
) -> Seq<(Seq<char>, int, int)>
    decreases gs.len(),
{
    if gs.len() == 0 {
        seq![(key, amt, 1int)]
    } else if gs[0].0 == key {
        gs.update(0, (gs[0].0, gs[0].1 + amt, gs[0].2 + 1))
    } else {
        seq![gs[0]] + add_group(gs.drop_first(), key, amt)
    }
}

/// Grouping a pair sequence, observation by observation, in order.
pub open spec fn group_by_key(ps: Seq<(Seq<char>, int)>) -> Seq<(Seq<char>, int, int)>
    decreases ps.len(),
{
    if ps.len() == 0 {
        Seq::<(Seq<char>, int, int)>::empty()
    } else {
        add_group(group_by_key(ps.drop_last()), ps.last().0, ps.last().1)
    }
}

/// Sum of the grouped totals.
pub open spec fn sum_t(gs: Seq<(Seq<char>, int, int)>) -> int
    decreases gs.len(),
{
    if gs.len() == 0 {
        0
    } else {
        gs[0].1 + sum_t(gs.drop_first())
    }
}

/// Sum of the grouped counts.
pub open spec fn sum_c(gs: Seq<(Seq<char>, int, int)>) -> int
    decreases gs.len(),
{
    if gs.len() == 0 {
        0
    } else {
        gs[0].2 + sum_c(gs.drop_first())
    }
}

/// Sum of the amounts of a pair sequence.
pub open spec fn psum(ps: Seq<(Seq<char>, int)>) -> int
    decreases ps.len(),
{
    if ps.len() == 0 {
        0
    } else {
        psum(ps.drop_last()) + ps.last().1
    }
}

pub proof fn lemma_add_group_sums(gs: Seq<(Seq<char>, int, int)>, key: Seq<char>, amt: int)
    ensures
        sum_t(add_group(gs, key, amt)) == sum_t(gs) + amt,
        sum_c(add_group(gs, key, amt)) == sum_c(gs) + 1,
        add_group(gs, key, amt).len() >= 1,
    decreases gs.len(),
{
    let r = add_group(gs, key, amt);
    if gs.len() == 0 {
        assert(r.drop_first() =~= Seq::<(Seq<char>, int, int)>::empty());
        assert(sum_t(r) == r[0].1 + sum_t(r.drop_first()));
        assert(sum_c(r) == r[0].2 + sum_c(r.drop_first()));
    } else if gs[0].0 == key {
        assert(r.drop_first() =~= gs.drop_first());
        assert(r[0] == (gs[0].0, gs[0].1 + amt, gs[0].2 + 1));
        assert(sum_t(r) == r[0].1 + sum_t(r.drop_first()));
        assert(sum_c(r) == r[0].2 + sum_c(r.drop_first()));
        assert(sum_t(gs) == gs[0].1 + sum_t(gs.drop_first()));
        assert(sum_c(gs) == gs[0].2 + sum_c(gs.drop_first()));
    } else {
        lemma_add_group_sums(gs.drop_first(), key, amt);
        assert(r.drop_first() =~= add_group(gs.drop_first(), key, amt));
        assert(r[0] == gs[0]);
        assert(sum_t(r) == r[0].1 + sum_t(r.drop_first()));
        assert(sum_c(r) == r[0].2 + sum_c(r.drop_first()));
        assert(sum_t(gs) == gs[0].1 + sum_t(gs.drop_first()));
        assert(sum_c(gs) == gs[0].2 + sum_c(gs.drop_first()));
    }
}

/// Every grouped total and count is bounded by the respective sum, once all
/// entries are non-negative.
pub proof fn lemma_entry_le_sums(gs: Seq<(Seq<char>, int, int)>)
    requires
        forall|i: int| 0 <= i < gs.len() ==> (#[trigger] gs[i]).1 >= 0 && gs[i].2 >= 0,
    ensures
        forall|i: int|
            0 <= i < gs.len() ==> (#[trigger] gs[i]).1 <= sum_t(gs) && gs[i].2 <= sum_c(gs),
    decreases gs.len(),
{
    if gs.len() > 0 {
        assert(forall|i: int|
            0 <= i < gs.drop_first().len() ==> (#[trigger] gs.drop_first()[i]) == gs[i + 1]);
        lemma_entry_le_sums(gs.drop_first());
        lemma_sums_nonneg(gs.drop_first());
        assert(forall|i: int| 1 <= i < gs.len() ==> (#[trigger] gs[i]) == gs.drop_first()[i - 1]);
    }
}

pub proof fn lemma_sums_nonneg(gs: Seq<(Seq<char>, int, int)>)
    requires
        forall|i: int| 0 <= i < gs.len() ==> (#[trigger] gs[i]).1 >= 0 && gs[i].2 >= 0,
    ensures
        sum_t(gs) >= 0,
        sum_c(gs) >= 0,
    decreases gs.len(),
{
    if gs.len() > 0 {
        assert(forall|i: int|
            0 <= i < gs.drop_first().len() ==> (#[trigger] gs.drop_first()[i]) == gs[i + 1]);
        lemma_sums_nonneg(gs.drop_first());
    }
}

/// Grouping preserves the amount sum and counts every observation once.
pub proof fn lemma_group_sums(ps: Seq<(Seq<char>, int)>)
    ensures
        sum_t(group_by_key(ps)) == psum(ps),
        sum_c(group_by_key(ps)) == ps.len(),
    decreases ps.len(),
{
    if ps.len() > 0 {
        lemma_group_sums(ps.drop_last());
        lemma_add_group_sums(group_by_key(ps.drop_last()), ps.last().0, ps.last().1);
    }
}

/// Groups a key/amount list into `(key, total, count)` entries, keys in
/// first-seen order.
pub fn group_pairs(pairs: &Vec<(String, u64)>) -> (r: Vec<(String, u128, usize)>)
    requires
        forall|i: int| 0 <= i < pairs@.len() ==> (#[trigger] pairs@[i]).1 <= MAX_CENTS,
    ensures
        gview(r@) == group_by_key(pview(pairs@)),
{
    let n = pairs.len();
    let ghost pv = pview(pairs@);
    let mut groups: Vec<(String, u128, usize)> = Vec::new();
    let mut i: usize = 0;
    while i < n
        invariant
            i <= n,
            n == pairs@.len(),
            pv == pview(pairs@),
            forall|k: int| 0 <= k < pairs@.len() ==> (#[trigger] pairs@[k]).1 <= MAX_CENTS,
            gview(groups@) =~= group_by_key(pv.take(i as int)),
            psum(pv.take(i as int)) <= i as int * MAX_CENTS as int,
        decreases n - i,
    {
        proof {
            assert(pv.take(i + 1).drop_last() =~= pv.take(i as int));
            assert(pv.take(i + 1).last() == pv[i as int]);
            lemma_group_sums(pv.take(i as int));
            lemma_entry_le_sums(gview(groups@));
        }
        let ghost gv = gview(groups@);
        let amt = pairs[i].1;
        let mut k: usize = 0;
        let mut found = false;
        while k < groups.len() && !found
            invariant
                k <= groups@.len(),
                gv == gview(groups@),
                forall|j: int| 0 <= j < k ==> (#[trigger] gv[j]).0 != pairs@[i as int].0@,
                found ==> k < groups@.len() && gv[k as int].0 == pairs@[i as int].0@,
                i < pairs@.len(),
            decreases groups@.len() - k + (if found { 0int } else { 1int }),
        {
            if groups[k].0 == pairs[i].0 {
                found = true;
            } else {
                k = k + 1;
            }
        }
        proof {
            lemma_add_group_skip(gv, pv[i as int].0, pv[i as int].1, k as int);
        }
        if found {
            let t = groups[k].1;
            let c = groups[k].2;
            proof {
                assert(gv[k as int].1 <= sum_t(gv) && gv[k as int].2 <= sum_c(gv));
                assert(sum_t(gv) == psum(pv.take(i as int)));
                assert((i as int + 1) * MAX_CENTS as int <= 0x1_0000_0000_0000_0000int
                    * MAX_CENTS as int) by {
                    lemma_mul_inequality(
                        i as int + 1,
                        0x1_0000_0000_0000_0000int,
                        MAX_CENTS as int,
                    );
                }
            }
            let key = pairs[i].0.clone();
            groups[k] = (key, t + amt as u128, c + 1);
            proof {
                assert(gview(groups@) =~= gv.update(
                    k as int,
                    (gv[k as int].0, gv[k as int].1 + pv[i as int].1, gv[k as int].2 + 1),
                ));
                assert(gv.skip(k as int)[0] == gv[k as int]);
                assert(add_group(gv.skip(k as int), pv[i as int].0, pv[i as int].1)
                    =~= gv.skip(k as int).update(
                    0,
                    (gv[k as int].0, gv[k as int].1 + pv[i as int].1, gv[k as int].2 + 1),
                ));
                assert(gview(groups@) =~= gv.take(k as int) + add_group(
                    gv.skip(k as int),
                    pv[i as int].0,
                    pv[i as int].1,
                ));
            }
        } else {
            proof {
                assert(k as int == gv.len());
                assert(gv.skip(k as int) =~= Seq::<(Seq<char>, int, int)>::empty());
            }
            groups.push((pairs[i].0.clone(), amt as u128, 1));
            proof {
                assert(gview(groups@) =~= gv.push((pv[i as int].0, pv[i as int].1, 1int)));
                assert(gv.take(k as int) =~= gv);
                assert(gview(groups@) =~= gv.take(k as int) + add_group(
                    gv.skip(k as int),
                    pv[i as int].0,
                    pv[i as int].1,
                ));
            }
        }
        i = i + 1;
    }
    proof {
        assert(pv.take(n as int) =~= pv);
    }
    groups
}

/// Inserts an entry into a descending-sorted entry sequence, after any entry
/// of equal total, so sorting stays stable.
pub open spec fn insert_ent(
    s: Seq<(Seq<char>, int, int)>,
    e: (Seq<char>, int, int),
) -> Seq<(Seq<char>, int, int)>
    decreases s.len(),
{
    if s.len() == 0 {
        seq![e]
    } else if e.1 > s[0].1 {
        seq![e] + s
    } else {
        seq![s[0]] + insert_ent(s.drop_first(), e)
    }
}

/// Stable insertion sort of entries, descending by total: equal totals keep
/// their first-seen order.
pub open spec fn sort_ents(s: Seq<(Seq<char>, int, int)>) -> Seq<(Seq<char>, int, int)>
    decreases s.len(),
{
    if s.len() == 0 {
        Seq::<(Seq<char>, int, int)>::empty()
    } else {
        insert_ent(sort_ents(s.drop_last()), s.last())
    }
}

/// Entries stand in weakly descending order of total.
pub open spec fn sorted_desc(s: Seq<(Seq<char>, int, int)>) -> bool {
    forall|i: int, j: int| 0 <= i < j < s.len() ==> (#[trigger] s[i]).1 >= (#[trigger] s[j]).1
}

/// Sum of the percentage-tenths column the entries would be given against an
/// overall `total`.
pub open spec fn sum_pct_ents(gs: Seq<(Seq<char>, int, int)>, total: int) -> int
    decreases gs.len(),
{
    if gs.len() == 0 {
        0
    } else {
        gs[0].1 * 1000 / total + sum_pct_ents(gs.drop_first(), total)
    }
}

pub proof fn lemma_insert_ent_props(
    s: Seq<(Seq<char>, int, int)>,
    e: (Seq<char>, int, int),
    total: int,
)
    ensures
        insert_ent(s, e).len() == s.len() + 1,
        sum_t(insert_ent(s, e)) == sum_t(s) + e.1,
        sum_pct_ents(insert_ent(s, e), total) == sum_pct_ents(s, total) + e.1 * 1000 / total,
        sorted_desc(s) ==> sorted_desc(insert_ent(s, e)),
        forall|k: int|
            0 <= k < insert_ent(s, e).len() ==> (#[trigger] insert_ent(s, e)[k]) == e || exists|j: int|
                0 <= j < s.len() && insert_ent(s, e)[k] == s[j],
    decreases s.len(),
{
    let r = insert_ent(s, e);
    if s.len() == 0 {
        assert(r.drop_first() =~= Seq::<(Seq<char>, int, int)>::empty());
        assert(sum_t(r) == r[0].1 + sum_t(r.drop_first()));
        assert(sum_pct_ents(r, total) == r[0].1 * 1000 / total + sum_pct_ents(
            r.drop_first(),
            total,
        ));
    } else if e.1 > s[0].1 {
        assert(r.drop_first() =~= s);
        assert(r[0] == e);
        assert(sum_t(r) == r[0].1 + sum_t(r.drop_first()));
        assert(sum_pct_ents(r, total) == r[0].1 * 1000 / total + sum_pct_ents(
            r.drop_first(),
            total,
        ));
        assert(sum_t(s) == s[0].1 + sum_t(s.drop_first()));
        assert(sum_pct_ents(s, total) == s[0].1 * 1000 / total + sum_pct_ents(
            s.drop_first(),
            total,
        ));
        assert(sorted_desc(s) ==> sorted_desc(r));
    } else {
        lemma_insert_ent_props(s.drop_first(), e, total);
        let rr = insert_ent(s.drop_first(), e);
        assert(r.drop_first() =~= rr);
        assert(r[0] == s[0]);
        assert(sum_t(r) == r[0].1 + sum_t(r.drop_first()));
        assert(sum_pct_ents(r, total) == r[0].1 * 1000 / total + sum_pct_ents(
            r.drop_first(),
            total,
        ));
        assert(sum_t(s) == s[0].1 + sum_t(s.drop_first()));
        assert(sum_pct_ents(s, total) == s[0].1 * 1000 / total + sum_pct_ents(
            s.drop_first(),
            total,
        ));
        if sorted_desc(s) {
            assert(forall|i: int, j: int|
                0 <= i < j < s.drop_first().len() ==> (#[trigger] s.drop_first()[i]).1
                    >= (#[trigger] s.drop_first()[j]).1);
            assert(sorted_desc(rr));
            assert forall|i: int, j: int| 0 <= i < j < r.len() implies (#[trigger] r[i]).1
                >= (#[trigger] r[j]).1 by {
                if i == 0 {
                    assert(r[j] == rr[j - 1]);
                    if rr[j - 1] == e {
                        assert(r[0].1 == s[0].1 >= e.1);
                    } else {
                        let jj = choose|jj: int|
                            0 <= jj < s.drop_first().len() && rr[j - 1] == s.drop_first()[jj];
                        assert(s.drop_first()[jj] == s[jj + 1]);
                        assert(s[0].1 >= s[jj + 1].1);
                    }
                } else {
                    assert(r[i] == rr[i - 1] && r[j] == rr[j - 1]);
                }
            }
        }
        assert(forall|k: int| 1 <= k < r.len() ==> (#[trigger] r[k]) == rr[k - 1]);
        assert forall|k: int| 0 <= k < r.len() implies (#[trigger] r[k]) == e || exists|j: int|
            0 <= j < s.len() && r[k] == s[j] by {
            if k == 0 {
                assert(r[0] == s[0]);
            } else if rr[k - 1] == e {
            } else {
                let jj = choose|jj: int|
                    0 <= jj < s.drop_first().len() && rr[k - 1] == s.drop_first()[jj];
                assert(s.drop_first()[jj] == s[jj + 1]);
            }
        }
    }
}

pub proof fn lemma_sort_ents_props(s: Seq<(Seq<char>, int, int)>, total: int)
    ensures
        sort_ents(s).len() == s.len(),
        sum_t(sort_ents(s)) == sum_t(s),
        sum_pct_ents(sort_ents(s), total) == sum_pct_ents(s, total),
        sorted_desc(sort_ents(s)),
        forall|k: int|
            0 <= k < sort_ents(s).len() ==> exists|j: int|
                0 <= j < s.len() && (#[trigger] sort_ents(s)[k]) == s[j],
    decreases s.len(),
{
    if s.len() == 0 {
    } else {
        lemma_sort_ents_props(s.drop_last(), total);
        lemma_insert_ent_props(sort_ents(s.drop_last()), s.last(), total);
        lemma_sum_t_drop_last(s);
        lemma_sum_pct_drop_last(s, total);
        let r = sort_ents(s);
        let sorted_prefix = sort_ents(s.drop_last());
        assert forall|k: int| 0 <= k < r.len() implies exists|j: int|
            0 <= j < s.len() && (#[trigger] r[k]) == s[j] by {
            if r[k] == s.last() {
                assert(r[k] == s[s.len() - 1]);
            } else {
                let jj = choose|jj: int|
                    0 <= jj < sorted_prefix.len() && r[k] == sorted_prefix[jj];
                let j2 = choose|j2: int|
                    0 <= j2 < s.drop_last().len() && sorted_prefix[jj] == s.drop_last()[j2];
                assert(s.drop_last()[j2] == s[j2]);
            }
        }
    }
}

/// `sum_t` also peels from the back.
pub proof fn lemma_sum_t_drop_last(s: Seq<(Seq<char>, int, int)>)
    requires
        s.len() > 0,
    ensures
        sum_t(s) == sum_t(s.drop_last()) + s.last().1,
        sum_c(s) == sum_c(s.drop_last()) + s.last().2,
    decreases s.len(),
{
    if s.len() == 1 {
        assert(s.drop_last() =~= Seq::<(Seq<char>, int, int)>::empty());
        assert(s.drop_first() =~= Seq::<(Seq<char>, int, int)>::empty());
    } else {
        lemma_sum_t_drop_last(s.drop_first());
        assert(s.drop_first().drop_last() =~= s.drop_last().drop_first());
        assert(s.drop_first().last() == s.last());
        assert(s.drop_last()[0] == s[0]);
    }
}

/// `sum_pct_ents` also peels from the back.
pub proof fn lemma_sum_pct_drop_last(s: Seq<(Seq<char>, int, int)>, total: int)
    requires
        s.len() > 0,
    ensures
        sum_pct_ents(s, total) == sum_pct_ents(s.drop_last(), total) + s.last().1 * 1000 / total,
    decreases s.len(),
{
    if s.len() == 1 {
        assert(s.drop_last() =~= Seq::<(Seq<char>, int, int)>::empty());
        assert(s.drop_first() =~= Seq::<(Seq<char>, int, int)>::empty());
    } else {
        lemma_sum_pct_drop_last(s.drop_first(), total);
        assert(s.drop_first().drop_last() =~= s.drop_last().drop_first());
        assert(s.drop_first().last() == s.last());
        assert(s.drop_last()[0] == s[0]);
    }
}

/// `insert_ent` scans past greater-or-equal totals untouched.
pub proof fn lemma_insert_ent_skip(
    s: Seq<(Seq<char>, int, int)>,
    e: (Seq<char>, int, int),
    k: int,
)
    requires
        0 <= k <= s.len(),
        forall|j: int| 0 <= j < k ==> !(e.1 > (#[trigger] s[j]).1),
    ensures
        insert_ent(s, e) == s.take(k) + insert_ent(s.skip(k), e),
    decreases k,
{
    if k == 0 {
        assert(s.take(0) =~= Seq::<(Seq<char>, int, int)>::empty());
        assert(s.skip(0) =~= s);
        assert(insert_ent(s, e) =~= s.take(0) + insert_ent(s.skip(0), e));
    } else {
        assert(forall|j: int| 0 <= j < k - 1 ==> (#[trigger] s.drop_first()[j]) == s[j + 1]);
        lemma_insert_ent_skip(s.drop_first(), e, k - 1);
        assert(s.drop_first().take(k - 1) =~= s.take(k).drop_first());
        assert(s.drop_first().skip(k - 1) =~= s.skip(k));
        assert(insert_ent(s, e) == seq![s[0]] + insert_ent(s.drop_first(), e));
        assert(seq![s[0]] + (s.drop_first().take(k - 1) + insert_ent(
            s.drop_first().skip(k - 1),
            e,
        )) =~= s.take(k) + insert_ent(s.skip(k), e));
    }
}

fn insert_entry(v: &mut Vec<(String, u128, usize)>, e: (String, u128, usize))
    ensures
        gview(final(v)@) == insert_ent(gview(old(v)@), (e.0@, e.1 as int, e.2 as int)),
{
    let ghost gv = gview(v@);
    let ghost ev = (e.0@, e.1 as int, e.2 as int);
    let mut k: usize = 0;
    while k < v.len() && v[k].1 >= e.1
        invariant
            k <= v@.len(),
            gv == gview(v@),
            ev == (e.0@, e.1 as int, e.2 as int),
            forall|j: int| 0 <= j < k ==> !(ev.1 > (#[trigger] gv[j]).1),
        decreases v@.len() - k,
    {
        proof {
            assert(gv[k as int].1 == v@[k as int].1 as int);
        }
        k = k + 1;
    }
    proof {
        lemma_insert_ent_skip(gv, ev, k as int);
    }
    if k == v.len() {
        proof {
            assert(gv.skip(k as int) =~= Seq::<(Seq<char>, int, int)>::empty());
            assert(gv.take(k as int) =~= gv);
        }
        v.push(e);
        proof {
            assert(gview(v@) =~= gv.push(ev));
            assert(gv.push(ev) =~= gv.take(gv.len() as int) + insert_ent(
                gv.skip(gv.len() as int),
                ev,
            ));
        }
    } else {
        proof {
            assert(gv.skip(k as int)[0] == gv[k as int]);
            assert(ev.1 > gv[k as int].1);
            assert(insert_ent(gv.skip(k as int), ev) =~= seq![ev] + gv.skip(k as int));
        }
        v.insert(k, e);
        proof {
            assert(gview(v@) =~= gv.take(k as int) + (seq![ev] + gv.skip(k as int)));
        }
    }
}

/// Sorts grouped entries descending by total, stably.
fn sort_entries(entries: &Vec<(String, u128, usize)>) -> (r: Vec<(String, u128, usize)>)
    ensures
        gview(r@) == sort_ents(gview(entries@)),
{
    let n = entries.len();
    let ghost ev = gview(entries@);
    let mut out: Vec<(String, u128, usize)> = Vec::new();
    let mut i: usize = 0;
    while i < n
        invariant
            i <= n,
            n == entries@.len(),
            ev == gview(entries@),
            gview(out@) == sort_ents(ev.take(i as int)),
        decreases n - i,
    {
        proof {
            assert(ev.take(i + 1).drop_last() =~= ev.take(i as int));
            assert(ev.take(i + 1).last() == ev[i as int]);
        }
        let e = (entries[i].0.clone(), entries[i].1, entries[i].2);
        proof {
            assert((e.0@, e.1 as int, e.2 as int) == ev[i as int]);
        }
        insert_entry(&mut out, e);
        i = i + 1;
    }
    proof {
        assert(ev.take(n as int) =~= ev);
    }
    out
}

/// `add_group` scans past entries with other keys untouched.
pub proof fn lemma_add_group_skip(
    gs: Seq<(Seq<char>, int, int)>,
    key: Seq<char>,
    amt: int,
    k: int,
)
    requires
        0 <= k <= gs.len(),
        forall|j: int| 0 <= j < k ==> (#[trigger] gs[j]).0 != key,
    ensures
        add_group(gs, key, amt) == gs.take(k) + add_group(gs.skip(k), key, amt),
    decreases k,
{
    if k == 0 {
        assert(gs.take(0) =~= Seq::<(Seq<char>, int, int)>::empty());
        assert(gs.skip(0) =~= gs);
        assert(add_group(gs, key, amt) =~= gs.take(0) + add_group(gs.skip(0), key, amt));
    } else {
        assert(forall|j: int|
            0 <= j < k - 1 ==> (#[trigger] gs.drop_first()[j]) == gs[j + 1]);
        lemma_add_group_skip(gs.drop_first(), key, amt, k - 1);
        assert(gs.drop_first().take(k - 1) =~= gs.take(k).drop_first());
        assert(gs.drop_first().skip(k - 1) =~= gs.skip(k));
        assert(add_group(gs, key, amt) == seq![gs[0]] + add_group(gs.drop_first(), key, amt));
        assert(seq![gs[0]] + (gs.drop_first().take(k - 1) + add_group(
            gs.drop_first().skip(k - 1),
            key,
            amt,
        )) =~= gs.take(k) + add_group(gs.skip(k), key, amt));
    }
}

/// The merchant key of a description: its first two whitespace-separated
/// tokens, joined with one space, ASCII-upper-cased.
pub open spec fn spec_merchant_key(desc: Seq<char>) -> Seq<char> {
    let ts = tokens_of(desc);
    if ts.len() == 0 {
        Seq::<char>::empty()
    } else if ts.len() == 1 {
        upper_seq(ts[0])
    } else {
        upper_seq(ts[0] + seq![' '] + ts[1])
    }
}

/// Derives the normalized merchant label used for grouping.
pub fn extract_merchant_name(description: &str) -> (r: String)
    ensures
        r@ == spec_merchant_key(description@),
{
    let chars = str_to_chars(description);
    let toks = tokens_chars(&chars);
    let ghost ts = tokens_of(description@);
    let mut joined: Vec<char> = Vec::new();
    if toks.len() >= 1 {
        proof {
            assert(toks.deep_view()[0] == toks@[0]@);
        }
        push_all(&mut joined, &toks[0]);
        if toks.len() >= 2 {
            proof {
                assert(toks.deep_view()[1] == toks@[1]@);
            }
            joined.push(' ');
            push_all(&mut joined, &toks[1]);
            proof {
                assert(joined@ =~= ts[0] + seq![' '] + ts[1]);
            }
        }
    }
    let up = upper_chars(&joined);
    chars_to_string(&up)
}

/// The category/amount observations of categorized transactions, in order;
/// a transaction without a category contributes nothing.
pub open spec fn cat_pairs(txs: Seq<TransactionView>) -> Seq<(Seq<char>, int)>
    decreases txs.len(),
{
    if txs.len() == 0 {
        Seq::<(Seq<char>, int)>::empty()
    } else {
        let rest = cat_pairs(txs.drop_last());
        match txs.last().category {
            Option::Some(c) => rest.push((c, txs.last().amount_cents)),
            Option::None => rest,
        }
    }
}

/// The merchant-key/amount observations of transactions, in order.
pub open spec fn merch_pairs(txs: Seq<TransactionView>) -> Seq<(Seq<char>, int)> {
    Seq::new(txs.len(), |i: int| (spec_merchant_key(txs[i].description), txs[i].amount_cents))
}

/// The category rows for grouped entries: each total also carries its share
/// of `total` in tenths of a percent, rounded down.
pub open spec fn cats_of(gs: Seq<(Seq<char>, int, int)>, total: int) -> Seq<CategoryTotalView> {
    Seq::new(
        gs.len(),
        |i: int|
            CategoryTotalView {
                category: gs[i].0,
                total_cents: gs[i].1,
                percentage_tenths: gs[i].1 * 1000 / total,
            },
    )
}

/// The merchant rows for grouped entries.
pub open spec fn merchs_of(gs: Seq<(Seq<char>, int, int)>) -> Seq<MerchantTotalView> {
    Seq::new(
        gs.len(),
        |i: int|
            MerchantTotalView { merchant: gs[i].0, total_cents: gs[i].1, count: gs[i].2 },
    )
}

pub open spec fn cats_vview(s: Seq<CategoryTotal>) -> Seq<CategoryTotalView> {
    Seq::new(s.len(), |i: int| s[i]@)
}

pub open spec fn merchs_vview(s: Seq<MerchantTotal>) -> Seq<MerchantTotalView> {
    Seq::new(s.len(), |i: int| s[i]@)
}

/// What the category breakdown is: group the categorized transactions by
/// category in first-seen order, sort stably descending by total, and give
/// each row its percentage of `total`.
pub open spec fn spec_calculate_categories(txs: Seq<TransactionView>, total: int) -> Seq<
    CategoryTotalView,
> {
    cats_of(sort_ents(group_by_key(cat_pairs(txs))), total)
}

/// What the merchant list is: group by merchant key in first-seen order,
/// sort stably descending by total, and keep the first five rows.
pub open spec fn spec_top_merchants(txs: Seq<TransactionView>) -> Seq<MerchantTotalView> {
    let m = merchs_of(sort_ents(group_by_key(merch_pairs(txs))));
    if m.len() <= 5 {
        m
    } else {
        m.take(5)
    }
}

/// Fully categorized transactions contribute every amount to `cat_pairs`.
pub proof fn lemma_cat_pairs_sum(txs: Seq<TransactionView>)
    requires
        forall|i: int| 0 <= i < txs.len() ==> (#[trigger] txs[i]).category is Some,
        forall|i: int| 0 <= i < txs.len() ==> (#[trigger] txs[i]).amount_cents >= 0,
    ensures
        psum(cat_pairs(txs)) == sum_amounts(txs),
        cat_pairs(txs).len() == txs.len(),
        forall|i: int| 0 <= i < cat_pairs(txs).len() ==> (#[trigger] cat_pairs(txs)[i]).1 >= 0,
    decreases txs.len(),
{
    if txs.len() > 0 {
        assert(forall|i: int|
            0 <= i < txs.drop_last().len() ==> (#[trigger] txs.drop_last()[i]) == txs[i]);
        lemma_cat_pairs_sum(txs.drop_last());
        let rest = cat_pairs(txs.drop_last());
        if txs.last().category is Some {
            let r = cat_pairs(txs);
            assert(r == rest.push((txs.last().category->Some_0, txs.last().amount_cents)));
            assert(r.drop_last() =~= rest);
            assert(r.last() == (txs.last().category->Some_0, txs.last().amount_cents));
            assert(psum(r) == psum(rest) + txs.last().amount_cents);
            assert(forall|i: int| 0 <= i < rest.len() ==> (#[trigger] r[i]) == rest[i]);
            assert(r[r.len() - 1].1 == txs.last().amount_cents);
        }
    }
}

/// Grouping non-negative observations yields non-negative totals and counts.
pub proof fn lemma_add_group_nonneg(gs: Seq<(Seq<char>, int, int)>, key: Seq<char>, amt: int)
    requires
        amt >= 0,
        forall|i: int| 0 <= i < gs.len() ==> (#[trigger] gs[i]).1 >= 0 && gs[i].2 >= 0,
    ensures
        forall|i: int|
            0 <= i < add_group(gs, key, amt).len() ==> (#[trigger] add_group(gs, key, amt)[i]).1
                >= 0 && add_group(gs, key, amt)[i].2 >= 0,
    decreases gs.len(),
{
    let r = add_group(gs, key, amt);
    if gs.len() == 0 {
    } else if gs[0].0 == key {
    } else {
        assert(forall|i: int|
            0 <= i < gs.drop_first().len() ==> (#[trigger] gs.drop_first()[i]) == gs[i + 1]);
        lemma_add_group_nonneg(gs.drop_first(), key, amt);
        let rr = add_group(gs.drop_first(), key, amt);
        assert(forall|i: int| 1 <= i < r.len() ==> (#[trigger] r[i]) == rr[i - 1]);
        assert(r[0] == gs[0]);
    }
}

pub proof fn lemma_group_nonneg(ps: Seq<(Seq<char>, int)>)
    requires
        forall|i: int| 0 <= i < ps.len() ==> (#[trigger] ps[i]).1 >= 0,
    ensures
        forall|i: int|
            0 <= i < group_by_key(ps).len() ==> (#[trigger] group_by_key(ps)[i]).1 >= 0
                && group_by_key(ps)[i].2 >= 0,
    decreases ps.len(),
{
    if ps.len() > 0 {
        assert(forall|i: int|
            0 <= i < ps.drop_last().len() ==> (#[trigger] ps.drop_last()[i]) == ps[i]);
        lemma_group_nonneg(ps.drop_last());
        lemma_add_group_nonneg(group_by_key(ps.drop_last()), ps.last().0, ps.last().1);
    }
}

/// Computes category totals and percentages from categorized transactions.
/// `total_cents` must be the amount sum, so every share is well defined.
pub fn calculate_categories(transactions: &Vec<Transaction>, total_cents: u128) -> (r: Vec<
    CategoryTotal,
>)
    requires
        forall|i: int|
            0 <= i < transactions@.len() ==> (#[trigger] transactions@[i])@.category is Some,
        forall|i: int|
            0 <= i < transactions@.len() ==> (#[trigger] transactions@[i])@.amount_cents
                <= MAX_CENTS as int,
        total_cents as int == crate::model::sum_amounts(txs_view(transactions@)),
        1 <= total_cents <= crate::model::MAX_MONTHLY_CENTS,
    ensures
        cats_vview(r@) == spec_calculate_categories(txs_view(transactions@), total_cents as int),
{
    let ghost tv = txs_view(transactions@);
    let n = transactions.len();
    let mut pairs: Vec<(String, u64)> = Vec::new();
    let mut i: usize = 0;
    while i < n
        invariant
            i <= n,
            n == transactions@.len(),
            tv == txs_view(transactions@),
            forall|k: int|
                0 <= k < transactions@.len() ==> (#[trigger] transactions@[k])@.category is Some,
            forall|k: int|
                0 <= k < transactions@.len() ==> (#[trigger] transactions@[k])@.amount_cents
                    <= MAX_CENTS as int,
            pview(pairs@) =~= cat_pairs(tv.take(i as int)),
            forall|k: int| 0 <= k < pairs@.len() ==> (#[trigger] pairs@[k]).1 <= MAX_CENTS,
        decreases n - i,
    {
        proof {
            assert(tv.take(i + 1).drop_last() =~= tv.take(i as int));
            assert(tv.take(i + 1).last() == tv[i as int]);
            assert(tv[i as int] == transactions@[i as int]@);
        }
        let ghost old_p = pview(pairs@);
        match &transactions[i].category {
            Option::Some(c) => {
                pairs.push((c.clone(), transactions[i].amount_cents));
                proof {
                    assert(pview(pairs@) =~= old_p.push(
                        (c@, transactions@[i as int]@.amount_cents),
                    ));
                }
            },
            Option::None => {},
        }
        i = i + 1;
    }
    proof {
        assert(tv.take(n as int) =~= tv);
    }
    let groups = group_pairs(&pairs);
    let sorted = sort_entries(&groups);
    let ghost sv = gview(sorted@);
    let ghost total = total_cents as int;
    proof {
        assert(forall|k: int|
            0 <= k < tv.len() ==> (#[trigger] tv[k]).amount_cents >= 0);
        lemma_cat_pairs_sum(tv);
        lemma_group_sums(pview(pairs@));
        lemma_sort_ents_props(gview(groups@), total);
        assert(sum_t(sv) == total);
        assert(forall|k: int| 0 <= k < sv.len() ==> (#[trigger] sv[k]).1 >= 0 && sv[k].2 >= 0);
        lemma_entry_le_sums(sv);
    }
    let m = sorted.len();
    let mut out: Vec<CategoryTotal> = Vec::new();
    let mut j: usize = 0;
    while j < m
        invariant
            j <= m,
            m == sorted@.len(),
            sv == gview(sorted@),
            1 <= total_cents <= crate::model::MAX_MONTHLY_CENTS,
            total == total_cents as int,
            forall|k: int| 0 <= k < sv.len() ==> (#[trigger] sv[k]).1 <= sum_t(sv),
            sum_t(sv) == total,
            cats_vview(out@) =~= cats_of(sv, total).take(j as int),
        decreases m - j,
    {
        proof {
            assert(sv[j as int].1 == sorted@[j as int].1 as int);
        }
        let t = sorted[j].1;
        let scaled = t * 1000;
        let pct = scaled / total_cents;
        proof {
            vstd::arithmetic::div_mod::lemma_div_is_ordered(
                sv[j as int].1 * 1000,
                total * 1000,
                total,
            );
            vstd::arithmetic::div_mod::lemma_div_multiples_vanish(1000int, total);
            assert(total * 1000 == 1000 * total);
            assert((total * 1000) / total == 1000);
            assert(pct as int == sv[j as int].1 * 1000 / total);
            assert(pct <= 1000);
        }
        let row = CategoryTotal {
            category: sorted[j].0.clone(),
            total_cents: t,
            percentage_tenths: pct as u64,
        };
        let ghost old_out = cats_vview(out@);
        let ghost rowv = row@;
        out.push(row);
        proof {
            assert(cats_vview(out@) =~= old_out.push(rowv));
            assert(rowv == cats_of(sv, total)[j as int]);
            assert(cats_vview(out@) =~= cats_of(sv, total).take(j + 1));
        }
        j = j + 1;
    }
    proof {
        assert(cats_of(sv, total).take(m as int) =~= cats_of(sv, total));
    }
    out
}

/// Computes the top merchants: grouped by merchant key, sorted descending by
/// total, at most five rows.
pub fn find_top_merchants(transactions: &Vec<Transaction>) -> (r: Vec<MerchantTotal>)
    requires
        forall|i: int|
            0 <= i < transactions@.len() ==> (#[trigger] transactions@[i])@.amount_cents
                <= MAX_CENTS as int,
    ensures
        merchs_vview(r@) == spec_top_merchants(txs_view(transactions@)),
{
    let ghost tv = txs_view(transactions@);
    let n = transactions.len();
    let mut pairs: Vec<(String, u64)> = Vec::new();
    let mut i: usize = 0;
    while i < n
        invariant
            i <= n,
            n == transactions@.len(),
            tv == txs_view(transactions@),
            forall|k: int|
                0 <= k < transactions@.len() ==> (#[trigger] transactions@[k])@.amount_cents
                    <= MAX_CENTS as int,
            pview(pairs@) =~= merch_pairs(tv).take(i as int),
            forall|k: int| 0 <= k < pairs@.len() ==> (#[trigger] pairs@[k]).1 <= MAX_CENTS,
        decreases n - i,
    {
        proof {
            assert(tv[i as int] == transactions@[i as int]@);
        }
        let key = extract_merchant_name(transactions[i].description.as_str());
        let ghost keyv = key@;
        let ghost old_p = pview(pairs@);
        pairs.push((key, transactions[i].amount_cents));
        proof {
            assert(pview(pairs@) =~= old_p.push((keyv, tv[i as int].amount_cents)));
            assert((keyv, tv[i as int].amount_cents) == merch_pairs(tv)[i as int]);
            assert(pview(pairs@) =~= merch_pairs(tv).take(i + 1));
        }
        i = i + 1;
    }
    proof {
        assert(merch_pairs(tv).take(n as int) =~= merch_pairs(tv));
    }
    let groups = group_pairs(&pairs);
    let sorted = sort_entries(&groups);
    let ghost sv = gview(sorted@);
    let m = sorted.len();
    let mut out: Vec<MerchantTotal> = Vec::new();
    let mut j: usize = 0;
    while j < m
        invariant
            j <= m,
            m == sorted@.len(),
            sv == gview(sorted@),
            merchs_vview(out@) =~= merchs_of(sv).take(j as int),
        decreases m - j,
    {
        let row = MerchantTotal {
            merchant: sorted[j].0.clone(),
            total_cents: sorted[j].1,
            count: sorted[j].2,
        };
        let ghost old_out = merchs_vview(out@);
        let ghost rowv = row@;
        out.push(row);
        proof {
            assert(merchs_vview(out@) =~= old_out.push(rowv));
            assert(rowv == merchs_of(sv)[j as int]);
            assert(merchs_vview(out@) =~= merchs_of(sv).take(j + 1));
        }
        j = j + 1;
    }
    proof {
        assert(merchs_of(sv).take(m as int) =~= merchs_of(sv));
    }
    out.truncate(5);
    proof {
        if merchs_of(sv).len() <= 5 {
            assert(merchs_vview(out@) =~= merchs_of(sv));
        } else {
            assert(merchs_vview(out@) =~= merchs_of(sv).take(5));
        }
    }
    out
}

/// Sum of the percentage-tenths of category rows.
pub open spec fn sum_pct(cats: Seq<CategoryTotalView>) -> int
    decreases cats.len(),
{
    if cats.len() == 0 {
        0
    } else {
        cats[0].percentage_tenths + sum_pct(cats.drop_first())
    }
}

pub proof fn lemma_cats_of_pct(gs: Seq<(Seq<char>, int, int)>, total: int)
    ensures
        sum_pct(cats_of(gs, total)) == sum_pct_ents(gs, total),
    decreases gs.len(),
{
    if gs.len() > 0 {
        lemma_cats_of_pct(gs.drop_first(), total);
        assert(cats_of(gs, total).drop_first() =~= cats_of(gs.drop_first(), total));
        assert(cats_of(gs, total)[0].percentage_tenths == gs[0].1 * 1000 / total);
    }
}

/// The scaled percentage sum brackets the scaled amount sum: floor division
/// loses less than one tenth of a percent per row.
pub proof fn lemma_pct_ents_bounds(gs: Seq<(Seq<char>, int, int)>, total: int)
    requires
        total >= 1,
        forall|i: int| 0 <= i < gs.len() ==> (#[trigger] gs[i]).1 >= 0,
    ensures
        total * sum_pct_ents(gs, total) <= 1000 * sum_t(gs),
        total * sum_pct_ents(gs, total) >= 1000 * sum_t(gs) - total * gs.len(),
    decreases gs.len(),
{
    if gs.len() == 0 {
        assert(total * 0 == 0) by (nonlinear_arith);
    } else {
        assert(forall|i: int|
            0 <= i < gs.drop_first().len() ==> (#[trigger] gs.drop_first()[i]) == gs[i + 1]);
        lemma_pct_ents_bounds(gs.drop_first(), total);
        let p0 = gs[0].1 * 1000 / total;
        let s_rest = sum_pct_ents(gs.drop_first(), total);
        vstd::arithmetic::div_mod::lemma_fundamental_div_mod(gs[0].1 * 1000, total);
        assert(gs[0].1 * 1000 == total * p0 + (gs[0].1 * 1000) % total);
        assert(0 <= (gs[0].1 * 1000) % total < total);
        assert(sum_pct_ents(gs, total) == p0 + s_rest);
        assert(sum_t(gs) == gs[0].1 + sum_t(gs.drop_first()));
        vstd::arithmetic::mul::lemma_mul_is_distributive_add(total, p0, s_rest);
        assert(total * (p0 + s_rest) == total * p0 + total * s_rest);
        vstd::arithmetic::mul::lemma_mul_is_distributive_add(
            total,
            1000 * gs[0].1,
            1000 * sum_t(gs.drop_first()),
        );
        assert(1000 * sum_t(gs) == 1000 * gs[0].1 + 1000 * sum_t(gs.drop_first()));
        vstd::arithmetic::mul::lemma_mul_is_distributive_add(
            total,
            gs.drop_first().len() as int,
            1,
        );
        assert(total * (gs.drop_first().len() + 1) == total * gs.drop_first().len() + total * 1);
        assert(total * 1 == total) by (nonlinear_arith);
        assert(gs.len() as int == gs.drop_first().len() + 1);
    }
}

/// Whenever at least one category is present and the overall total is
/// positive, the category percentages sum to the whole, up to the tenths
/// dropped by rounding: between `1000 - rows` and `1000` tenths of a percent.
pub proof fn lemma_percentages_sum(txs: Seq<TransactionView>, total: int)
    requires
        forall|i: int| 0 <= i < txs.len() ==> (#[trigger] txs[i]).category is Some,
        forall|i: int| 0 <= i < txs.len() ==> (#[trigger] txs[i]).amount_cents >= 0,
        total == crate::model::sum_amounts(txs),
        total >= 1,
    ensures
        ({
            let cats = spec_calculate_categories(txs, total);
            1000 - cats.len() <= sum_pct(cats) <= 1000
        }),
{
    let ps = cat_pairs(txs);
    let groups = group_by_key(ps);
    let sorted = sort_ents(groups);
    let cats = spec_calculate_categories(txs, total);
    lemma_cat_pairs_sum(txs);
    lemma_group_nonneg(ps);
    lemma_group_sums(ps);
    lemma_sort_ents_props(groups, total);
    assert forall|k: int| 0 <= k < sorted.len() implies (#[trigger] sorted[k]).1 >= 0 by {
        let j = choose|j: int| 0 <= j < groups.len() && sorted[k] == groups[j];
    }
    lemma_pct_ents_bounds(sorted, total);
    lemma_cats_of_pct(sorted, total);
    let s = sum_pct(cats);
    let n = cats.len() as int;
    assert(sum_t(sorted) == total);
    assert(total * s <= 1000 * total);
    assert(total * s >= 1000 * total - total * n);
    assert(s <= 1000) by (nonlinear_arith)
        requires
            total >= 1,
            total * s <= 1000 * total,
    ;
    assert(s >= 1000 - n) by (nonlinear_arith)
        requires
            total >= 1,
            total * s >= 1000 * total - total * n,
    ;
}

/// The merchant list never exceeds five rows and is sorted descending by
/// total.
pub proof fn lemma_top_merchants_sorted(txs: Seq<TransactionView>)
    ensures
        spec_top_merchants(txs).len() <= 5,
        forall|i: int, j: int|
            0 <= i < j < spec_top_merchants(txs).len() ==> (#[trigger] spec_top_merchants(
                txs,
            )[i]).total_cents >= (#[trigger] spec_top_merchants(txs)[j]).total_cents,
{
    let sorted = sort_ents(group_by_key(merch_pairs(txs)));
    lemma_sort_ents_props(group_by_key(merch_pairs(txs)), 1);
    let m = merchs_of(sorted);
    assert(forall|k: int| 0 <= k < m.len() ==> (#[trigger] m[k]).total_cents == sorted[k].1);
}

} // verus!
