//! Coin aggregation: folding a coin list into a canonical form, sorted by
//! denomination with each denomination occurring once, amounts summed.

use vstd::prelude::*;
use crate::coin::{
    amounts_bounded, compare_denoms, denom_lt, has_denom, lemma_denom_lt_trans,
    lemma_denom_lt_trichotomy, lemma_total_absent, lemma_total_push, lemma_total_take_le,
    lemma_total_unique, total_in_denom, unique_denoms, Coin, CoinV, DenomOrder,
};
use crate::error::ContractError;

verus! {

/// Coins stand in strictly ascending denomination order; in particular no
/// denomination repeats.
pub open spec fn sorted_by_denom(s: Seq<CoinV>) -> bool {
    forall|i: int, j: int| 0 <= i < j < s.len() ==> denom_lt(s[i].denom, s[j].denom)
}

/// Merges one coin into an aggregated list, keeping the canonical order.
pub open spec fn agg_insert(acc: Seq<CoinV>, c: CoinV) -> Seq<CoinV>
    decreases acc.len(),
{
    if acc.len() == 0 {
        seq![c]
    } else if c.denom == acc[0].denom {
        seq![CoinV { denom: acc[0].denom, amount: acc[0].amount + c.amount }] + acc.skip(1)
    } else if denom_lt(c.denom, acc[0].denom) {
        seq![c] + acc
    } else {
        seq![acc[0]] + agg_insert(acc.skip(1), c)
    }
}

/// The canonical aggregation of a coin list.
pub open spec fn spec_aggregate(s: Seq<CoinV>) -> Seq<CoinV>
    decreases s.len(),
{
    if s.len() == 0 {
        Seq::empty()
    } else {
        agg_insert(spec_aggregate(s.drop_last()), s.last())
    }
}

pub proof fn lemma_sorted_unique(s: Seq<CoinV>)
    requires
        sorted_by_denom(s),
    ensures
        unique_denoms(s),
{
    assert forall|i: int, j: int| 0 <= i < j < s.len() implies s[i].denom != s[j].denom by {
        lemma_denom_lt_trichotomy(s[i].denom, s[j].denom);
    }
}

proof fn lemma_sorted_skip1(s: Seq<CoinV>)
    requires
        sorted_by_denom(s),
        s.len() > 0,
    ensures
        sorted_by_denom(s.skip(1)),
{
    assert forall|i: int, j: int|
        0 <= i < j < s.skip(1).len() implies denom_lt(s.skip(1)[i].denom, s.skip(1)[j].denom) by {
        assert(s.skip(1)[i] == s[i + 1]);
        assert(s.skip(1)[j] == s[j + 1]);
    }
}

pub proof fn lemma_agg_insert_denoms(acc: Seq<CoinV>, c: CoinV, d: Seq<char>)
    ensures
        has_denom(agg_insert(acc, c), d) <==> (has_denom(acc, d) || d == c.denom),
    decreases acc.len(),
{
    let r = agg_insert(acc, c);
    if acc.len() == 0 {
        assert(r[0] == c);
        if has_denom(r, d) {
            assert(d == c.denom);
        }
    } else if c.denom == acc[0].denom {
        assert(r[0].denom == acc[0].denom);
        if has_denom(acc, d) {
            let i = choose|i: int| 0 <= i < acc.len() && acc[i].denom == d;
            if i == 0 {
                assert(r[0].denom == d);
            } else {
                assert(r[i] == acc.skip(1)[i - 1]);
                assert(r[i].denom == d);
            }
        }
        if has_denom(r, d) {
            let i = choose|i: int| 0 <= i < r.len() && r[i].denom == d;
            if i == 0 {
                assert(acc[0].denom == d);
            } else {
                assert(r[i] == acc[i]);
            }
        }
    } else if denom_lt(c.denom, acc[0].denom) {
        assert(r[0] == c);
        if has_denom(acc, d) {
            let i = choose|i: int| 0 <= i < acc.len() && acc[i].denom == d;
            assert(r[i + 1] == acc[i]);
        }
        if has_denom(r, d) {
            let i = choose|i: int| 0 <= i < r.len() && r[i].denom == d;
            if i > 0 {
                assert(r[i] == acc[i - 1]);
            }
        }
    } else {
        lemma_agg_insert_denoms(acc.skip(1), c, d);
        let ri = agg_insert(acc.skip(1), c);
        assert(r[0] == acc[0]);
        assert(forall|k: int| 0 <= k < ri.len() ==> r[k + 1] == #[trigger] ri[k]);
        if has_denom(acc, d) {
            let i = choose|i: int| 0 <= i < acc.len() && acc[i].denom == d;
            if i > 0 {
                assert(acc.skip(1)[i - 1] == acc[i]);
                assert(has_denom(acc.skip(1), d));
                let k = choose|k: int| 0 <= k < ri.len() && ri[k].denom == d;
                assert(r[k + 1].denom == d);
            }
        }
        if d == c.denom {
            let k = choose|k: int| 0 <= k < ri.len() && ri[k].denom == d;
            assert(r[k + 1].denom == d);
        }
        if has_denom(r, d) {
            let i = choose|i: int| 0 <= i < r.len() && r[i].denom == d;
            if i == 0 {
                assert(acc[0].denom == d);
            } else {
                assert(ri[i - 1].denom == d);
                if has_denom(acc.skip(1), d) {
                    let k = choose|k: int| 0 <= k < acc.skip(1).len() && acc.skip(1)[k].denom == d;
                    assert(acc[k + 1] == acc.skip(1)[k]);
                }
            }
        }
    }
}

pub proof fn lemma_agg_insert_sorted(acc: Seq<CoinV>, c: CoinV)
    requires
        sorted_by_denom(acc),
    ensures
        sorted_by_denom(agg_insert(acc, c)),
    decreases acc.len(),
{
    let r = agg_insert(acc, c);
    if acc.len() == 0 {
    } else if c.denom == acc[0].denom {
        assert forall|i: int, j: int|
            0 <= i < j < r.len() implies denom_lt(r[i].denom, r[j].denom) by {
            if i == 0 {
                assert(r[j] == acc[j]);
            } else {
                assert(r[i] == acc[i]);
                assert(r[j] == acc[j]);
            }
        }
    } else if denom_lt(c.denom, acc[0].denom) {
        assert forall|i: int, j: int|
            0 <= i < j < r.len() implies denom_lt(r[i].denom, r[j].denom) by {
            if i == 0 {
                assert(r[j] == acc[j - 1]);
                if j > 1 {
                    lemma_denom_lt_trans(c.denom, acc[0].denom, acc[j - 1].denom);
                }
            } else {
                assert(r[i] == acc[i - 1]);
                assert(r[j] == acc[j - 1]);
            }
        }
    } else {
        lemma_denom_lt_trichotomy(c.denom, acc[0].denom);
        assert(denom_lt(acc[0].denom, c.denom));
        lemma_sorted_skip1(acc);
        lemma_agg_insert_sorted(acc.skip(1), c);
        let ri = agg_insert(acc.skip(1), c);
        assert forall|i: int, j: int|
            0 <= i < j < r.len() implies denom_lt(r[i].denom, r[j].denom) by {
            if i == 0 {
                assert(r[j] == ri[j - 1]);
                let d = ri[j - 1].denom;
                assert(has_denom(ri, d));
                lemma_agg_insert_denoms(acc.skip(1), c, d);
                if has_denom(acc.skip(1), d) {
                    let k = choose|k: int|
                        0 <= k < acc.skip(1).len() && acc.skip(1)[k].denom == d;
                    assert(acc[k + 1] == acc.skip(1)[k]);
                    assert(denom_lt(acc[0].denom, acc[k + 1].denom));
                }
            } else {
                assert(r[i] == ri[i - 1]);
                assert(r[j] == ri[j - 1]);
            }
        }
    }
}

pub proof fn lemma_agg_insert_total(acc: Seq<CoinV>, c: CoinV, d: Seq<char>)
    ensures
        total_in_denom(agg_insert(acc, c), d) == total_in_denom(acc, d) + (if d == c.denom {
            c.amount
        } else {
            0
        }),
    decreases acc.len(),
{
    let r = agg_insert(acc, c);
    if acc.len() == 0 {
        assert(r[0] == c);
        assert(r.skip(1) =~= Seq::<CoinV>::empty());
        assert(total_in_denom(r, d) == (if r[0].denom == d {
            r[0].amount
        } else {
            0
        }) + total_in_denom(r.skip(1), d));
        assert(total_in_denom(r.skip(1), d) == 0);
        assert(total_in_denom(acc, d) == 0);
    } else {
        assert(r.len() > 0);
        assert(total_in_denom(r, d) == (if r[0].denom == d {
            r[0].amount
        } else {
            0
        }) + total_in_denom(r.skip(1), d));
        assert(total_in_denom(acc, d) == (if acc[0].denom == d {
            acc[0].amount
        } else {
            0
        }) + total_in_denom(acc.skip(1), d));
        if c.denom == acc[0].denom {
            assert(r[0] == CoinV { denom: acc[0].denom, amount: acc[0].amount + c.amount });
            assert(r.skip(1) =~= acc.skip(1));
        } else if denom_lt(c.denom, acc[0].denom) {
            assert(r[0] == c);
            assert(r.skip(1) =~= acc);
            lemma_denom_lt_trichotomy(c.denom, acc[0].denom);
        } else {
            lemma_agg_insert_total(acc.skip(1), c, d);
            assert(r[0] == acc[0]);
            assert(r.skip(1) =~= agg_insert(acc.skip(1), c));
            lemma_denom_lt_trichotomy(c.denom, acc[0].denom);
        }
    }
}

/// Inserting a coin whose denomination lies above the whole list appends it.
pub proof fn lemma_agg_insert_append(acc: Seq<CoinV>, c: CoinV)
    requires
        forall|i: int| 0 <= i < acc.len() ==> denom_lt(#[trigger] acc[i].denom, c.denom),
    ensures
        agg_insert(acc, c) == acc.push(c),
    decreases acc.len(),
{
    if acc.len() == 0 {
        assert(agg_insert(acc, c) =~= acc.push(c));
    } else {
        lemma_denom_lt_trichotomy(c.denom, acc[0].denom);
        assert(forall|i: int|
            0 <= i < acc.skip(1).len() ==> denom_lt(#[trigger] acc.skip(1)[i].denom, c.denom))
            by {
            assert(forall|i: int|
                0 <= i < acc.skip(1).len() ==> #[trigger] acc.skip(1)[i] == acc[i + 1]);
        }
        lemma_agg_insert_append(acc.skip(1), c);
        assert(agg_insert(acc, c) =~= acc.push(c));
    }
}

/// Merging a coin with the matching entry of an aggregated list updates that
/// entry in place.
pub proof fn lemma_agg_insert_merge(acc: Seq<CoinV>, c: CoinV, j: int)
    requires
        sorted_by_denom(acc),
        0 <= j < acc.len(),
        acc[j].denom == c.denom,
    ensures
        agg_insert(acc, c) == acc.update(
            j,
            CoinV { denom: acc[j].denom, amount: acc[j].amount + c.amount },
        ),
    decreases j,
{
    if j == 0 {
        assert(agg_insert(acc, c) =~= acc.update(
            0,
            CoinV { denom: acc[0].denom, amount: acc[0].amount + c.amount },
        ));
    } else {
        assert(denom_lt(acc[0].denom, acc[j].denom));
        lemma_denom_lt_trichotomy(c.denom, acc[0].denom);
        lemma_sorted_skip1(acc);
        assert(acc.skip(1)[j - 1] == acc[j]);
        lemma_agg_insert_merge(acc.skip(1), c, j - 1);
        assert(acc.skip(1).update(
            j - 1,
            CoinV { denom: acc[j].denom, amount: acc[j].amount + c.amount },
        ) =~= acc.update(j, CoinV { denom: acc[j].denom, amount: acc[j].amount + c.amount }).skip(
            1,
        ));
        assert(agg_insert(acc, c) =~= acc.update(
            j,
            CoinV { denom: acc[j].denom, amount: acc[j].amount + c.amount },
        ));
    }
}

/// Inserting a coin whose denomination is new places it at its ordered
/// position.
pub proof fn lemma_agg_insert_place(acc: Seq<CoinV>, c: CoinV, j: int)
    requires
        sorted_by_denom(acc),
        0 <= j <= acc.len(),
        forall|k: int| 0 <= k < j ==> denom_lt(#[trigger] acc[k].denom, c.denom),
        j < acc.len() ==> denom_lt(c.denom, acc[j].denom),
    ensures
        agg_insert(acc, c) == acc.insert(j, c),
    decreases j,
{
    if j == acc.len() {
        lemma_agg_insert_append(acc, c);
        assert(acc.push(c) =~= acc.insert(j, c));
    } else if j == 0 {
        lemma_denom_lt_trichotomy(c.denom, acc[0].denom);
        assert(agg_insert(acc, c) =~= acc.insert(0, c));
    } else {
        lemma_denom_lt_trichotomy(c.denom, acc[0].denom);
        lemma_sorted_skip1(acc);
        assert(forall|k: int|
            0 <= k < j - 1 ==> denom_lt(#[trigger] acc.skip(1)[k].denom, c.denom)) by {
            assert(forall|k: int|
                0 <= k < acc.skip(1).len() ==> #[trigger] acc.skip(1)[k] == acc[k + 1]);
        }
        assert(acc.skip(1)[j - 1] == acc[j]);
        lemma_agg_insert_place(acc.skip(1), c, j - 1);
        assert(acc.skip(1).insert(j - 1, c) =~= acc.insert(j, c).skip(1));
        assert(agg_insert(acc, c) =~= acc.insert(j, c));
    }
}

pub proof fn lemma_aggregate_sorted(s: Seq<CoinV>)
    ensures
        sorted_by_denom(spec_aggregate(s)),
    decreases s.len(),
{
    if s.len() > 0 {
        lemma_aggregate_sorted(s.drop_last());
        lemma_agg_insert_sorted(spec_aggregate(s.drop_last()), s.last());
    }
}

pub proof fn lemma_aggregate_total(s: Seq<CoinV>, d: Seq<char>)
    ensures
        total_in_denom(spec_aggregate(s), d) == total_in_denom(s, d),
    decreases s.len(),
{
    if s.len() == 0 {
    } else {
        lemma_aggregate_total(s.drop_last(), d);
        lemma_agg_insert_total(spec_aggregate(s.drop_last()), s.last(), d);
        assert(s =~= s.drop_last().push(s.last()));
        lemma_total_push(s.drop_last(), s.last(), d);
    }
}

pub proof fn lemma_aggregate_denoms(s: Seq<CoinV>, d: Seq<char>)
    ensures
        has_denom(spec_aggregate(s), d) <==> has_denom(s, d),
    decreases s.len(),
{
    if s.len() == 0 {
    } else {
        lemma_aggregate_denoms(s.drop_last(), d);
        lemma_agg_insert_denoms(spec_aggregate(s.drop_last()), s.last(), d);
        if has_denom(s, d) {
            let i = choose|i: int| 0 <= i < s.len() && s[i].denom == d;
            if i < s.len() - 1 {
                assert(s.drop_last()[i] == s[i]);
            }
        }
        if has_denom(s.drop_last(), d) {
            let i = choose|i: int| 0 <= i < s.drop_last().len() && s.drop_last()[i].denom == d;
            assert(s[i].denom == d);
        }
        if s.last().denom == d {
            assert(s[s.len() - 1].denom == d);
        }
    }
}

/// An already canonical list aggregates to itself.
pub proof fn lemma_aggregate_of_sorted(s: Seq<CoinV>)
    requires
        sorted_by_denom(s),
    ensures
        spec_aggregate(s) == s,
    decreases s.len(),
{
    if s.len() == 0 {
        assert(spec_aggregate(s) =~= s);
    } else {
        let front = s.drop_last();
        assert(sorted_by_denom(front)) by {
            assert(forall|i: int| 0 <= i < front.len() ==> #[trigger] front[i] == s[i]);
        }
        lemma_aggregate_of_sorted(front);
        assert(forall|i: int|
            0 <= i < front.len() ==> denom_lt(#[trigger] front[i].denom, s.last().denom)) by {
            assert(forall|i: int| 0 <= i < front.len() ==> #[trigger] front[i] == s[i]);
        }
        lemma_agg_insert_append(front, s.last());
        assert(front.push(s.last()) =~= s);
    }
}

/// Aggregation is idempotent: aggregating an aggregated list changes nothing.
pub proof fn lemma_aggregate_idempotent(s: Seq<CoinV>)
    ensures
        spec_aggregate(spec_aggregate(s)) == spec_aggregate(s),
{
    lemma_aggregate_sorted(s);
    lemma_aggregate_of_sorted(spec_aggregate(s));
}

/// Unrolls the aggregation of a prefix by one coin.
pub proof fn lemma_aggregate_take_succ(s: Seq<CoinV>, i: int)
    requires
        0 <= i < s.len(),
    ensures
        spec_aggregate(s.take(i + 1)) == agg_insert(spec_aggregate(s.take(i)), s[i]),
{
    assert(s.take(i + 1).drop_last() =~= s.take(i));
    assert(s.take(i + 1).last() == s[i]);
}

/// Checks that a coin list stands in strictly ascending denomination order.
pub fn check_sorted_by_denom(coins: &Vec<Coin>) -> (r: bool)
    ensures
        r == sorted_by_denom(coins.deep_view()),
{
    let ghost cv = coins.deep_view();
    if coins.len() == 0 {
        return true;
    }
    let mut j: usize = 0;
    while j + 1 < coins.len()
        invariant
            j < coins.len(),
            cv == coins.deep_view(),
            sorted_by_denom(cv.take(j + 1)),
        decreases coins.len() - j,
    {
        proof {
            assert(coins@[j as int]@ == cv[j as int]);
            assert(coins@[j + 1]@ == cv[j + 1]);
        }
        let cmp = compare_denoms(coins[j].denom.as_str(), coins[j + 1].denom.as_str());
        if !matches!(cmp, DenomOrder::Less) {
            proof {
                assert(!denom_lt(cv[j as int].denom, cv[j + 1].denom));
            }
            return false;
        }
        proof {
            assert forall|a: int, b: int|
                0 <= a < b < j + 2 implies denom_lt(
                (#[trigger] cv.take(j + 2)[a]).denom,
                (#[trigger] cv.take(j + 2)[b]).denom,
            ) by {
                assert(cv.take(j + 2)[a] == cv[a]);
                assert(cv.take(j + 2)[b] == cv[b]);
                if b < j + 1 {
                    assert(cv.take(j + 1)[a] == cv[a]);
                    assert(cv.take(j + 1)[b] == cv[b]);
                    assert(denom_lt(cv[a].denom, cv[b].denom));
                } else {
                    if a < j {
                        assert(cv.take(j + 1)[a] == cv[a]);
                        assert(cv.take(j + 1)[j as int] == cv[j as int]);
                        assert(denom_lt(cv[a].denom, cv[j as int].denom));
                        lemma_denom_lt_trans(cv[a].denom, cv[j as int].denom, cv[j + 1].denom);
                    }
                }
            }
        }
        j = j + 1;
    }
    proof {
        assert(cv.take(j + 1) =~= cv);
    }
    true
}

/// The views of an executable coin list carry machine-bounded amounts.
pub proof fn lemma_vec_amounts_bounded(v: &Vec<Coin>)
    ensures
        amounts_bounded(v.deep_view()),
{
    assert forall|i: int|
        0 <= i < v.deep_view().len() implies 0 <= #[trigger] v.deep_view()[i].amount
        <= u128::MAX by {
        assert(v.deep_view()[i] == v@[i]@);
    }
}

/// Combines a coin list into its canonical form: denominations sorted
/// ascending, each present once, amounts summed with overflow checking.
pub fn aggregate_coins(coins: Vec<Coin>) -> (r: Result<Vec<Coin>, ContractError>)
    ensures
        match r {
            Ok(out) => out.deep_view() == spec_aggregate(coins.deep_view()) && (forall|
                d: Seq<char>,
            |
                total_in_denom(coins.deep_view(), d) <= u128::MAX as int),
            Err(e) => e == ContractError::ArithmeticOverflow && (exists|d: Seq<char>|
                total_in_denom(coins.deep_view(), d) > u128::MAX as int),
        },
{
    let ghost cv = coins.deep_view();
    proof {
        lemma_vec_amounts_bounded(&coins);
    }
    let mut acc: Vec<Coin> = Vec::new();
    proof {
        assert(cv.take(0) =~= Seq::<CoinV>::empty());
        assert(acc.deep_view() =~= Seq::<CoinV>::empty());
    }
    let mut idx: usize = 0;
    while idx < coins.len()
        invariant
            idx <= coins.len(),
            cv == coins.deep_view(),
            amounts_bounded(cv),
            acc.deep_view() == spec_aggregate(cv.take(idx as int)),
            sorted_by_denom(acc.deep_view()),
        decreases coins.len() - idx,
    {
        let ghost accv = acc.deep_view();
        let ghost cd = cv[idx as int].denom;
        proof {
            assert(coins@[idx as int]@ == cv[idx as int]);
        }
        let c = &coins[idx];
        let mut j: usize = 0;
        let mut scanning = true;
        while scanning
            invariant
                j <= acc.len(),
                accv == acc.deep_view(),
                cd == c@.denom,
                forall|k: int| 0 <= k < j ==> denom_lt(#[trigger] accv[k].denom, cd),
                !scanning ==> (j == acc.len() || !denom_lt(accv[j as int].denom, cd)),
            decreases acc.len() - j + (if scanning {
                1int
            } else {
                0int
            }),
        {
            if j < acc.len() {
                let cmp = compare_denoms(acc[j].denom.as_str(), c.denom.as_str());
                if matches!(cmp, DenomOrder::Less) {
                    proof {
                        assert(acc@[j as int]@ == accv[j as int]);
                    }
                    j = j + 1;
                } else {
                    scanning = false;
                }
            } else {
                scanning = false;
            }
        }
        if j == acc.len() {
            proof {
                lemma_agg_insert_append(accv, cv[idx as int]);
                lemma_aggregate_take_succ(cv, idx as int);
                lemma_agg_insert_sorted(accv, cv[idx as int]);
            }
            acc.push(c.clone());
            proof {
                assert(acc.deep_view() =~= accv.push(cv[idx as int]));
            }
        } else {
            let cmp = compare_denoms(acc[j].denom.as_str(), c.denom.as_str());
            proof {
                assert(acc@[j as int]@ == accv[j as int]);
            }
            if matches!(cmp, DenomOrder::Equal) {
                match acc[j].amount.checked_add(c.amount) {
                    Some(sum) => {
                        proof {
                            lemma_agg_insert_merge(accv, cv[idx as int], j as int);
                            lemma_aggregate_take_succ(cv, idx as int);
                            lemma_agg_insert_sorted(accv, cv[idx as int]);
                        }
                        let denom = acc[j].denom.clone();
                        acc.remove(j);
                        acc.insert(j, Coin { denom, amount: sum });
                        proof {
                            assert(acc.deep_view() =~= accv.update(
                                j as int,
                                CoinV {
                                    denom: accv[j as int].denom,
                                    amount: accv[j as int].amount + cv[idx as int].amount,
                                },
                            ));
                        }
                    },
                    None => {
                        proof {
                            lemma_sorted_unique(accv);
                            lemma_total_unique(accv, j as int);
                            lemma_aggregate_total(cv.take(idx as int), cd);
                            assert(cv.take(idx + 1) =~= cv.take(idx as int).push(cv[idx as int]));
                            lemma_total_push(cv.take(idx as int), cv[idx as int], cd);
                            lemma_total_take_le(cv, idx + 1, cd);
                            assert(total_in_denom(cv, cd) > u128::MAX as int);
                        }
                        return Err(ContractError::ArithmeticOverflow);
                    },
                }
            } else {
                proof {
                    lemma_agg_insert_place(accv, cv[idx as int], j as int);
                    lemma_aggregate_take_succ(cv, idx as int);
                    lemma_agg_insert_sorted(accv, cv[idx as int]);
                }
                acc.insert(j, c.clone());
                proof {
                    assert(acc.deep_view() =~= accv.insert(j as int, cv[idx as int]));
                }
            }
        }
        idx = idx + 1;
    }
    proof {
        assert(cv.take(coins.len() as int) =~= cv);
        lemma_vec_amounts_bounded(&acc);
        lemma_sorted_unique(acc.deep_view());
        assert forall|d: Seq<char>| total_in_denom(cv, d) <= u128::MAX as int by {
            lemma_aggregate_total(cv, d);
            if has_denom(acc.deep_view(), d) {
                let i = choose|i: int|
                    0 <= i < acc.deep_view().len() && acc.deep_view()[i].denom == d;
                lemma_total_unique(acc.deep_view(), i);
            } else {
                lemma_total_absent(acc.deep_view(), d);
            }
        }
    }
    Ok(acc)
}

} // verus!
