//! Fee validation: decides whether the funds attached to a creation request
//! exactly cover the required creation fee plus the required gift, across the
//! three denomination-overlap cases.

use vstd::prelude::*;
use crate::aggregate::{aggregate_coins, spec_aggregate};
use crate::coin::{
    has_denom, lemma_total_absent, lemma_total_add, lemma_total_push, lemma_total_take_le,
    lemma_total_unique, total_in_denom, unique_denoms, Coin, CoinV,
};
use crate::error::ContractError;

verus! {

/// Checks the gift legs outside the fee denomination, in gift order: each must
/// be attached in exactly its required amount. Returns the first failure.
pub open spec fn check_gift_legs(
    gift: Seq<CoinV>,
    funds: Seq<CoinV>,
    fee_denom: Seq<char>,
) -> Option<ContractError>
    decreases gift.len(),
{
    if gift.len() == 0 {
        None
    } else if gift[0].denom == fee_denom {
        check_gift_legs(gift.skip(1), funds, fee_denom)
    } else if total_in_denom(funds, gift[0].denom) > u128::MAX as int {
        Some(ContractError::ArithmeticOverflow)
    } else if total_in_denom(funds, gift[0].denom) != gift[0].amount {
        Some(ContractError::GiftFeeNotPaid)
    } else {
        check_gift_legs(gift.skip(1), funds, fee_denom)
    }
}

/// The outcome the fee validator owes for the given required fee, required
/// gift set, and attached funds. On success it yields the aggregated required
/// total, the sum of the fee and the gift.
pub open spec fn spec_validate_fees(fee: CoinV, gift: Seq<CoinV>, funds: Seq<CoinV>) -> Result<
    Seq<CoinV>,
    ContractError,
> {
    let fd = fee.denom;
    let paid = total_in_denom(funds, fd);
    if has_denom(gift, fd) {
        if gift.len() == 1 {
            let required = fee.amount + gift[0].amount;
            if required > u128::MAX as int {
                Err(ContractError::ArithmeticOverflow)
            } else if paid > u128::MAX as int {
                Err(ContractError::ArithmeticOverflow)
            } else if paid != required {
                Err(ContractError::InvalidProposalCreationFee {
                    amount: paid as u128,
                    expected: required as u128,
                })
            } else {
                Ok(spec_aggregate(seq![fee] + gift))
            }
        } else {
            if paid > u128::MAX as int {
                Err(ContractError::ArithmeticOverflow)
            } else if paid < fee.amount {
                Err(ContractError::InvalidProposalCreationFee {
                    amount: paid as u128,
                    expected: fee.amount as u128,
                })
            } else {
                let excess = paid - fee.amount;
                let gift_required = total_in_denom(gift, fd);
                if excess < gift_required {
                    Err(ContractError::GiftFeeNotPaid)
                } else if excess > gift_required {
                    Err(ContractError::ExtraFundsSent)
                } else {
                    match check_gift_legs(gift, funds, fd) {
                        Some(e) => Err(e),
                        None => Ok(spec_aggregate(seq![fee] + gift)),
                    }
                }
            }
        }
    } else {
        if paid > u128::MAX as int {
            Err(ContractError::ArithmeticOverflow)
        } else if paid != fee.amount {
            Err(ContractError::InvalidProposalCreationFee {
                amount: paid as u128,
                expected: fee.amount as u128,
            })
        } else {
            match check_gift_legs(gift, funds, fd) {
                Some(e) => Err(e),
                None => Ok(spec_aggregate(seq![fee] + gift)),
            }
        }
    }
}

/// The mathematical image of an executable coin-list result.
pub open spec fn coins_result_view(r: Result<Vec<Coin>, ContractError>) -> Result<
    Seq<CoinV>,
    ContractError,
> {
    match r {
        Ok(v) => Ok(v.deep_view()),
        Err(e) => Err(e),
    }
}

/// Sums the attached funds carried in the given denomination.
pub fn get_paid_proposal_fee_amount(funds: &Vec<Coin>, proposal_fee_denom: &String) -> (r: Result<
    u128,
    ContractError,
>)
    ensures
        match r {
            Ok(a) => a as int == total_in_denom(funds.deep_view(), proposal_fee_denom@),
            Err(e) => e == ContractError::ArithmeticOverflow && total_in_denom(
                funds.deep_view(),
                proposal_fee_denom@,
            ) > u128::MAX as int,
        },
{
    let ghost fv = funds.deep_view();
    let ghost d = proposal_fee_denom@;
    proof {
        crate::aggregate::lemma_vec_amounts_bounded(funds);
        assert(fv.take(0) =~= Seq::<CoinV>::empty());
    }
    let mut sum: u128 = 0;
    let mut i: usize = 0;
    while i < funds.len()
        invariant
            i <= funds.len(),
            fv == funds.deep_view(),
            crate::coin::amounts_bounded(fv),
            d == proposal_fee_denom@,
            sum as int == total_in_denom(fv.take(i as int), d),
        decreases funds.len() - i,
    {
        proof {
            assert(funds@[i as int]@ == fv[i as int]);
            assert(fv.take(i + 1) =~= fv.take(i as int).push(fv[i as int]));
            lemma_total_push(fv.take(i as int), fv[i as int], d);
        }
        if funds[i].denom == *proposal_fee_denom {
            match sum.checked_add(funds[i].amount) {
                Some(s) => {
                    sum = s;
                },
                None => {
                    proof {
                        lemma_total_take_le(fv, i + 1, d);
                    }
                    return Err(ContractError::ArithmeticOverflow);
                },
            }
        }
        i = i + 1;
    }
    proof {
        assert(fv.take(funds.len() as int) =~= fv);
    }
    Ok(sum)
}

/// Validates that the proposal creation fee and the gift are paid exactly by
/// the attached funds, and returns the aggregated required total.
pub fn validate_fees_are_paid(
    proposal_fee: &Coin,
    gift_fee: &Vec<Coin>,
    funds: &Vec<Coin>,
) -> (r: Result<Vec<Coin>, ContractError>)
    requires
        unique_denoms(gift_fee.deep_view()),
    ensures
        coins_result_view(r) == spec_validate_fees(
            proposal_fee@,
            gift_fee.deep_view(),
            funds.deep_view(),
        ),
{
    let ghost fee = proposal_fee@;
    let ghost gv = gift_fee.deep_view();
    let ghost fv = funds.deep_view();
    let ghost fd = fee.denom;
    proof {
        crate::aggregate::lemma_vec_amounts_bounded(gift_fee);
        crate::aggregate::lemma_vec_amounts_bounded(funds);
    }
    let fee_denom = &proposal_fee.denom;

    // Locate the gift entry carrying the fee denomination, if any.
    let mut gift_at_fee_denom: Option<usize> = None;
    let mut i: usize = 0;
    while i < gift_fee.len()
        invariant
            i <= gift_fee.len(),
            gv == gift_fee.deep_view(),
            fd == fee_denom@,
            match gift_at_fee_denom {
                Some(k) => k < i && gv[k as int].denom == fd,
                None => forall|k: int| 0 <= k < i ==> #[trigger] gv[k].denom != fd,
            },
        decreases gift_fee.len() - i,
    {
        proof {
            assert(gift_fee@[i as int]@ == gv[i as int]);
        }
        if gift_at_fee_denom.is_none() && gift_fee[i].denom == *fee_denom {
            gift_at_fee_denom = Some(i);
        }
        i = i + 1;
    }

    match gift_at_fee_denom {
        Some(gi) => {
            proof {
                assert(has_denom(gv, fd));
            }
            if gift_fee.len() == 1 {
                proof {
                    assert(gi == 0);
                    assert(gift_fee@[0]@ == gv[0]);
                }
                let required = match proposal_fee.amount.checked_add(gift_fee[0].amount) {
                    Some(t) => t,
                    None => {
                        return Err(ContractError::ArithmeticOverflow);
                    },
                };
                let paid = match get_paid_proposal_fee_amount(funds, fee_denom) {
                    Ok(p) => p,
                    Err(e) => {
                        return Err(e);
                    },
                };
                if paid != required {
                    return Err(ContractError::InvalidProposalCreationFee {
                        amount: paid,
                        expected: required,
                    });
                }
                proof {
                    assert forall|d: Seq<char>|
                        total_in_denom(seq![fee] + gv, d) <= u128::MAX as int by {
                        lemma_fee_gift_total(fee, gv, d);
                        if d == fd {
                            lemma_total_unique(gv, 0);
                        } else {
                            if has_denom(gv, d) {
                                let w = choose|w: int| 0 <= w < gv.len() && gv[w].denom == d;
                                lemma_total_unique(gv, w);
                            } else {
                                lemma_total_absent(gv, d);
                            }
                        }
                    }
                }
                build_required_total(proposal_fee, gift_fee, funds)
            } else {
                let paid = match get_paid_proposal_fee_amount(funds, fee_denom) {
                    Ok(p) => p,
                    Err(e) => {
                        return Err(e);
                    },
                };
                if paid < proposal_fee.amount {
                    return Err(ContractError::InvalidProposalCreationFee {
                        amount: paid,
                        expected: proposal_fee.amount,
                    });
                }
                let excess = paid - proposal_fee.amount;
                let gift_required = gift_fee[gi].amount;
                proof {
                    lemma_total_unique(gv, gi as int);
                    assert(gift_fee@[gi as int]@ == gv[gi as int]);
                }
                if excess < gift_required {
                    return Err(ContractError::GiftFeeNotPaid);
                }
                if excess > gift_required {
                    return Err(ContractError::ExtraFundsSent);
                }
                if let Some(e) = check_legs(gift_fee, funds, fee_denom) {
                    return Err(e);
                }
                proof {
                    assert forall|d: Seq<char>|
                        total_in_denom(seq![fee] + gv, d) <= u128::MAX as int by {
                        lemma_fee_gift_total(fee, gv, d);
                        if d == fd {
                            lemma_total_unique(gv, gi as int);
                            assert(fee.amount + total_in_denom(gv, fd) == paid as int);
                        } else {
                            if has_denom(gv, d) {
                                let w = choose|w: int| 0 <= w < gv.len() && gv[w].denom == d;
                                lemma_total_unique(gv, w);
                            } else {
                                lemma_total_absent(gv, d);
                            }
                        }
                    }
                }
                build_required_total(proposal_fee, gift_fee, funds)
            }
        },
        None => {
            proof {
                assert(!has_denom(gv, fd));
            }
            let paid = match get_paid_proposal_fee_amount(funds, fee_denom) {
                Ok(p) => p,
                Err(e) => {
                    return Err(e);
                },
            };
            if paid != proposal_fee.amount {
                return Err(ContractError::InvalidProposalCreationFee {
                    amount: paid,
                    expected: proposal_fee.amount,
                });
            }
            if let Some(e) = check_legs(gift_fee, funds, fee_denom) {
                return Err(e);
            }
            proof {
                assert forall|d: Seq<char>|
                    total_in_denom(seq![fee] + gv, d) <= u128::MAX as int by {
                    lemma_fee_gift_total(fee, gv, d);
                    if d == fd {
                        lemma_total_absent(gv, fd);
                    } else {
                        if has_denom(gv, d) {
                            let w = choose|w: int| 0 <= w < gv.len() && gv[w].denom == d;
                            lemma_total_unique(gv, w);
                        } else {
                            lemma_total_absent(gv, d);
                        }
                    }
                }
            }
            build_required_total(proposal_fee, gift_fee, funds)
        },
    }
}

/// Validates that every attached denomination belongs to the required total:
/// the user may not send any coin beyond the proposal and gift fees.
pub fn validate_no_additional_funds_sent_with_proposal_creation(
    funds: &Vec<Coin>,
    total_fees: &Vec<Coin>,
) -> (r: Result<(), ContractError>)
    ensures
        match r {
            Ok(_) => forall|i: int|
                0 <= i < funds.deep_view().len() ==> has_denom(
                    total_fees.deep_view(),
                    (#[trigger] funds.deep_view()[i]).denom,
                ),
            Err(e) => e == ContractError::ExtraFundsSent && exists|i: int|
                0 <= i < funds.deep_view().len() && !has_denom(
                    total_fees.deep_view(),
                    (#[trigger] funds.deep_view()[i]).denom,
                ),
        },
{
    let ghost fv = funds.deep_view();
    let ghost tv = total_fees.deep_view();
    let mut i: usize = 0;
    while i < funds.len()
        invariant
            i <= funds.len(),
            fv == funds.deep_view(),
            tv == total_fees.deep_view(),
            forall|k: int| 0 <= k < i ==> has_denom(tv, (#[trigger] fv[k]).denom),
        decreases funds.len() - i,
    {
        proof {
            assert(funds@[i as int]@ == fv[i as int]);
        }
        let mut found = false;
        let mut j: usize = 0;
        while j < total_fees.len()
            invariant
                j <= total_fees.len(),
                tv == total_fees.deep_view(),
                fv == funds.deep_view(),
                i < funds.len(),
                found <==> exists|k: int| 0 <= k < j && (#[trigger] tv[k]).denom == fv[
                    i as int].denom,
            decreases total_fees.len() - j,
        {
            proof {
                assert(total_fees@[j as int]@ == tv[j as int]);
            }
            if total_fees[j].denom == funds[i].denom {
                found = true;
            }
            j = j + 1;
        }
        if !found {
            return Err(ContractError::ExtraFundsSent);
        }
        i = i + 1;
    }
    Ok(())
}

/// Splits the required total per denomination into the fee's contribution and
/// the gift's contribution.
proof fn lemma_fee_gift_total(fee: CoinV, gv: Seq<CoinV>, d: Seq<char>)
    ensures
        total_in_denom(seq![fee] + gv, d) == (if fee.denom == d {
            fee.amount
        } else {
            0
        }) + total_in_denom(gv, d),
{
    lemma_total_add(seq![fee], gv, d);
    assert(seq![fee][0] == fee);
    assert(seq![fee].skip(1) =~= Seq::<CoinV>::empty());
    assert(total_in_denom(seq![fee].skip(1), d) == 0);
}

/// Walks the gift legs outside the fee denomination in order and reports the
/// first leg whose attached amount is not exactly the required amount.
fn check_legs(gift_fee: &Vec<Coin>, funds: &Vec<Coin>, fee_denom: &String) -> (r: Option<
    ContractError,
>)
    ensures
        r == check_gift_legs(gift_fee.deep_view(), funds.deep_view(), fee_denom@),
{
    let ghost gv = gift_fee.deep_view();
    let ghost fv = funds.deep_view();
    let ghost fd = fee_denom@;
    proof {
        assert(gv.skip(0) =~= gv);
    }
    let mut k: usize = 0;
    while k < gift_fee.len()
        invariant
            k <= gift_fee.len(),
            gv == gift_fee.deep_view(),
            fv == funds.deep_view(),
            fd == fee_denom@,
            check_gift_legs(gv, fv, fd) == check_gift_legs(gv.skip(k as int), fv, fd),
        decreases gift_fee.len() - k,
    {
        proof {
            assert(gift_fee@[k as int]@ == gv[k as int]);
            assert(gv.skip(k as int)[0] == gv[k as int]);
            assert(gv.skip(k as int).skip(1) =~= gv.skip(k + 1));
        }
        if !(gift_fee[k].denom == *fee_denom) {
            match get_paid_proposal_fee_amount(funds, &gift_fee[k].denom) {
                Ok(paid_k) => {
                    if paid_k != gift_fee[k].amount {
                        return Some(ContractError::GiftFeeNotPaid);
                    }
                },
                Err(_) => {
                    return Some(ContractError::ArithmeticOverflow);
                },
            }
        }
        k = k + 1;
    }
    proof {
        assert(gv.skip(gift_fee.len() as int) =~= Seq::<CoinV>::empty());
    }
    None
}

/// Aggregates the fee with the gift into the required total. Callers
/// establish that no per-denomination sum can overflow.
fn build_required_total(proposal_fee: &Coin, gift_fee: &Vec<Coin>, funds: &Vec<Coin>) -> (r:
    Result<Vec<Coin>, ContractError>)
    requires
        forall|d: Seq<char>|
            total_in_denom(
                seq![proposal_fee@] + gift_fee.deep_view(),
                d,
            ) <= u128::MAX as int,
    ensures
        r is Ok,
        coins_result_view(r) == Ok::<Seq<CoinV>, ContractError>(
            spec_aggregate(seq![proposal_fee@] + gift_fee.deep_view()),
        ),
{
    let ghost fee = proposal_fee@;
    let ghost gv = gift_fee.deep_view();
    let mut all: Vec<Coin> = Vec::new();
    all.push(proposal_fee.clone());
    proof {
        assert(all.deep_view() =~= seq![fee] + gv.take(0));
    }
    let mut k: usize = 0;
    while k < gift_fee.len()
        invariant
            k <= gift_fee.len(),
            gv == gift_fee.deep_view(),
            fee == proposal_fee@,
            all.deep_view() == seq![fee] + gv.take(k as int),
        decreases gift_fee.len() - k,
    {
        let ghost prev = all.deep_view();
        proof {
            assert(gift_fee@[k as int]@ == gv[k as int]);
        }
        all.push(gift_fee[k].clone());
        proof {
            assert forall|t: int|
                0 <= t < all.deep_view().len() implies all.deep_view()[t] == prev.push(
                gv[k as int],
            )[t] by {
                assert(all.deep_view()[t] == all@[t].deep_view());
            }
            assert(all.deep_view() =~= prev.push(gv[k as int]));
            assert(all.deep_view() =~= seq![fee] + gv.take(k + 1));
        }
        k = k + 1;
    }
    proof {
        assert(gv.take(gift_fee.len() as int) =~= gv);
        assert(all.deep_view() == seq![fee] + gv);
    }
    match aggregate_coins(all) {
        Ok(out) => Ok(out),
        Err(e) => {
            proof {
                assert(false);
            }
            Err(e)
        },
    }
}

} // verus!
