//! The proposal store and its lifecycle state machine: create, cancel, accept
//! ("yes") and decline ("no"), together with the counters and the derived
//! lookup relations. Every transition is a pure decision over the current
//! state; funds move only through the returned transfer instructions.

use vstd::prelude::*;
use crate::aggregate::{
    aggregate_coins, lemma_aggregate_sorted, lemma_sorted_unique, sorted_by_denom, spec_aggregate,
};
use crate::coin::{clone_coins, has_denom, total_in_denom, Coin, CoinV};
use crate::error::ContractError;
use crate::helpers::{
    spec_validate_fees, validate_fees_are_paid,
    validate_no_additional_funds_sent_with_proposal_creation,
};
use crate::index::ProposalIndexes;
use crate::state::{
    BankTransfer, BankTransferV, Config, Proposal, ProposalStatus, ProposalV,
    Status,
};

verus! {

/// Number of currently pending proposals in the store.
pub open spec fn pending_count(ps: Seq<ProposalV>) -> int
    decreases ps.len(),
{
    if ps.len() == 0 {
        0
    } else {
        pending_count(ps.drop_last()) + (if ps.last().status == ProposalStatus::Pending {
            1int
        } else {
            0int
        })
    }
}

/// Invariant of every stored proposal record.
pub open spec fn proposal_record_wf(p: ProposalV) -> bool {
    &&& p.proposer != p.receiver
    &&& sorted_by_denom(p.gift)
}

/// Whether some stored proposal carries the given id.
pub open spec fn has_id(ps: Seq<ProposalV>, id: u64) -> bool {
    exists|i: int| 0 <= i < ps.len() && ps[i].id == id
}

/// The position of the stored proposal carrying the given id.
pub open spec fn pos_of(ps: Seq<ProposalV>, id: u64) -> int {
    choose|i: int| 0 <= i < ps.len() && ps[i].id == id
}

/// The record a successful creation stores.
pub open spec fn new_proposal_view(
    fee: CoinV,
    id: u64,
    proposer: Seq<char>,
    receiver: Seq<char>,
    gift: Seq<CoinV>,
    title: Option<Seq<char>>,
    speech: Option<Seq<char>>,
    now: u64,
) -> ProposalV {
    ProposalV {
        id,
        proposer,
        receiver,
        gift,
        fee,
        title,
        speech,
        reply: None,
        status: ProposalStatus::Pending,
        created_at: now,
        replied_at: None,
    }
}

/// The record after the receiver's reply.
pub open spec fn replied_view(
    p: ProposalV,
    status: ProposalStatus,
    reply: Option<Seq<char>>,
    now: u64,
) -> ProposalV {
    ProposalV { status, reply, replied_at: Some(now), ..p }
}

/// What a successful creation owes, or the exact error it fails with,
/// evaluated in the order the checks run: self-proposal, gift aggregation,
/// fee validation, surplus denominations, id exhaustion.
pub open spec fn spec_create_outcome(
    fee: CoinV,
    sender: Seq<char>,
    receiver: Seq<char>,
    gift: Seq<CoinV>,
    funds: Seq<CoinV>,
    next_id: u64,
) -> Result<Seq<CoinV>, ContractError> {
    if sender == receiver {
        Err(ContractError::InvalidReceiver)
    } else if exists|d: Seq<char>| total_in_denom(gift, d) > u128::MAX as int {
        Err(ContractError::ArithmeticOverflow)
    } else {
        match spec_validate_fees(fee, spec_aggregate(gift), funds) {
            Err(e) => Err(e),
            Ok(total) => {
                if exists|i: int|
                    0 <= i < funds.len() && !has_denom(total, #[trigger] funds[i].denom) {
                    Err(ContractError::ExtraFundsSent)
                } else if next_id == u64::MAX {
                    Err(ContractError::ArithmeticOverflow)
                } else {
                    Ok(total)
                }
            },
        }
    }
}

/// The reason a cancellation is refused, or `None` when it is owed, in the
/// order the checks run.
pub open spec fn spec_cancel_check(
    ps: Seq<ProposalV>,
    sender: Seq<char>,
    id: u64,
    cancelled: u64,
) -> Option<ContractError> {
    if !has_id(ps, id) {
        Some(ContractError::NotFound)
    } else if ps[pos_of(ps, id)].proposer != sender {
        Some(ContractError::Unauthorized)
    } else if ps[pos_of(ps, id)].status != ProposalStatus::Pending {
        Some(
            ContractError::CancelProposalInvalidStatus {
                current_status: ps[pos_of(ps, id)].status,
            },
        )
    } else if cancelled == u64::MAX {
        Some(ContractError::ArithmeticOverflow)
    } else {
        None
    }
}

/// The reason a reply (accept or decline) is refused, or `None` when it is
/// owed, in the order the checks run.
pub open spec fn spec_respond_check(
    ps: Seq<ProposalV>,
    sender: Seq<char>,
    id: u64,
    counter: u64,
) -> Option<ContractError> {
    if !has_id(ps, id) {
        Some(ContractError::NotFound)
    } else if ps[pos_of(ps, id)].receiver != sender {
        Some(ContractError::Unauthorized)
    } else if counter == u64::MAX {
        Some(ContractError::ArithmeticOverflow)
    } else {
        None
    }
}

/// The transfers an acceptance emits: the fee to the owner (or back to the
/// proposer when ownership was renounced), and the gift, if any, to the
/// receiver.
pub open spec fn yes_transfers(p: ProposalV, owner: Option<Seq<char>>) -> Seq<BankTransferV> {
    let fee_to = match owner {
        Some(o) => o,
        None => p.proposer,
    };
    let fee_tr = BankTransferV { to_address: fee_to, amount: seq![p.fee] };
    if p.gift.len() > 0 {
        seq![fee_tr, BankTransferV { to_address: p.receiver, amount: p.gift }]
    } else {
        seq![fee_tr]
    }
}

/// The transfers a cancellation or a decline emits: the fee, and the gift if
/// any, back to the proposer.
pub open spec fn refund_transfers(p: ProposalV) -> Seq<BankTransferV> {
    let fee_tr = BankTransferV { to_address: p.proposer, amount: seq![p.fee] };
    if p.gift.len() > 0 {
        seq![fee_tr, BankTransferV { to_address: p.proposer, amount: p.gift }]
    } else {
        seq![fee_tr]
    }
}

/// Overflow-checked counter increment, returning the new value.
pub fn increment(counter: &mut u64) -> (r: Result<u64, ContractError>)
    ensures
        match r {
            Ok(v) => *old(counter) < u64::MAX && v == *old(counter) + 1 && *final(counter) == v,
            Err(e) => e == ContractError::ArithmeticOverflow && *old(counter) == u64::MAX
                && *final(counter) == *old(counter),
        },
{
    match counter.checked_add(1) {
        Some(v) => {
            *counter = v;
            Ok(v)
        },
        None => Err(ContractError::ArithmeticOverflow),
    }
}

/// The proposal store with its counters, configuration and lookup relations.
pub struct ProposalManager {
    pub config: Config,
    /// The current contract owner; `None` once ownership is renounced. Who may
    /// change it is decided by the host's ownership subsystem.
    pub owner: Option<String>,
    /// Stored proposals, in strictly ascending id order.
    pub proposals: Vec<Proposal>,
    pub indexes: ProposalIndexes,
    /// Total proposals ever created; also the next id to assign.
    pub total_created: u64,
    pub accepted: u64,
    pub declined: u64,
    pub cancelled: u64,
}

impl ProposalManager {
    /// The stored proposal views.
    pub open spec fn ps(self) -> Seq<ProposalV> {
        self.proposals.deep_view()
    }

    /// Well-formedness: ids strictly ascending and below the creation
    /// counter, each record well formed, and the lookup relations consistent.
    pub open spec fn wf(self) -> bool {
        &&& forall|i: int, j: int|
            0 <= i < j < self.ps().len() ==> #[trigger] self.ps()[i].id < #[trigger] self.ps()[j].id
        &&& forall|i: int|
            0 <= i < self.ps().len() ==> (#[trigger] self.ps()[i]).id < self.total_created
        &&& forall|i: int| 0 <= i < self.ps().len() ==> proposal_record_wf(#[trigger] self.ps()[i])
        &&& self.indexes.consistent_with(self.ps())
    }

    /// Every creation was followed by exactly one terminal transition or is
    /// still pending: the counters add up.
    pub open spec fn counters_consistent(self) -> bool {
        self.total_created as int == self.accepted + self.declined + self.cancelled
            + pending_count(self.ps())
    }

    /// A fresh store: no proposals, all counters zero.
    pub fn new(owner: Option<String>, successful_proposal_fee: Coin) -> (m: ProposalManager)
        ensures
            m.wf(),
            m.counters_consistent(),
            m.ps() == Seq::<ProposalV>::empty(),
            m.config@ == successful_proposal_fee@,
            m.owner == owner,
            m.total_created == 0,
            m.accepted == 0,
            m.declined == 0,
            m.cancelled == 0,
    {
        let m = ProposalManager {
            config: Config { successful_proposal_fee },
            owner,
            proposals: Vec::new(),
            indexes: ProposalIndexes::new(),
            total_created: 0,
            accepted: 0,
            declined: 0,
            cancelled: 0,
        };
        proof {
            assert(m.ps() =~= Seq::<ProposalV>::empty());
        }
        m
    }

    /// Finds the position of the proposal carrying `id`.
    fn find_proposal(&self, id: u64) -> (r: Option<usize>)
        requires
            self.wf(),
        ensures
            match r {
                Some(i) => i < self.ps().len() && self.ps()[i as int].id == id && has_id(
                    self.ps(),
                    id,
                ) && pos_of(self.ps(), id) == i as int,
                None => !has_id(self.ps(), id),
            },
    {
        let ghost ps = self.ps();
        let mut i: usize = 0;
        while i < self.proposals.len()
            invariant
                i <= self.proposals.len(),
                ps == self.ps(),
                self.wf(),
                forall|k: int| 0 <= k < i ==> (#[trigger] ps[k]).id != id,
            decreases self.proposals.len() - i,
        {
            proof {
                assert(self.proposals@[i as int]@ == ps[i as int]);
            }
            if self.proposals[i].id == id {
                proof {
                    assert(has_id(ps, id));
                    let j = pos_of(ps, id);
                    assert(0 <= j < ps.len() && ps[j].id == id);
                    if j < i as int {
                        assert(ps[j].id < ps[i as int].id);
                    }
                    if j > i as int {
                        assert(ps[i as int].id < ps[j].id);
                    }
                }
                return Some(i);
            }
            i = i + 1;
        }
        None
    }

    /// Creates a proposal: rejects self-proposals, aggregates the gift,
    /// validates the attached funds against the configured fee plus the gift,
    /// rejects surplus denominations, then stores the pending record under the
    /// next id and counts it.
    pub fn create_proposal(
        &mut self,
        sender: &String,
        title: Option<String>,
        speech: Option<String>,
        receiver: &String,
        gift: Vec<Coin>,
        funds: &Vec<Coin>,
        now: u64,
    ) -> (r: Result<u64, ContractError>)
        requires
            old(self).wf(),
        ensures
            final(self).wf(),
            old(self).counters_consistent() ==> final(self).counters_consistent(),
            match r {
                Ok(id) => spec_create_outcome(
                    old(self).config@,
                    sender@,
                    receiver@,
                    gift.deep_view(),
                    funds.deep_view(),
                    old(self).total_created,
                ) is Ok && id == old(self).total_created && final(self).ps() == old(self).ps().push(
                    new_proposal_view(
                        old(self).config@,
                        id,
                        sender@,
                        receiver@,
                        spec_aggregate(gift.deep_view()),
                        title.deep_view(),
                        speech.deep_view(),
                        now,
                    ),
                ) && final(self).total_created == old(self).total_created + 1 && final(self).accepted == old(self).accepted && final(self).declined == old(self).declined
                    && final(self).cancelled == old(self).cancelled && final(self).config == old(self).config && final(self).owner == old(self).owner,
                Err(e) => Err::<Seq<CoinV>, ContractError>(e) == spec_create_outcome(
                    old(self).config@,
                    sender@,
                    receiver@,
                    gift.deep_view(),
                    funds.deep_view(),
                    old(self).total_created,
                ) && *final(self) == *old(self),
            },
    {
        let ghost gv = gift.deep_view();
        if *sender == *receiver {
            return Err(ContractError::InvalidReceiver);
        }
        let gift_agg = match aggregate_coins(gift) {
            Ok(g) => g,
            Err(e) => {
                return Err(e);
            },
        };
        proof {
            lemma_aggregate_sorted(gv);
            lemma_sorted_unique(gift_agg.deep_view());
        }
        let total_fees = match validate_fees_are_paid(
            &self.config.successful_proposal_fee,
            &gift_agg,
            funds,
        ) {
            Ok(t) => t,
            Err(e) => {
                return Err(e);
            },
        };
        if let Err(e) = validate_no_additional_funds_sent_with_proposal_creation(
            funds,
            &total_fees,
        ) {
            return Err(e);
        }
        if self.total_created == u64::MAX {
            return Err(ContractError::ArithmeticOverflow);
        }
        let id = self.total_created;
        let proposal = Proposal {
            id,
            proposer: sender.clone(),
            receiver: receiver.clone(),
            gift: gift_agg,
            fee: self.config.successful_proposal_fee.clone(),
            title,
            speech,
            reply: None,
            status: ProposalStatus::Pending,
            created_at: now,
            replied_at: None,
        };
        let ghost pv = proposal@;
        let ghost pre_ps = self.ps();
        self.indexes.push_entries(&proposal);
        self.proposals.push(proposal);
        let _ = increment(&mut self.total_created);
        proof {
            assert forall|k: int|
                0 <= k < self.ps().len() implies self.ps()[k] == pre_ps.push(pv)[k] by {
                assert(self.ps()[k] == self.proposals@[k].deep_view());
            }
            assert(self.ps() =~= pre_ps.push(pv));
            assert(pv =~= new_proposal_view(
                old(self).config@,
                id,
                sender@,
                receiver@,
                spec_aggregate(gv),
                title.deep_view(),
                speech.deep_view(),
                now,
            ));
            assert forall|i: int, j: int|
                0 <= i < j < self.ps().len() implies #[trigger] self.ps()[i].id
                < #[trigger] self.ps()[j].id by {
                if j < pre_ps.len() {
                    assert(pre_ps[i].id < pre_ps[j].id);
                }
            }
            lemma_pending_push(pre_ps, pv);
            assert(pre_ps.push(pv).drop_last() =~= pre_ps);
        }
        Ok(id)
    }

    /// Cancels a pending proposal: only its proposer may do so, and only
    /// while it is pending. The record is deleted and the full escrow is
    /// refunded to the proposer.
    pub fn cancel_proposal(&mut self, sender: &String, id: u64) -> (r: Result<
        Vec<BankTransfer>,
        ContractError,
    >)
        requires
            old(self).wf(),
        ensures
            final(self).wf(),
            old(self).counters_consistent() ==> final(self).counters_consistent(),
            match r {
                Ok(transfers) => spec_cancel_check(old(self).ps(), sender@, id, old(self).cancelled)
                    is None && transfers.deep_view() == refund_transfers(
                    old(self).ps()[pos_of(old(self).ps(), id)],
                ) && final(self).ps() == old(self).ps().remove(pos_of(old(self).ps(), id)) && final(self).cancelled == old(self).cancelled + 1 && final(self).total_created == old(self).total_created && final(self).accepted == old(self).accepted && final(self).declined == old(self).declined && final(self).config == old(self).config && final(self).owner == old(self).owner,
                Err(e) => Some(e) == spec_cancel_check(
                    old(self).ps(),
                    sender@,
                    id,
                    old(self).cancelled,
                ) && *final(self) == *old(self),
            },
    {
        let ghost ps = self.ps();
        let pos = match self.find_proposal(id) {
            Some(i) => i,
            None => {
                return Err(ContractError::NotFound);
            },
        };
        proof {
            assert(self.proposals@[pos as int]@ == ps[pos as int]);
        }
        if !(self.proposals[pos].proposer == *sender) {
            return Err(ContractError::Unauthorized);
        }
        if !matches!(self.proposals[pos].status, ProposalStatus::Pending) {
            let current = self.proposals[pos].status;
            return Err(ContractError::CancelProposalInvalidStatus { current_status: current });
        }
        if self.cancelled == u64::MAX {
            return Err(ContractError::ArithmeticOverflow);
        }
        let transfers = build_refund_transfers(&self.proposals[pos]);
        self.indexes.remove_entries(pos);
        self.proposals.remove(pos);
        let _ = increment(&mut self.cancelled);
        proof {
            assert forall|k: int|
                0 <= k < self.ps().len() implies self.ps()[k] == ps.remove(pos as int)[k] by {
                assert(self.ps()[k] == self.proposals@[k].deep_view());
            }
            assert(self.ps() =~= ps.remove(pos as int));
            assert forall|i: int, j: int|
                0 <= i < j < self.ps().len() implies #[trigger] self.ps()[i].id
                < #[trigger] self.ps()[j].id by {
                let ri = if i < pos as int {
                    i
                } else {
                    i + 1
                };
                let rj = if j < pos as int {
                    j
                } else {
                    j + 1
                };
                assert(ps[ri].id < ps[rj].id);
            }
            lemma_pending_remove(ps, pos as int);
        }
        Ok(transfers)
    }

    /// Accepts a proposal: only the receiver may reply. The fee goes to the
    /// owner, or back to the proposer when ownership was renounced; the gift,
    /// if any, goes to the receiver; the record turns `Yes`.
    pub fn say_yes(&mut self, sender: &String, id: u64, reply: Option<String>, now: u64) -> (r:
        Result<Vec<BankTransfer>, ContractError>)
        requires
            old(self).wf(),
        ensures
            final(self).wf(),
            (old(self).counters_consistent() && (r is Ok ==> old(self).ps()[pos_of(
                old(self).ps(),
                id,
            )].status == ProposalStatus::Pending)) ==> final(self).counters_consistent(),
            match r {
                Ok(transfers) => spec_respond_check(old(self).ps(), sender@, id, old(self).accepted)
                    is None && transfers.deep_view() == yes_transfers(
                    old(self).ps()[pos_of(old(self).ps(), id)],
                    old(self).owner.deep_view(),
                ) && final(self).ps() == old(self).ps().update(
                    pos_of(old(self).ps(), id),
                    replied_view(
                        old(self).ps()[pos_of(old(self).ps(), id)],
                        ProposalStatus::Yes,
                        reply.deep_view(),
                        now,
                    ),
                ) && final(self).accepted == old(self).accepted + 1 && final(self).total_created
                    == old(self).total_created && final(self).declined == old(self).declined
                    && final(self).cancelled == old(self).cancelled && final(self).config == old(self).config && final(self).owner == old(self).owner,
                Err(e) => Some(e) == spec_respond_check(
                    old(self).ps(),
                    sender@,
                    id,
                    old(self).accepted,
                ) && *final(self) == *old(self),
            },
    {
        let ghost ps = self.ps();
        let pos = match self.find_proposal(id) {
            Some(i) => i,
            None => {
                return Err(ContractError::NotFound);
            },
        };
        proof {
            assert(self.proposals@[pos as int]@ == ps[pos as int]);
        }
        if !(self.proposals[pos].receiver == *sender) {
            return Err(ContractError::Unauthorized);
        }
        if self.accepted == u64::MAX {
            return Err(ContractError::ArithmeticOverflow);
        }
        let mut transfers: Vec<BankTransfer> = Vec::new();
        let mut fee_coins: Vec<Coin> = Vec::new();
        fee_coins.push(self.proposals[pos].fee.clone());
        proof {
            assert(fee_coins.deep_view() =~= seq![ps[pos as int].fee]);
        }
        let fee_to: String = match &self.owner {
            Some(o) => o.clone(),
            None => self.proposals[pos].proposer.clone(),
        };
        transfers.push(BankTransfer { to_address: fee_to, amount: fee_coins });
        if self.proposals[pos].gift.len() > 0 {
            let gift_tr = BankTransfer {
                to_address: self.proposals[pos].receiver.clone(),
                amount: clone_coins(&self.proposals[pos].gift),
            };
            transfers.push(gift_tr);
        }
        proof {
            assert forall|k: int|
                0 <= k < transfers.deep_view().len() implies transfers.deep_view()[k]
                == yes_transfers(ps[pos as int], old(self).owner.deep_view())[k] by {
                assert(transfers.deep_view()[k] == transfers@[k].deep_view());
            }
            assert(transfers.deep_view() =~= yes_transfers(
                ps[pos as int],
                old(self).owner.deep_view(),
            ));
        }
        let mut p = self.proposals.remove(pos);
        p.status = ProposalStatus::Yes;
        p.reply = reply;
        p.replied_at = Some(now);
        self.proposals.insert(pos, p);
        self.indexes.set_status(pos, ProposalStatus::Yes);
        let _ = increment(&mut self.accepted);
        proof {
            let q = replied_view(ps[pos as int], ProposalStatus::Yes, reply.deep_view(), now);
            assert forall|k: int|
                0 <= k < self.ps().len() implies self.ps()[k] == ps.update(pos as int, q)[k] by {
                assert(self.ps()[k] == self.proposals@[k].deep_view());
                if k == pos as int {
                    assert(self.proposals@[k].deep_view() =~= q);
                }
            }
            assert(self.ps() =~= ps.update(pos as int, q));
            lemma_wf_after_update(*old(self), *self, pos as int, q);
            lemma_pending_update(ps, pos as int, q);
        }
        Ok(transfers)
    }

    /// Declines a proposal: only the receiver may reply. The fee and the
    /// gift, if any, are refunded to the proposer; the record turns `No`.
    pub fn say_no(&mut self, sender: &String, id: u64, reply: Option<String>, now: u64) -> (r:
        Result<Vec<BankTransfer>, ContractError>)
        requires
            old(self).wf(),
        ensures
            final(self).wf(),
            (old(self).counters_consistent() && (r is Ok ==> old(self).ps()[pos_of(
                old(self).ps(),
                id,
            )].status == ProposalStatus::Pending)) ==> final(self).counters_consistent(),
            match r {
                Ok(transfers) => spec_respond_check(old(self).ps(), sender@, id, old(self).declined)
                    is None && transfers.deep_view() == refund_transfers(
                    old(self).ps()[pos_of(old(self).ps(), id)],
                ) && final(self).ps() == old(self).ps().update(
                    pos_of(old(self).ps(), id),
                    replied_view(
                        old(self).ps()[pos_of(old(self).ps(), id)],
                        ProposalStatus::No,
                        reply.deep_view(),
                        now,
                    ),
                ) && final(self).declined == old(self).declined + 1 && final(self).total_created
                    == old(self).total_created && final(self).accepted == old(self).accepted
                    && final(self).cancelled == old(self).cancelled && final(self).config == old(self).config && final(self).owner == old(self).owner,
                Err(e) => Some(e) == spec_respond_check(
                    old(self).ps(),
                    sender@,
                    id,
                    old(self).declined,
                ) && *final(self) == *old(self),
            },
    {
        let ghost ps = self.ps();
        let pos = match self.find_proposal(id) {
            Some(i) => i,
            None => {
                return Err(ContractError::NotFound);
            },
        };
        proof {
            assert(self.proposals@[pos as int]@ == ps[pos as int]);
        }
        if !(self.proposals[pos].receiver == *sender) {
            return Err(ContractError::Unauthorized);
        }
        if self.declined == u64::MAX {
            return Err(ContractError::ArithmeticOverflow);
        }
        let transfers = build_refund_transfers(&self.proposals[pos]);
        let mut p = self.proposals.remove(pos);
        p.status = ProposalStatus::No;
        p.reply = reply;
        p.replied_at = Some(now);
        self.proposals.insert(pos, p);
        self.indexes.set_status(pos, ProposalStatus::No);
        let _ = increment(&mut self.declined);
        proof {
            let q = replied_view(ps[pos as int], ProposalStatus::No, reply.deep_view(), now);
            assert forall|k: int|
                0 <= k < self.ps().len() implies self.ps()[k] == ps.update(pos as int, q)[k] by {
                assert(self.ps()[k] == self.proposals@[k].deep_view());
                if k == pos as int {
                    assert(self.proposals@[k].deep_view() =~= q);
                }
            }
            assert(self.ps() =~= ps.update(pos as int, q));
            lemma_wf_after_update(*old(self), *self, pos as int, q);
            lemma_pending_update(ps, pos as int, q);
        }
        Ok(transfers)
    }

    /// Replaces the configured creation fee. Only the current owner may do
    /// so.
    pub fn update_config(&mut self, sender: &String, successful_proposal_fee: Option<Coin>) -> (r:
        Result<(), ContractError>)
        requires
            old(self).wf(),
        ensures
            final(self).wf(),
            match r {
                Ok(_) => old(self).owner.deep_view() == Some(sender@) && final(self).config@ == (
                match successful_proposal_fee {
                    Some(c) => c@,
                    None => old(self).config@,
                }) && final(self).ps() == old(self).ps() && final(self).owner == old(self).owner
                    && final(self).total_created == old(self).total_created && final(self).accepted
                    == old(self).accepted && final(self).declined == old(self).declined && final(self).cancelled == old(self).cancelled && final(self).indexes == old(self).indexes,
                Err(e) => e == ContractError::Unauthorized && old(self).owner.deep_view() != Some(
                    sender@,
                ) && *final(self) == *old(self),
            },
    {
        let authorized = match &self.owner {
            Some(o) => *o == *sender,
            None => false,
        };
        if !authorized {
            return Err(ContractError::Unauthorized);
        }
        if let Some(fee) = successful_proposal_fee {
            self.config = Config { successful_proposal_fee: fee };
        }
        Ok(())
    }

    /// Replaces the recorded owner. The host's ownership subsystem decides
    /// who may request this; the store only records the outcome.
    pub fn set_owner(&mut self, owner: Option<String>)
        requires
            old(self).wf(),
        ensures
            final(self).wf(),
            final(self).owner == owner,
            final(self).ps() == old(self).ps(),
            final(self).config == old(self).config,
            final(self).total_created == old(self).total_created,
            final(self).accepted == old(self).accepted,
            final(self).declined == old(self).declined,
            final(self).cancelled == old(self).cancelled,
    {
        self.owner = owner;
    }

    /// The current configuration.
    pub fn get_config(&self) -> (r: &Config)
        ensures
            *r == self.config,
    {
        &self.config
    }

    /// The stored proposal carrying `id`, if any.
    pub fn query_proposal(&self, id: u64) -> (r: Option<&Proposal>)
        requires
            self.wf(),
        ensures
            match r {
                Some(p) => has_id(self.ps(), id) && p@ == self.ps()[pos_of(self.ps(), id)],
                None => !has_id(self.ps(), id),
            },
    {
        match self.find_proposal(id) {
            Some(i) => {
                proof {
                    assert(self.proposals@[i as int]@ == self.ps()[i as int]);
                }
                Some(&self.proposals[i])
            },
            None => None,
        }
    }

    /// The counter tallies, with the pending count derived on read.
    pub fn status_summary(&self) -> (r: Result<Status, ContractError>)
        ensures
            match r {
                Ok(st) => self.accepted + self.declined + self.cancelled
                    <= self.total_created && st == (Status {
                    total_proposals: self.total_created,
                    total_proposals_pending: (self.total_created - self.accepted - self.declined
                        - self.cancelled) as u64,
                    total_proposals_yes: self.accepted,
                    total_proposals_no: self.declined,
                    total_proposals_cancelled: self.cancelled,
                }),
                Err(e) => e == ContractError::ArithmeticUnderflow && self.accepted + self.declined
                    + self.cancelled > self.total_created,
            },
    {
        let after_yes = match self.total_created.checked_sub(self.accepted) {
            Some(v) => v,
            None => {
                return Err(ContractError::ArithmeticUnderflow);
            },
        };
        let after_no = match after_yes.checked_sub(self.declined) {
            Some(v) => v,
            None => {
                return Err(ContractError::ArithmeticUnderflow);
            },
        };
        let pending = match after_no.checked_sub(self.cancelled) {
            Some(v) => v,
            None => {
                return Err(ContractError::ArithmeticUnderflow);
            },
        };
        Ok(
            Status {
                total_proposals: self.total_created,
                total_proposals_pending: pending,
                total_proposals_yes: self.accepted,
                total_proposals_no: self.declined,
                total_proposals_cancelled: self.cancelled,
            },
        )
    }
}

/// Builds the refund transfers of a proposal: the fee, then the gift if any,
/// both to the proposer.
fn build_refund_transfers(p: &Proposal) -> (r: Vec<BankTransfer>)
    ensures
        r.deep_view() == refund_transfers(p@),
{
    let mut transfers: Vec<BankTransfer> = Vec::new();
    let mut fee_coins: Vec<Coin> = Vec::new();
    fee_coins.push(p.fee.clone());
    proof {
        assert(fee_coins.deep_view() =~= seq![p@.fee]);
    }
    transfers.push(BankTransfer { to_address: p.proposer.clone(), amount: fee_coins });
    if p.gift.len() > 0 {
        let gift_tr = BankTransfer {
            to_address: p.proposer.clone(),
            amount: clone_coins(&p.gift),
        };
        transfers.push(gift_tr);
    }
    proof {
        assert forall|k: int|
            0 <= k < transfers.deep_view().len() implies transfers.deep_view()[k]
            == refund_transfers(p@)[k] by {
            assert(transfers.deep_view()[k] == transfers@[k].deep_view());
        }
        assert(transfers.deep_view() =~= refund_transfers(p@));
    }
    transfers
}

/// Whether persisted records can be reloaded into a well-formed store.
pub open spec fn restorable(ps: Seq<ProposalV>, total_created: u64) -> bool {
    &&& forall|i: int, j: int|
        0 <= i < j < ps.len() ==> (#[trigger] ps[i]).id < (#[trigger] ps[j]).id
    &&& forall|i: int| 0 <= i < ps.len() ==> (#[trigger] ps[i]).id < total_created
    &&& forall|i: int| 0 <= i < ps.len() ==> proposal_record_wf(#[trigger] ps[i])
}

impl ProposalManager {
    /// Reloads a store from its persisted parts, rebuilding the lookup
    /// relations and checking every record invariant. Returns `None` when the
    /// records cannot belong to a well-formed store.
    pub fn restore(
        successful_proposal_fee: Coin,
        owner: Option<String>,
        proposals: Vec<Proposal>,
        total_created: u64,
        accepted: u64,
        declined: u64,
        cancelled: u64,
    ) -> (r: Option<ProposalManager>)
        ensures
            match r {
                Some(m) => restorable(proposals.deep_view(), total_created) && m.wf() && m.ps()
                    == proposals.deep_view() && m.config@ == successful_proposal_fee@ && m.owner
                    == owner && m.total_created == total_created && m.accepted == accepted
                    && m.declined == declined && m.cancelled == cancelled,
                None => !restorable(proposals.deep_view(), total_created),
            },
    {
        let ghost ps = proposals.deep_view();
        let mut indexes = ProposalIndexes::new();
        proof {
            assert(ps.take(0) =~= Seq::<ProposalV>::empty());
        }
        let mut i: usize = 0;
        while i < proposals.len()
            invariant
                i <= proposals.len(),
                ps == proposals.deep_view(),
                indexes.consistent_with(ps.take(i as int)),
                forall|a: int, b: int|
                    0 <= a < b < i ==> (#[trigger] ps[a]).id < (#[trigger] ps[b]).id,
                forall|a: int| 0 <= a < i ==> (#[trigger] ps[a]).id < total_created,
                forall|a: int| 0 <= a < i ==> proposal_record_wf(#[trigger] ps[a]),
            decreases proposals.len() - i,
        {
            proof {
                assert(proposals@[i as int]@ == ps[i as int]);
            }
            if !(proposals[i].id < total_created) {
                return None;
            }
            if i > 0 {
                proof {
                    assert(proposals@[i - 1]@ == ps[i - 1]);
                }
                let prev_id = proposals[i - 1].id;
                if !(prev_id < proposals[i].id) {
                    return None;
                }
            }
            if proposals[i].proposer == proposals[i].receiver {
                return None;
            }
            if !crate::aggregate::check_sorted_by_denom(&proposals[i].gift) {
                return None;
            }
            let ghost pre = indexes;
            indexes.push_entries(&proposals[i]);
            proof {
                assert(ps.take(i + 1) =~= ps.take(i as int).push(ps[i as int]));
                assert forall|k: int|
                    0 <= k < i + 1 implies indexes.proposer.deep_view()[k]
                    == crate::index::proposer_entry_of(#[trigger] ps.take(i + 1)[k])
                    && indexes.receiver.deep_view()[k] == crate::index::receiver_entry_of(
                    ps.take(i + 1)[k],
                ) && indexes.status_by_proposer.deep_view()[k]
                    == crate::index::status_by_proposer_entry_of(ps.take(i + 1)[k])
                    && indexes.status_by_receiver.deep_view()[k]
                    == crate::index::status_by_receiver_entry_of(ps.take(i + 1)[k]) by {
                    if k < i as int {
                        assert(ps.take(i as int)[k] == ps[k]);
                    }
                }
                assert forall|a: int, b: int|
                    0 <= a < b < i + 1 implies (#[trigger] ps[a]).id < (#[trigger] ps[b]).id by {
                    if b == i as int && a < i - 1 {
                        assert(ps[a].id < ps[i - 1].id);
                    }
                }
            }
            i = i + 1;
        }
        proof {
            assert(ps.take(proposals.len() as int) =~= ps);
        }
        let m = ProposalManager {
            config: Config { successful_proposal_fee },
            owner,
            proposals,
            indexes,
            total_created,
            accepted,
            declined,
            cancelled,
        };
        Some(m)
    }
}

/// The summed amount in denomination `d` across a list of transfers.
pub open spec fn transfers_total(ts: Seq<BankTransferV>, d: Seq<char>) -> int
    decreases ts.len(),
{
    if ts.len() == 0 {
        0
    } else {
        total_in_denom(ts[0].amount, d) + transfers_total(ts.skip(1), d)
    }
}

/// The escrow a proposal holds: its fee plus its gift.
pub open spec fn escrow_total(p: ProposalV, d: Seq<char>) -> int {
    total_in_denom(seq![p.fee] + p.gift, d)
}

proof fn lemma_two_transfers_total(ts: Seq<BankTransferV>, p: ProposalV, d: Seq<char>)
    requires
        ts.len() >= 1,
        ts[0].amount == seq![p.fee],
        ts.len() == if p.gift.len() > 0 {
            2int
        } else {
            1int
        },
        ts.len() == 2 ==> ts[1].amount == p.gift,
    ensures
        transfers_total(ts, d) == escrow_total(p, d),
{
    crate::coin::lemma_total_add(seq![p.fee], p.gift, d);
    assert(seq![p.fee][0] == p.fee);
    assert(seq![p.fee].skip(1) =~= Seq::<CoinV>::empty());
    assert(total_in_denom(seq![p.fee].skip(1), d) == 0);
    assert(transfers_total(ts, d) == total_in_denom(ts[0].amount, d) + transfers_total(
        ts.skip(1),
        d,
    ));
    if p.gift.len() > 0 {
        assert(ts.skip(1)[0] == ts[1]);
        assert(ts.skip(1).skip(1) =~= Seq::<BankTransferV>::empty());
        assert(transfers_total(ts.skip(1), d) == total_in_denom(ts.skip(1)[0].amount, d)
            + transfers_total(ts.skip(1).skip(1), d));
        assert(transfers_total(ts.skip(1).skip(1), d) == 0);
    } else {
        assert(ts.skip(1) =~= Seq::<BankTransferV>::empty());
        assert(transfers_total(ts.skip(1), d) == 0);
        assert(total_in_denom(p.gift, d) == 0);
    }
}

/// A refund returns the whole escrow to the proposer, denomination by
/// denomination, with no residual.
pub proof fn lemma_refund_covers_escrow(p: ProposalV)
    ensures
        forall|d: Seq<char>|
            #[trigger] transfers_total(refund_transfers(p), d) == escrow_total(p, d),
        forall|i: int|
            0 <= i < refund_transfers(p).len() ==> (#[trigger] refund_transfers(p)[i]).to_address
                == p.proposer,
{
    assert forall|d: Seq<char>|
        #[trigger] transfers_total(refund_transfers(p), d) == escrow_total(p, d) by {
        lemma_two_transfers_total(refund_transfers(p), p, d);
    }
}

/// An acceptance pays out the whole escrow, denomination by denomination,
/// with no residual: the fee to the owner (or the proposer when ownership was
/// renounced) and the gift to the receiver.
pub proof fn lemma_payout_covers_escrow(p: ProposalV, owner: Option<Seq<char>>)
    ensures
        forall|d: Seq<char>|
            #[trigger] transfers_total(yes_transfers(p, owner), d) == escrow_total(p, d),
{
    assert forall|d: Seq<char>|
        #[trigger] transfers_total(yes_transfers(p, owner), d) == escrow_total(p, d) by {
        lemma_two_transfers_total(yes_transfers(p, owner), p, d);
    }
}

/// The pending count never goes below zero.
pub proof fn lemma_pending_count_nonneg(ps: Seq<ProposalV>)
    ensures
        pending_count(ps) >= 0,
    decreases ps.len(),
{
    if ps.len() > 0 {
        lemma_pending_count_nonneg(ps.drop_last());
    }
}

/// While the counters are consistent, the status summary cannot underflow:
/// the terminal tallies never exceed the creation tally.
pub proof fn lemma_consistent_counters_summable(m: ProposalManager)
    requires
        m.counters_consistent(),
    ensures
        m.accepted + m.declined + m.cancelled <= m.total_created,
{
    lemma_pending_count_nonneg(m.ps());
}

/// Appending a record changes the pending count by one exactly when the
/// record is pending.
pub proof fn lemma_pending_push(ps: Seq<ProposalV>, p: ProposalV)
    ensures
        pending_count(ps.push(p)) == pending_count(ps) + (if p.status == ProposalStatus::Pending {
            1int
        } else {
            0int
        }),
{
    assert(ps.push(p).drop_last() =~= ps);
    assert(ps.push(p).last() == p);
}

/// Removing a record changes the pending count by one exactly when the record
/// was pending.
pub proof fn lemma_pending_remove(ps: Seq<ProposalV>, i: int)
    requires
        0 <= i < ps.len(),
    ensures
        pending_count(ps.remove(i)) == pending_count(ps) - (if ps[i].status
            == ProposalStatus::Pending {
            1int
        } else {
            0int
        }),
    decreases ps.len(),
{
    if i == ps.len() - 1 {
        assert(ps.remove(i) =~= ps.drop_last());
    } else {
        assert(ps.remove(i).drop_last() =~= ps.drop_last().remove(i));
        assert(ps.remove(i).last() == ps.last());
        lemma_pending_remove(ps.drop_last(), i);
    }
}

/// Replacing a record adjusts the pending count by the difference between the
/// new and the old record.
pub proof fn lemma_pending_update(ps: Seq<ProposalV>, i: int, q: ProposalV)
    requires
        0 <= i < ps.len(),
    ensures
        pending_count(ps.update(i, q)) == pending_count(ps) + (if q.status
            == ProposalStatus::Pending {
            1int
        } else {
            0int
        }) - (if ps[i].status == ProposalStatus::Pending {
            1int
        } else {
            0int
        }),
    decreases ps.len(),
{
    if i == ps.len() - 1 {
        assert(ps.update(i, q).drop_last() =~= ps.drop_last());
        assert(ps.update(i, q).last() == q);
    } else {
        assert(ps.update(i, q).drop_last() =~= ps.drop_last().update(i, q));
        assert(ps.update(i, q).last() == ps.last());
        lemma_pending_update(ps.drop_last(), i, q);
    }
}

/// A reply keeps the store well formed: ids, participants and gift are
/// untouched, and the lookup relations were rewritten to the new status.
proof fn lemma_wf_after_update(pre: ProposalManager, post: ProposalManager, pos: int, q: ProposalV)
    requires
        pre.wf(),
        0 <= pos < pre.ps().len(),
        q.id == pre.ps()[pos].id,
        q.proposer == pre.ps()[pos].proposer,
        q.receiver == pre.ps()[pos].receiver,
        q.gift == pre.ps()[pos].gift,
        post.ps() == pre.ps().update(pos, q),
        post.total_created == pre.total_created,
        post.indexes.proposer == pre.indexes.proposer,
        post.indexes.receiver == pre.indexes.receiver,
        post.indexes.status_by_proposer.deep_view()
            == pre.indexes.status_by_proposer.deep_view().update(
            pos,
            crate::index::StatusIndexEntryV {
                addr: pre.indexes.status_by_proposer.deep_view()[pos].addr,
                status: q.status,
                id: pre.indexes.status_by_proposer.deep_view()[pos].id,
            },
        ),
        post.indexes.status_by_receiver.deep_view()
            == pre.indexes.status_by_receiver.deep_view().update(
            pos,
            crate::index::StatusIndexEntryV {
                addr: pre.indexes.status_by_receiver.deep_view()[pos].addr,
                status: q.status,
                id: pre.indexes.status_by_receiver.deep_view()[pos].id,
            },
        ),
    ensures
        post.wf(),
{
    let ps = pre.ps();
    assert forall|i: int, j: int|
        0 <= i < j < post.ps().len() implies #[trigger] post.ps()[i].id
        < #[trigger] post.ps()[j].id by {
        assert(ps[i].id < ps[j].id);
    }
    assert forall|i: int|
        0 <= i < post.ps().len() implies proposal_record_wf(#[trigger] post.ps()[i]) by {
        assert(proposal_record_wf(ps[i]));
    }
    assert forall|i: int|
        0 <= i < post.ps().len() implies post.indexes.status_by_proposer.deep_view()[i]
        == crate::index::status_by_proposer_entry_of(#[trigger] post.ps()[i])
        && post.indexes.status_by_receiver.deep_view()[i]
        == crate::index::status_by_receiver_entry_of(post.ps()[i])
        && post.indexes.proposer.deep_view()[i] == crate::index::proposer_entry_of(post.ps()[i])
        && post.indexes.receiver.deep_view()[i] == crate::index::receiver_entry_of(
        post.ps()[i],
    ) by {
        assert(pre.indexes.status_by_proposer.deep_view()[i]
            == crate::index::status_by_proposer_entry_of(ps[i]));
        assert(pre.indexes.status_by_receiver.deep_view()[i]
            == crate::index::status_by_receiver_entry_of(ps[i]));
        assert(pre.indexes.proposer.deep_view()[i] == crate::index::proposer_entry_of(ps[i]));
        assert(pre.indexes.receiver.deep_view()[i] == crate::index::receiver_entry_of(ps[i]));
    }
}

} // verus!
