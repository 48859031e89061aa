//! The proposal record, its lifecycle status, the contract configuration, and
//! the plain query/response shapes.

use vstd::prelude::*;
use crate::coin::{Coin, CoinV};

verus! {

/// Largest number of proposals a listing may return.
pub const MAX_ITEMS_LIMIT: u32 = 100;

/// Number of proposals a listing returns when no limit is given.
pub const DEFAULT_LIMIT: u32 = 10;

/// Lifecycle status of a stored proposal. A cancelled proposal is deleted
/// rather than marked, so no stored proposal ever carries a cancelled status.
#[derive(Clone, Copy, Debug, PartialEq, Eq, Structural)]
pub enum ProposalStatus {
    Pending,
    Yes,
    No,
}

/// The stable one-byte code of each status, used by external key encodings.
pub open spec fn status_code(status: ProposalStatus) -> u8 {
    match status {
        ProposalStatus::Pending => 0,
        ProposalStatus::Yes => 1,
        ProposalStatus::No => 2,
    }
}

impl From<ProposalStatus> for u8 {
    fn from(status: ProposalStatus) -> (r: u8) {
        match status {
            ProposalStatus::Pending => 0,
            ProposalStatus::Yes => 1,
            ProposalStatus::No => 2,
        }
    }
}

impl vstd::std_specs::convert::FromSpecImpl<ProposalStatus> for u8 {
    open spec fn obeys_from_spec() -> bool {
        true
    }

    open spec fn from_spec(status: ProposalStatus) -> u8 {
        status_code(status)
    }
}

impl ProposalStatus {
    /// Human-readable name of the status.
    pub fn label(&self) -> (r: String)
        ensures
            r@ == match *self {
                ProposalStatus::Pending => "Pending"@,
                ProposalStatus::Yes => "Yes"@,
                ProposalStatus::No => "No"@,
            },
    {
        match *self {
            ProposalStatus::Pending => "Pending".to_owned(),
            ProposalStatus::Yes => "Yes".to_owned(),
            ProposalStatus::No => "No".to_owned(),
        }
    }
}

/// The contract configuration.
pub struct Config {
    /// The fee charged for each proposal, kept by the owner when the proposal
    /// succeeds.
    pub successful_proposal_fee: Coin,
}

impl View for Config {
    type V = CoinV;

    open spec fn view(&self) -> CoinV {
        self.successful_proposal_fee@
    }
}

/// The escrow agreement between a proposer and a receiver.
pub struct Proposal {
    /// Unique, monotonically increasing, assigned at creation, never reused.
    pub id: u64,
    pub proposer: String,
    pub receiver: String,
    /// Aggregated coins earmarked for the receiver; may be empty.
    pub gift: Vec<Coin>,
    /// The creation fee actually charged, fixed at creation time.
    pub fee: Coin,
    pub title: Option<String>,
    pub speech: Option<String>,
    /// Free-form text supplied by the receiver on accept or decline.
    pub reply: Option<String>,
    pub status: ProposalStatus,
    /// Logical timestamp of creation.
    pub created_at: u64,
    /// Logical timestamp of the receiver's reply; `None` while pending.
    pub replied_at: Option<u64>,
}

/// Mathematical image of a [`Proposal`].
#[verifier::ext_equal]
pub struct ProposalV {
    pub id: u64,
    pub proposer: Seq<char>,
    pub receiver: Seq<char>,
    pub gift: Seq<CoinV>,
    pub fee: CoinV,
    pub title: Option<Seq<char>>,
    pub speech: Option<Seq<char>>,
    pub reply: Option<Seq<char>>,
    pub status: ProposalStatus,
    pub created_at: u64,
    pub replied_at: Option<u64>,
}

impl View for Proposal {
    type V = ProposalV;

    open spec fn view(&self) -> ProposalV {
        ProposalV {
            id: self.id,
            proposer: self.proposer@,
            receiver: self.receiver@,
            gift: self.gift.deep_view(),
            fee: self.fee@,
            title: self.title.deep_view(),
            speech: self.speech.deep_view(),
            reply: self.reply.deep_view(),
            status: self.status,
            created_at: self.created_at,
            replied_at: self.replied_at,
        }
    }
}

impl DeepView for Proposal {
    type V = ProposalV;

    open spec fn deep_view(&self) -> ProposalV {
        self@
    }
}

impl Clone for Proposal {
    fn clone(&self) -> (res: Proposal)
        ensures
            res@ == self@,
    {
        let gift = crate::coin::clone_coins(&self.gift);
        let res = Proposal {
            id: self.id,
            proposer: self.proposer.clone(),
            receiver: self.receiver.clone(),
            gift,
            fee: self.fee.clone(),
            title: clone_opt_string(&self.title),
            speech: clone_opt_string(&self.speech),
            reply: clone_opt_string(&self.reply),
            status: self.status,
            created_at: self.created_at,
            replied_at: self.replied_at,
        };
        proof {
            assert(res@ =~= self@);
        }
        res
    }
}

/// Clones optional free-form text.
pub fn clone_opt_string(s: &Option<String>) -> (r: Option<String>)
    ensures
        r.deep_view() == s.deep_view(),
{
    match s {
        Some(t) => Some(t.clone()),
        None => None,
    }
}

/// A single transfer instruction for the host ledger: send `amount` to
/// `to_address`. The lifecycle emits these; it never moves balances itself.
#[derive(Debug, PartialEq, Eq)]
pub struct BankTransfer {
    pub to_address: String,
    pub amount: Vec<Coin>,
}

/// Mathematical image of a [`BankTransfer`].
#[verifier::ext_equal]
pub struct BankTransferV {
    pub to_address: Seq<char>,
    pub amount: Seq<CoinV>,
}

impl View for BankTransfer {
    type V = BankTransferV;

    open spec fn view(&self) -> BankTransferV {
        BankTransferV { to_address: self.to_address@, amount: self.amount.deep_view() }
    }
}

impl DeepView for BankTransfer {
    type V = BankTransferV;

    open spec fn deep_view(&self) -> BankTransferV {
        self@
    }
}

/// Aggregate tallies over all proposals ever created.
#[derive(Clone, Copy, Debug, PartialEq, Eq, Structural)]
pub struct Status {
    pub total_proposals: u64,
    pub total_proposals_pending: u64,
    pub total_proposals_yes: u64,
    pub total_proposals_no: u64,
    pub total_proposals_cancelled: u64,
}

/// A listing's payload.
pub struct ProposalsResponse {
    pub proposals: Vec<Proposal>,
}

/// Participant filter for proposal listings.
pub enum ProposalBy {
    Proposer(String),
    Receiver(String),
}

/// Mathematical image of a [`ProposalBy`].
pub enum ProposalByV {
    Proposer(Seq<char>),
    Receiver(Seq<char>),
}

impl View for ProposalBy {
    type V = ProposalByV;

    open spec fn view(&self) -> ProposalByV {
        match self {
            ProposalBy::Proposer(a) => ProposalByV::Proposer(a@),
            ProposalBy::Receiver(a) => ProposalByV::Receiver(a@),
        }
    }
}

impl DeepView for ProposalBy {
    type V = ProposalByV;

    open spec fn deep_view(&self) -> ProposalByV {
        self@
    }
}

/// Listing order over proposal ids.
#[derive(Clone, Copy, Debug, PartialEq, Eq, Structural)]
pub enum Sort {
    Ascending,
    Descending,
}

} // verus!
