//! Derived lookup relations over the stored proposals: by proposer, by
//! receiver, and by (participant, status). Entry `i` of each relation is
//! derived from the `i`-th stored proposal, so the relations stay consistent
//! with every write and delete.

use vstd::prelude::*;
use crate::state::{Proposal, ProposalStatus, ProposalV};

verus! {

/// One entry of a participant index.
pub struct AddrIndexEntry {
    pub addr: String,
    pub id: u64,
}

/// Mathematical image of an [`AddrIndexEntry`].
#[verifier::ext_equal]
pub struct AddrIndexEntryV {
    pub addr: Seq<char>,
    pub id: u64,
}

impl View for AddrIndexEntry {
    type V = AddrIndexEntryV;

    open spec fn view(&self) -> AddrIndexEntryV {
        AddrIndexEntryV { addr: self.addr@, id: self.id }
    }
}

impl DeepView for AddrIndexEntry {
    type V = AddrIndexEntryV;

    open spec fn deep_view(&self) -> AddrIndexEntryV {
        self@
    }
}

/// One entry of a (participant, status) index.
pub struct StatusIndexEntry {
    pub addr: String,
    pub status: ProposalStatus,
    pub id: u64,
}

/// Mathematical image of a [`StatusIndexEntry`].
#[verifier::ext_equal]
pub struct StatusIndexEntryV {
    pub addr: Seq<char>,
    pub status: ProposalStatus,
    pub id: u64,
}

impl View for StatusIndexEntry {
    type V = StatusIndexEntryV;

    open spec fn view(&self) -> StatusIndexEntryV {
        StatusIndexEntryV { addr: self.addr@, status: self.status, id: self.id }
    }
}

impl DeepView for StatusIndexEntry {
    type V = StatusIndexEntryV;

    open spec fn deep_view(&self) -> StatusIndexEntryV {
        self@
    }
}

/// The entry the proposer index owes for a stored proposal.
pub open spec fn proposer_entry_of(p: ProposalV) -> AddrIndexEntryV {
    AddrIndexEntryV { addr: p.proposer, id: p.id }
}

/// The entry the receiver index owes for a stored proposal.
pub open spec fn receiver_entry_of(p: ProposalV) -> AddrIndexEntryV {
    AddrIndexEntryV { addr: p.receiver, id: p.id }
}

/// The entry the (proposer, status) index owes for a stored proposal.
pub open spec fn status_by_proposer_entry_of(p: ProposalV) -> StatusIndexEntryV {
    StatusIndexEntryV { addr: p.proposer, status: p.status, id: p.id }
}

/// The entry the (receiver, status) index owes for a stored proposal.
pub open spec fn status_by_receiver_entry_of(p: ProposalV) -> StatusIndexEntryV {
    StatusIndexEntryV { addr: p.receiver, status: p.status, id: p.id }
}

/// The four derived lookup relations.
pub struct ProposalIndexes {
    pub proposer: Vec<AddrIndexEntry>,
    pub status_by_proposer: Vec<StatusIndexEntry>,
    pub receiver: Vec<AddrIndexEntry>,
    pub status_by_receiver: Vec<StatusIndexEntry>,
}

impl ProposalIndexes {
    /// Every relation mirrors the stored proposals entry by entry.
    pub open spec fn consistent_with(self, ps: Seq<ProposalV>) -> bool {
        &&& self.proposer.deep_view().len() == ps.len()
        &&& self.status_by_proposer.deep_view().len() == ps.len()
        &&& self.receiver.deep_view().len() == ps.len()
        &&& self.status_by_receiver.deep_view().len() == ps.len()
        &&& forall|i: int|
            0 <= i < ps.len() ==> self.proposer.deep_view()[i] == proposer_entry_of(
                #[trigger] ps[i],
            )
        &&& forall|i: int|
            0 <= i < ps.len() ==> self.status_by_proposer.deep_view()[i]
                == status_by_proposer_entry_of(#[trigger] ps[i])
        &&& forall|i: int|
            0 <= i < ps.len() ==> self.receiver.deep_view()[i] == receiver_entry_of(
                #[trigger] ps[i],
            )
        &&& forall|i: int|
            0 <= i < ps.len() ==> self.status_by_receiver.deep_view()[i]
                == status_by_receiver_entry_of(#[trigger] ps[i])
    }

    /// Empty relations, consistent with an empty store.
    pub fn new() -> (r: ProposalIndexes)
        ensures
            r.consistent_with(Seq::empty()),
    {
        ProposalIndexes {
            proposer: Vec::new(),
            status_by_proposer: Vec::new(),
            receiver: Vec::new(),
            status_by_receiver: Vec::new(),
        }
    }

    /// Appends the entries derived from a newly stored proposal.
    pub fn push_entries(&mut self, p: &Proposal)
        ensures
            final(self).proposer.deep_view() == old(self).proposer.deep_view().push(
                proposer_entry_of(p@),
            ),
            final(self).status_by_proposer.deep_view() == old(
                self,
            ).status_by_proposer.deep_view().push(status_by_proposer_entry_of(p@)),
            final(self).receiver.deep_view() == old(self).receiver.deep_view().push(
                receiver_entry_of(p@),
            ),
            final(self).status_by_receiver.deep_view() == old(
                self,
            ).status_by_receiver.deep_view().push(status_by_receiver_entry_of(p@)),
    {
        self.proposer.push(AddrIndexEntry { addr: p.proposer.clone(), id: p.id });
        self.status_by_proposer.push(
            StatusIndexEntry { addr: p.proposer.clone(), status: p.status, id: p.id },
        );
        self.receiver.push(AddrIndexEntry { addr: p.receiver.clone(), id: p.id });
        self.status_by_receiver.push(
            StatusIndexEntry { addr: p.receiver.clone(), status: p.status, id: p.id },
        );
        proof {
            assert forall|k: int|
                0 <= k < self.proposer.deep_view().len() implies self.proposer.deep_view()[k]
                == old(self).proposer.deep_view().push(proposer_entry_of(p@))[k] by {
                assert(self.proposer.deep_view()[k] == self.proposer@[k].deep_view());
            }
            assert(self.proposer.deep_view() =~= old(self).proposer.deep_view().push(
                proposer_entry_of(p@),
            ));
            assert forall|k: int|
                0 <= k < self.status_by_proposer.deep_view().len()
                implies self.status_by_proposer.deep_view()[k] == old(
                self,
            ).status_by_proposer.deep_view().push(status_by_proposer_entry_of(p@))[k] by {
                assert(self.status_by_proposer.deep_view()[k] == self.status_by_proposer@[
                    k].deep_view());
            }
            assert(self.status_by_proposer.deep_view() =~= old(
                self,
            ).status_by_proposer.deep_view().push(status_by_proposer_entry_of(p@)));
            assert forall|k: int|
                0 <= k < self.receiver.deep_view().len() implies self.receiver.deep_view()[k]
                == old(self).receiver.deep_view().push(receiver_entry_of(p@))[k] by {
                assert(self.receiver.deep_view()[k] == self.receiver@[k].deep_view());
            }
            assert(self.receiver.deep_view() =~= old(self).receiver.deep_view().push(
                receiver_entry_of(p@),
            ));
            assert forall|k: int|
                0 <= k < self.status_by_receiver.deep_view().len()
                implies self.status_by_receiver.deep_view()[k] == old(
                self,
            ).status_by_receiver.deep_view().push(status_by_receiver_entry_of(p@))[k] by {
                assert(self.status_by_receiver.deep_view()[k] == self.status_by_receiver@[
                    k].deep_view());
            }
            assert(self.status_by_receiver.deep_view() =~= old(
                self,
            ).status_by_receiver.deep_view().push(status_by_receiver_entry_of(p@)));
        }
    }

    /// Removes the entries of the proposal that stood at position `i`.
    pub fn remove_entries(&mut self, i: usize)
        requires
            i < old(self).proposer.deep_view().len(),
            i < old(self).status_by_proposer.deep_view().len(),
            i < old(self).receiver.deep_view().len(),
            i < old(self).status_by_receiver.deep_view().len(),
        ensures
            final(self).proposer.deep_view() == old(self).proposer.deep_view().remove(i as int),
            final(self).status_by_proposer.deep_view() == old(
                self,
            ).status_by_proposer.deep_view().remove(i as int),
            final(self).receiver.deep_view() == old(self).receiver.deep_view().remove(i as int),
            final(self).status_by_receiver.deep_view() == old(
                self,
            ).status_by_receiver.deep_view().remove(i as int),
    {
        self.proposer.remove(i);
        self.status_by_proposer.remove(i);
        self.receiver.remove(i);
        self.status_by_receiver.remove(i);
        proof {
            assert forall|k: int|
                0 <= k < self.proposer.deep_view().len() implies self.proposer.deep_view()[k]
                == old(self).proposer.deep_view().remove(i as int)[k] by {
                assert(self.proposer.deep_view()[k] == self.proposer@[k].deep_view());
            }
            assert(self.proposer.deep_view() =~= old(self).proposer.deep_view().remove(i as int));
            assert forall|k: int|
                0 <= k < self.status_by_proposer.deep_view().len()
                implies self.status_by_proposer.deep_view()[k] == old(
                self,
            ).status_by_proposer.deep_view().remove(i as int)[k] by {
                assert(self.status_by_proposer.deep_view()[k] == self.status_by_proposer@[
                    k].deep_view());
            }
            assert(self.status_by_proposer.deep_view() =~= old(
                self,
            ).status_by_proposer.deep_view().remove(i as int));
            assert forall|k: int|
                0 <= k < self.receiver.deep_view().len() implies self.receiver.deep_view()[k]
                == old(self).receiver.deep_view().remove(i as int)[k] by {
                assert(self.receiver.deep_view()[k] == self.receiver@[k].deep_view());
            }
            assert(self.receiver.deep_view() =~= old(self).receiver.deep_view().remove(i as int));
            assert forall|k: int|
                0 <= k < self.status_by_receiver.deep_view().len()
                implies self.status_by_receiver.deep_view()[k] == old(
                self,
            ).status_by_receiver.deep_view().remove(i as int)[k] by {
                assert(self.status_by_receiver.deep_view()[k] == self.status_by_receiver@[
                    k].deep_view());
            }
            assert(self.status_by_receiver.deep_view() =~= old(
                self,
            ).status_by_receiver.deep_view().remove(i as int));
        }
    }

    /// Rewrites the status carried by the entries of the proposal at position
    /// `i`; the participant relations are untouched.
    pub fn set_status(&mut self, i: usize, status: ProposalStatus)
        requires
            i < old(self).status_by_proposer.deep_view().len(),
            i < old(self).status_by_receiver.deep_view().len(),
        ensures
            final(self).proposer == old(self).proposer,
            final(self).receiver == old(self).receiver,
            final(self).status_by_proposer.deep_view() == old(
                self,
            ).status_by_proposer.deep_view().update(
                i as int,
                StatusIndexEntryV {
                    addr: old(self).status_by_proposer.deep_view()[i as int].addr,
                    status,
                    id: old(self).status_by_proposer.deep_view()[i as int].id,
                },
            ),
            final(self).status_by_receiver.deep_view() == old(
                self,
            ).status_by_receiver.deep_view().update(
                i as int,
                StatusIndexEntryV {
                    addr: old(self).status_by_receiver.deep_view()[i as int].addr,
                    status,
                    id: old(self).status_by_receiver.deep_view()[i as int].id,
                },
            ),
    {
        let addr_p = self.status_by_proposer[i].addr.clone();
        let id_p = self.status_by_proposer[i].id;
        self.status_by_proposer.remove(i);
        self.status_by_proposer.insert(i, StatusIndexEntry { addr: addr_p, status, id: id_p });
        let addr_r = self.status_by_receiver[i].addr.clone();
        let id_r = self.status_by_receiver[i].id;
        self.status_by_receiver.remove(i);
        self.status_by_receiver.insert(i, StatusIndexEntry { addr: addr_r, status, id: id_r });
        proof {
            let pv = old(self).status_by_proposer.deep_view();
            let rv = old(self).status_by_receiver.deep_view();
            assert forall|k: int|
                0 <= k < self.status_by_proposer.deep_view().len()
                implies self.status_by_proposer.deep_view()[k] == pv.update(
                i as int,
                StatusIndexEntryV { addr: pv[i as int].addr, status, id: pv[i as int].id },
            )[k] by {
                assert(self.status_by_proposer.deep_view()[k] == self.status_by_proposer@[
                    k].deep_view());
                assert(pv[k] == old(self).status_by_proposer@[k].deep_view());
            }
            assert(self.status_by_proposer.deep_view() =~= pv.update(
                i as int,
                StatusIndexEntryV { addr: pv[i as int].addr, status, id: pv[i as int].id },
            ));
            assert forall|k: int|
                0 <= k < self.status_by_receiver.deep_view().len()
                implies self.status_by_receiver.deep_view()[k] == rv.update(
                i as int,
                StatusIndexEntryV { addr: rv[i as int].addr, status, id: rv[i as int].id },
            )[k] by {
                assert(self.status_by_receiver.deep_view()[k] == self.status_by_receiver@[
                    k].deep_view());
                assert(rv[k] == old(self).status_by_receiver@[k].deep_view());
            }
            assert(self.status_by_receiver.deep_view() =~= rv.update(
                i as int,
                StatusIndexEntryV { addr: rv[i as int].addr, status, id: rv[i as int].id },
            ));
        }
    }
}

} // verus!
