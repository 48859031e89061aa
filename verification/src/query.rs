//! Proposal listings: participant- and status-filtered retrieval through the
//! lookup relations, ordered by id and truncated to a bounded limit, plus the
//! equivalence of an indexed listing with a filtered full scan.

use vstd::prelude::*;
use crate::index::{AddrIndexEntryV, StatusIndexEntryV};
use crate::manager::ProposalManager;
use crate::state::{
    Proposal, ProposalBy, ProposalByV, ProposalStatus, ProposalV, ProposalsResponse, Sort,
    DEFAULT_LIMIT, MAX_ITEMS_LIMIT,
};

verus! {

/// Whether a proposal matches a listing's filter. A listing without a
/// participant filter is a full scan and ignores the status filter.
pub open spec fn matches_filter(
    p: ProposalV,
    filt: Option<ProposalByV>,
    status: Option<ProposalStatus>,
) -> bool {
    match filt {
        None => true,
        Some(ProposalByV::Proposer(a)) => p.proposer == a && (match status {
            Some(st) => p.status == st,
            None => true,
        }),
        Some(ProposalByV::Receiver(a)) => p.receiver == a && (match status {
            Some(st) => p.status == st,
            None => true,
        }),
    }
}

/// The number of proposals a listing returns at most.
pub open spec fn spec_limit(limit: Option<u32>) -> int {
    let l = match limit {
        Some(l) => l,
        None => DEFAULT_LIMIT,
    };
    if l > MAX_ITEMS_LIMIT {
        MAX_ITEMS_LIMIT as int
    } else {
        l as int
    }
}

/// What a listing owes: the matching proposals, ordered by id according to
/// `sort` (ascending unless descending is asked), truncated after ordering.
pub open spec fn spec_query_proposals(
    ps: Seq<ProposalV>,
    limit: Option<u32>,
    filt: Option<ProposalByV>,
    status: Option<ProposalStatus>,
    sort: Option<Sort>,
) -> Seq<ProposalV> {
    let lim = spec_limit(limit);
    let sel = ps.filter(|p: ProposalV| matches_filter(p, filt, status));
    let ord = if sort == Some(Sort::Descending) {
        sel.reverse()
    } else {
        sel
    };
    ord.take(if lim < ord.len() {
        lim
    } else {
        ord.len() as int
    })
}

/// Extends a filtered prefix by one record.
proof fn lemma_filter_take_succ<A>(s: Seq<A>, pred: spec_fn(A) -> bool, i: int)
    requires
        0 <= i < s.len(),
    ensures
        s.take(i + 1).filter(pred) == if pred(s[i]) {
            s.take(i).filter(pred).push(s[i])
        } else {
            s.take(i).filter(pred)
        },
{
    reveal(Seq::filter);
    assert(s.take(i + 1).drop_last() =~= s.take(i));
    assert(s.take(i + 1).last() == s[i]);
}

/// Filtering then projecting gives the same sequence on two pointwise
/// corresponding sequences.
proof fn lemma_filter_map_pointwise<A, B, C>(
    s: Seq<A>,
    t: Seq<B>,
    pa: spec_fn(A) -> bool,
    pb: spec_fn(B) -> bool,
    fa: spec_fn(A) -> C,
    fb: spec_fn(B) -> C,
)
    requires
        s.len() == t.len(),
        forall|i: int| 0 <= i < s.len() ==> pa(#[trigger] s[i]) == pb(t[i]),
        forall|i: int| 0 <= i < s.len() ==> pa(#[trigger] s[i]) ==> fa(s[i]) == fb(t[i]),
    ensures
        s.filter(pa).map_values(fa) == t.filter(pb).map_values(fb),
    decreases s.len(),
{
    reveal(Seq::filter);
    if s.len() == 0 {
        assert(s.filter(pa).map_values(fa) =~= t.filter(pb).map_values(fb));
    } else {
        let sf = s.drop_last();
        let tf = t.drop_last();
        assert(forall|i: int| 0 <= i < sf.len() ==> #[trigger] sf[i] == s[i]);
        assert(forall|i: int| 0 <= i < tf.len() ==> #[trigger] tf[i] == t[i]);
        lemma_filter_map_pointwise(sf, tf, pa, pb, fa, fb);
        assert(s.last() == s[s.len() - 1]);
        assert(t.last() == t[t.len() - 1]);
        if pa(s.last()) {
            assert(s.filter(pa) == sf.filter(pa).push(s.last()));
            assert(t.filter(pb) == tf.filter(pb).push(t.last()));
            assert(s.filter(pa).map_values(fa) =~= sf.filter(pa).map_values(fa).push(
                fa(s.last()),
            ));
            assert(t.filter(pb).map_values(fb) =~= tf.filter(pb).map_values(fb).push(
                fb(t.last()),
            ));
        }
    }
}

/// The ids a filtered full scan yields, in stored (ascending id) order.
pub open spec fn scan_ids(
    ps: Seq<ProposalV>,
    filt: ProposalByV,
    status: Option<ProposalStatus>,
) -> Seq<u64> {
    ps.filter(|p: ProposalV| matches_filter(p, Some(filt), status)).map_values(
        |p: ProposalV| p.id,
    )
}

/// The ids the matching lookup relation yields for the same filter, in the
/// relation's own order.
pub open spec fn index_ids(
    m: ProposalManager,
    filt: ProposalByV,
    status: Option<ProposalStatus>,
) -> Seq<u64> {
    match filt {
        ProposalByV::Proposer(a) => match status {
            Some(st) => m.indexes.status_by_proposer.deep_view().filter(
                |e: StatusIndexEntryV| e.addr == a && e.status == st,
            ).map_values(|e: StatusIndexEntryV| e.id),
            None => m.indexes.proposer.deep_view().filter(
                |e: AddrIndexEntryV| e.addr == a,
            ).map_values(|e: AddrIndexEntryV| e.id),
        },
        ProposalByV::Receiver(a) => match status {
            Some(st) => m.indexes.status_by_receiver.deep_view().filter(
                |e: StatusIndexEntryV| e.addr == a && e.status == st,
            ).map_values(|e: StatusIndexEntryV| e.id),
            None => m.indexes.receiver.deep_view().filter(
                |e: AddrIndexEntryV| e.addr == a,
            ).map_values(|e: AddrIndexEntryV| e.id),
        },
    }
}

/// A participant-filtered indexed listing yields exactly the ids of a full
/// scan filtered by the same predicate, in the same ascending id order.
pub proof fn lemma_index_scan_equivalence(
    m: ProposalManager,
    filt: ProposalByV,
    status: Option<ProposalStatus>,
)
    requires
        m.wf(),
    ensures
        index_ids(m, filt, status) == scan_ids(m.ps(), filt, status),
{
    let ps = m.ps();
    match filt {
        ProposalByV::Proposer(a) => match status {
            Some(st) => {
                lemma_filter_map_pointwise(
                    m.indexes.status_by_proposer.deep_view(),
                    ps,
                    |e: StatusIndexEntryV| e.addr == a && e.status == st,
                    |p: ProposalV| matches_filter(p, Some(filt), status),
                    |e: StatusIndexEntryV| e.id,
                    |p: ProposalV| p.id,
                );
            },
            None => {
                lemma_filter_map_pointwise(
                    m.indexes.proposer.deep_view(),
                    ps,
                    |e: AddrIndexEntryV| e.addr == a,
                    |p: ProposalV| matches_filter(p, Some(filt), status),
                    |e: AddrIndexEntryV| e.id,
                    |p: ProposalV| p.id,
                );
            },
        },
        ProposalByV::Receiver(a) => match status {
            Some(st) => {
                lemma_filter_map_pointwise(
                    m.indexes.status_by_receiver.deep_view(),
                    ps,
                    |e: StatusIndexEntryV| e.addr == a && e.status == st,
                    |p: ProposalV| matches_filter(p, Some(filt), status),
                    |e: StatusIndexEntryV| e.id,
                    |p: ProposalV| p.id,
                );
            },
            None => {
                lemma_filter_map_pointwise(
                    m.indexes.receiver.deep_view(),
                    ps,
                    |e: AddrIndexEntryV| e.addr == a,
                    |p: ProposalV| matches_filter(p, Some(filt), status),
                    |e: AddrIndexEntryV| e.id,
                    |p: ProposalV| p.id,
                );
            },
        },
    }
}

impl ProposalManager {
    /// Lists proposals: optionally filtered by participant (through the
    /// matching lookup relation) and, together with a participant, by status
    /// (through the combined relation); ordered by id as asked; truncated to
    /// the bounded limit after ordering.
    pub fn query_proposals(
        &self,
        limit: Option<u32>,
        filter_by: Option<ProposalBy>,
        status: Option<ProposalStatus>,
        sort: Option<Sort>,
    ) -> (r: ProposalsResponse)
        requires
            self.wf(),
        ensures
            r.proposals.deep_view() == spec_query_proposals(
                self.ps(),
                limit,
                filter_by.deep_view(),
                status,
                sort,
            ),
    {
        let ghost ps = self.ps();
        let ghost filt = filter_by.deep_view();
        let ghost pred = |p: ProposalV| matches_filter(p, filt, status);

        let mut sel: Vec<Proposal> = Vec::new();
        proof {
            reveal(Seq::filter);
            assert(ps.take(0) =~= Seq::<ProposalV>::empty());
            assert(sel.deep_view() =~= ps.take(0).filter(pred));
        }
        let mut i: usize = 0;
        while i < self.proposals.len()
            invariant
                i <= self.proposals.len(),
                ps == self.ps(),
                filt == filter_by.deep_view(),
                pred == (|p: ProposalV| matches_filter(p, filt, status)),
                self.wf(),
                sel.deep_view() == ps.take(i as int).filter(pred),
            decreases self.proposals.len() - i,
        {
            proof {
                assert(self.proposals@[i as int]@ == ps[i as int]);
            }
            let keep: bool = match &filter_by {
                None => true,
                Some(ProposalBy::Proposer(a)) => {
                    match status {
                        Some(st) => {
                            let e = &self.indexes.status_by_proposer[i];
                            proof {
                                assert(self.indexes.status_by_proposer@[i as int]@
                                    == self.indexes.status_by_proposer.deep_view()[i as int]);
                            }
                            e.addr == *a && e.status == st
                        },
                        None => {
                            let e = &self.indexes.proposer[i];
                            proof {
                                assert(self.indexes.proposer@[i as int]@
                                    == self.indexes.proposer.deep_view()[i as int]);
                            }
                            e.addr == *a
                        },
                    }
                },
                Some(ProposalBy::Receiver(a)) => {
                    match status {
                        Some(st) => {
                            let e = &self.indexes.status_by_receiver[i];
                            proof {
                                assert(self.indexes.status_by_receiver@[i as int]@
                                    == self.indexes.status_by_receiver.deep_view()[i as int]);
                            }
                            e.addr == *a && e.status == st
                        },
                        None => {
                            let e = &self.indexes.receiver[i];
                            proof {
                                assert(self.indexes.receiver@[i as int]@
                                    == self.indexes.receiver.deep_view()[i as int]);
                            }
                            e.addr == *a
                        },
                    }
                },
            };
            proof {
                assert(keep == pred(ps[i as int]));
                lemma_filter_take_succ(ps, pred, i as int);
            }
            if keep {
                let ghost prev = sel.deep_view();
                let p = self.proposals[i].clone();
                sel.push(p);
                proof {
                    assert forall|k: int|
                        0 <= k < sel.deep_view().len() implies sel.deep_view()[k] == prev.push(
                        ps[i as int],
                    )[k] by {
                        assert(sel.deep_view()[k] == sel@[k].deep_view());
                    }
                    assert(sel.deep_view() =~= prev.push(ps[i as int]));
                }
            }
            i = i + 1;
        }
        proof {
            assert(ps.take(self.proposals.len() as int) =~= ps);
        }

        let ghost selected = ps.filter(pred);
        let mut ordered: Vec<Proposal>;
        if matches!(sort, Some(Sort::Descending)) {
            let mut rev: Vec<Proposal> = Vec::new();
            let mut k: usize = sel.len();
            while k > 0
                invariant
                    k <= sel.len(),
                    sel.deep_view() == selected,
                    rev.deep_view().len() == selected.len() - k,
                    forall|t: int|
                        0 <= t < rev.deep_view().len() ==> #[trigger] rev.deep_view()[t]
                            == selected[selected.len() - 1 - t],
                decreases k,
            {
                k = k - 1;
                let ghost prev = rev.deep_view();
                proof {
                    assert(sel@[k as int]@ == selected[k as int]);
                }
                let p = sel[k].clone();
                rev.push(p);
                proof {
                    assert forall|t: int|
                        0 <= t < rev.deep_view().len() implies rev.deep_view()[t] == prev.push(
                        selected[k as int],
                    )[t] by {
                        assert(rev.deep_view()[t] == rev@[t].deep_view());
                    }
                    assert(rev.deep_view() =~= prev.push(selected[k as int]));
                }
            }
            proof {
                assert(rev.deep_view() =~= selected.reverse());
            }
            ordered = rev;
        } else {
            ordered = sel;
        }
        let ghost ord = if sort == Some(Sort::Descending) {
            selected.reverse()
        } else {
            selected
        };
        proof {
            assert(ordered.deep_view() == ord);
        }

        let lim_bound: u32 = match limit {
            Some(l) => {
                if l > MAX_ITEMS_LIMIT {
                    MAX_ITEMS_LIMIT
                } else {
                    l
                }
            },
            None => DEFAULT_LIMIT,
        };
        let lim = lim_bound as usize;
        let ghost before_cut = ordered.deep_view();
        if ordered.len() > lim {
            ordered.truncate(lim);
            proof {
                assert forall|t: int|
                    0 <= t < ordered.deep_view().len() implies ordered.deep_view()[t]
                    == before_cut.take(lim as int)[t] by {
                    assert(ordered.deep_view()[t] == ordered@[t].deep_view());
                }
                assert(ordered.deep_view() =~= before_cut.take(lim as int));
            }
        } else {
            proof {
                assert(ordered.deep_view() =~= before_cut.take(before_cut.len() as int));
            }
        }
        ProposalsResponse { proposals: ordered }
    }
}

} // verus!
