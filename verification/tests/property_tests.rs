use proposal_manager::aggregate::aggregate_coins;
use proposal_manager::coin::Coin;
use proposal_manager::error::ContractError;
use proposal_manager::helpers::validate_fees_are_paid;
use proposal_manager::manager::ProposalManager;
use proposal_manager::state::{ProposalBy, ProposalStatus, Sort, Status};

fn coin(amount: u128, denom: &str) -> Coin {
    Coin { denom: denom.to_string(), amount }
}

fn manager_with_fee(amount: u128, denom: &str) -> ProposalManager {
    ProposalManager::new(Some("admin".to_string()), coin(amount, denom))
}

// Aggregation folds duplicates, sorts by denomination, and is idempotent.
#[test]
fn aggregate_idempotent_and_canonical() {
    let coins = vec![
        coin(5, "uom"),
        coin(2, "ibc/xxx"),
        coin(7, "uom"),
        coin(1, "atom"),
        coin(3, "ibc/xxx"),
    ];
    let once = aggregate_coins(coins).unwrap();
    assert_eq!(once, vec![coin(1, "atom"), coin(5, "ibc/xxx"), coin(12, "uom")]);

    let twice = aggregate_coins(once).unwrap();
    assert_eq!(twice, vec![coin(1, "atom"), coin(5, "ibc/xxx"), coin(12, "uom")]);
}

// A denomination attached with zero net amount is retained, not dropped.
#[test]
fn aggregate_keeps_zero_entries() {
    let out = aggregate_coins(vec![coin(0, "uom"), coin(4, "atom")]).unwrap();
    assert_eq!(out, vec![coin(4, "atom"), coin(0, "uom")]);
}

// Summing amounts of one denomination beyond the amount range is refused.
#[test]
fn aggregate_overflow() {
    let r = aggregate_coins(vec![coin(u128::MAX, "uom"), coin(1, "uom")]);
    assert!(matches!(r.unwrap_err(), ContractError::ArithmeticOverflow));
}

// Fee exactness with an empty gift: a shortfall and a surplus both fail with
// the exact amounts reported; the exact fee succeeds.
#[test]
fn fee_exactness_empty_gift() {
    let mut manager = manager_with_fee(100, "uom");
    let proposer = "alice".to_string();
    let receiver = "bob".to_string();

    let r = manager.create_proposal(&proposer, None, None, &receiver, vec![], &vec![coin(99, "uom")], 1);
    assert_eq!(
        r.unwrap_err(),
        ContractError::InvalidProposalCreationFee { amount: 99, expected: 100 }
    );

    let r = manager.create_proposal(&proposer, None, None, &receiver, vec![], &vec![coin(101, "uom")], 1);
    assert_eq!(
        r.unwrap_err(),
        ContractError::InvalidProposalCreationFee { amount: 101, expected: 100 }
    );

    let r = manager.create_proposal(&proposer, None, None, &receiver, vec![], &vec![coin(100, "uom")], 1);
    assert_eq!(r.unwrap(), 0);
}

// A single-denomination gift overlapping the fee denomination: the attached
// amount must equal fee plus gift exactly.
#[test]
fn fee_overlapping_gift() {
    let proposer = "alice".to_string();
    let receiver = "bob".to_string();

    let mut manager = manager_with_fee(100, "uom");
    let r = manager.create_proposal(
        &proposer,
        None,
        None,
        &receiver,
        vec![coin(50, "uom")],
        &vec![coin(150, "uom")],
        1,
    );
    assert_eq!(r.unwrap(), 0);

    let r = manager.create_proposal(
        &proposer,
        None,
        None,
        &receiver,
        vec![coin(50, "uom")],
        &vec![coin(149, "uom")],
        1,
    );
    assert_eq!(
        r.unwrap_err(),
        ContractError::InvalidProposalCreationFee { amount: 149, expected: 150 }
    );

    let r = manager.create_proposal(
        &proposer,
        None,
        None,
        &receiver,
        vec![coin(50, "uom")],
        &vec![coin(151, "uom")],
        1,
    );
    assert_eq!(
        r.unwrap_err(),
        ContractError::InvalidProposalCreationFee { amount: 151, expected: 150 }
    );
}

// A gift disjoint from the fee denomination: both legs must be attached
// exactly; omitting the gift leg fails the gift check.
#[test]
fn fee_disjoint_gift() {
    let proposer = "alice".to_string();
    let receiver = "bob".to_string();

    let mut manager = manager_with_fee(100, "uom");
    let r = manager.create_proposal(
        &proposer,
        None,
        None,
        &receiver,
        vec![coin(50, "ibc/xxx")],
        &vec![coin(100, "uom"), coin(50, "ibc/xxx")],
        1,
    );
    assert_eq!(r.unwrap(), 0);

    let r = manager.create_proposal(
        &proposer,
        None,
        None,
        &receiver,
        vec![coin(50, "ibc/xxx")],
        &vec![coin(100, "uom")],
        1,
    );
    assert_eq!(r.unwrap_err(), ContractError::GiftFeeNotPaid);
}

// A gift of several denominations, one of them the fee denomination: the fee
// denomination must cover fee plus gift exactly, every other leg exactly; a
// surplus in the fee denomination is extra funds.
#[test]
fn fee_multi_denom_gift_with_fee_overlap() {
    let proposer = "alice".to_string();
    let receiver = "bob".to_string();

    let mut manager = manager_with_fee(100, "uom");
    let gift = vec![coin(50, "uom"), coin(20, "ibc/xxx")];
    let r = manager.create_proposal(
        &proposer,
        None,
        None,
        &receiver,
        gift.clone(),
        &vec![coin(150, "uom"), coin(20, "ibc/xxx")],
        1,
    );
    assert_eq!(r.unwrap(), 0);

    let r = manager.create_proposal(
        &proposer,
        None,
        None,
        &receiver,
        gift.clone(),
        &vec![coin(151, "uom"), coin(20, "ibc/xxx")],
        1,
    );
    assert_eq!(r.unwrap_err(), ContractError::ExtraFundsSent);

    let r = manager.create_proposal(
        &proposer,
        None,
        None,
        &receiver,
        gift.clone(),
        &vec![coin(149, "uom"), coin(20, "ibc/xxx")],
        1,
    );
    assert_eq!(r.unwrap_err(), ContractError::GiftFeeNotPaid);

    let r = manager.create_proposal(
        &proposer,
        None,
        None,
        &receiver,
        gift.clone(),
        &vec![coin(150, "uom"), coin(21, "ibc/xxx")],
        1,
    );
    assert_eq!(r.unwrap_err(), ContractError::GiftFeeNotPaid);
}

// An attached denomination outside the required set is refused.
#[test]
fn extra_denomination_refused() {
    let proposer = "alice".to_string();
    let receiver = "bob".to_string();

    let mut manager = manager_with_fee(100, "uom");
    let r = manager.create_proposal(
        &proposer,
        None,
        None,
        &receiver,
        vec![],
        &vec![coin(100, "uom"), coin(5, "ibc/xxx")],
        1,
    );
    assert_eq!(r.unwrap_err(), ContractError::ExtraFundsSent);
}

// The fee validator reports the aggregated required total.
#[test]
fn validator_returns_required_total() {
    let fee = coin(100, "uom");
    let gift = vec![coin(20, "ibc/xxx"), coin(50, "uom")];
    let funds = vec![coin(150, "uom"), coin(20, "ibc/xxx")];
    let gift = aggregate_coins(gift).unwrap();
    let total = validate_fees_are_paid(&fee, &gift, &funds).unwrap();
    assert_eq!(total, vec![coin(20, "ibc/xxx"), coin(150, "uom")]);
}

// A proposer can never address a proposal to themselves, whatever the funds.
#[test]
fn self_proposal_rejected() {
    let alice = "alice".to_string();

    let mut manager = manager_with_fee(100, "uom");
    let r = manager.create_proposal(&alice, None, None, &alice, vec![], &vec![], 1);
    assert_eq!(r.unwrap_err(), ContractError::InvalidReceiver);

    let r = manager.create_proposal(&alice, None, None, &alice, vec![], &vec![coin(100, "uom")], 1);
    assert_eq!(r.unwrap_err(), ContractError::InvalidReceiver);
}

// Only the proposer may cancel, only while pending; a second cancel finds
// nothing.
#[test]
fn cancel_authorization_and_status_gate() {
    let proposer = "alice".to_string();
    let receiver = "bob".to_string();

    let mut manager = manager_with_fee(100, "uom");
    manager
        .create_proposal(&proposer, None, None, &receiver, vec![], &vec![coin(100, "uom")], 1)
        .unwrap();
    manager
        .create_proposal(&proposer, None, None, &receiver, vec![], &vec![coin(100, "uom")], 1)
        .unwrap();

    // Not the proposer.
    let r = manager.cancel_proposal(&receiver, 0);
    assert_eq!(r.unwrap_err(), ContractError::Unauthorized);

    // Accepted proposals can no longer be cancelled.
    manager.say_yes(&receiver, 1, None, 2).unwrap();
    let r = manager.cancel_proposal(&proposer, 1);
    assert_eq!(
        r.unwrap_err(),
        ContractError::CancelProposalInvalidStatus { current_status: ProposalStatus::Yes }
    );

    // A successful cancel deletes the record; a second cancel finds nothing.
    let transfers = manager.cancel_proposal(&proposer, 0).unwrap();
    assert_eq!(transfers.len(), 1);
    assert_eq!(transfers[0].to_address, proposer);
    assert_eq!(transfers[0].amount, vec![coin(100, "uom")]);
    let r = manager.cancel_proposal(&proposer, 0);
    assert_eq!(r.unwrap_err(), ContractError::NotFound);
}

// Only the receiver may respond, and the refund or payout covers the whole
// escrow with no residual.
#[test]
fn respond_authorization_and_payout() {
    let proposer = "alice".to_string();
    let receiver = "bob".to_string();

    let mut manager = manager_with_fee(100, "uom");
    let gift = vec![coin(50, "uom"), coin(30, "ibc/xxx")];
    let funds = vec![coin(150, "uom"), coin(30, "ibc/xxx")];
    manager.create_proposal(&proposer, None, None, &receiver, gift.clone(), &funds, 1).unwrap();
    manager.create_proposal(&proposer, None, None, &receiver, gift.clone(), &funds, 1).unwrap();

    assert_eq!(manager.say_yes(&proposer, 0, None, 2).unwrap_err(), ContractError::Unauthorized);
    assert_eq!(manager.say_no(&proposer, 0, None, 2).unwrap_err(), ContractError::Unauthorized);

    // A decline refunds fee plus gift to the proposer, aggregated to exactly
    // the escrow.
    let transfers = manager.say_no(&receiver, 0, None, 2).unwrap();
    assert!(transfers.iter().all(|t| t.to_address == proposer));
    let mut refunded: Vec<Coin> = Vec::new();
    for t in &transfers {
        for c in &t.amount {
            refunded.push(coin(c.amount, &c.denom));
        }
    }
    let refunded = aggregate_coins(refunded).unwrap();
    assert_eq!(refunded, vec![coin(30, "ibc/xxx"), coin(150, "uom")]);

    // An acceptance pays the fee to the owner and the gift to the receiver,
    // together exactly the escrow.
    let transfers = manager.say_yes(&receiver, 1, None, 2).unwrap();
    assert_eq!(transfers.len(), 2);
    assert_eq!(transfers[0].to_address, "admin".to_string());
    assert_eq!(transfers[0].amount, vec![coin(100, "uom")]);
    assert_eq!(transfers[1].to_address, receiver);
    assert_eq!(transfers[1].amount, vec![coin(30, "ibc/xxx"), coin(50, "uom")]);
}

// When ownership was renounced, an acceptance sends the fee back to the
// proposer.
#[test]
fn accept_fee_falls_back_to_proposer_without_owner() {
    let proposer = "alice".to_string();
    let receiver = "bob".to_string();

    let mut manager = ProposalManager::new(None, coin(100, "uom"));
    manager
        .create_proposal(&proposer, None, None, &receiver, vec![], &vec![coin(100, "uom")], 1)
        .unwrap();
    let transfers = manager.say_yes(&receiver, 0, None, 2).unwrap();
    assert_eq!(transfers.len(), 1);
    assert_eq!(transfers[0].to_address, proposer);
    assert_eq!(transfers[0].amount, vec![coin(100, "uom")]);
}

fn assert_counters_consistent(manager: &ProposalManager) {
    let st = manager.status_summary().unwrap();
    let pending = manager
        .query_proposals(Some(100), None, None, None).proposals
        .iter()
        .filter(|p| p.status == ProposalStatus::Pending)
        .count() as u64;
    assert_eq!(
        st.total_proposals,
        st.total_proposals_yes + st.total_proposals_no + st.total_proposals_cancelled + pending
    );
    assert_eq!(st.total_proposals_pending, pending);
}

// The creation tally always equals accepted + declined + cancelled + pending,
// after every step of a whole lifecycle.
#[test]
fn counter_consistency() {
    let proposer = "alice".to_string();
    let receiver = "bob".to_string();
    let funds = vec![coin(100, "uom")];

    let mut manager = manager_with_fee(100, "uom");
    assert_counters_consistent(&manager);

    for _ in 0..4 {
        manager.create_proposal(&proposer, None, None, &receiver, vec![], &funds, 1).unwrap();
        assert_counters_consistent(&manager);
    }
    manager.say_yes(&receiver, 0, None, 2).unwrap();
    assert_counters_consistent(&manager);
    manager.say_no(&receiver, 1, None, 2).unwrap();
    assert_counters_consistent(&manager);
    manager.cancel_proposal(&proposer, 2).unwrap();
    assert_counters_consistent(&manager);

    let st = manager.status_summary().unwrap();
    assert_eq!(
        st,
        Status {
            total_proposals: 4,
            total_proposals_pending: 1,
            total_proposals_yes: 1,
            total_proposals_no: 1,
            total_proposals_cancelled: 1,
        }
    );
}

// Re-accepting an already accepted proposal is permitted and counts again;
// the derived pending tally then underflows.
#[test]
fn reaccept_double_counts_and_underflows_summary() {
    let proposer = "alice".to_string();
    let receiver = "bob".to_string();

    let mut manager = manager_with_fee(100, "uom");
    manager
        .create_proposal(&proposer, None, None, &receiver, vec![], &vec![coin(100, "uom")], 1)
        .unwrap();
    manager.say_yes(&receiver, 0, None, 2).unwrap();
    manager.say_yes(&receiver, 0, Some("again".to_string()), 3).unwrap();

    let r = manager.status_summary();
    assert_eq!(r.unwrap_err(), ContractError::ArithmeticUnderflow);
}

// A participant-filtered indexed listing returns the same id set as a full
// scan filtered by the same predicate.
#[test]
fn index_matches_scan() {
    let alice = "alice".to_string();
    let bob = "bob".to_string();
    let carol = "carol".to_string();
    let funds = vec![coin(100, "uom")];

    let mut manager = manager_with_fee(100, "uom");
    manager.create_proposal(&alice, None, None, &bob, vec![], &funds, 1).unwrap();
    manager.create_proposal(&alice, None, None, &carol, vec![], &funds, 1).unwrap();
    manager.create_proposal(&carol, None, None, &bob, vec![], &funds, 1).unwrap();
    manager.create_proposal(&bob, None, None, &alice, vec![], &funds, 1).unwrap();
    manager.say_yes(&bob, 0, None, 2).unwrap();

    let scan = manager.query_proposals(Some(100), None, None, None).proposals;

    for who in [&alice, &bob, &carol] {
        let indexed: Vec<u64> = manager
            .query_proposals(Some(100), Some(ProposalBy::Proposer(who.clone())), None, None)
            .proposals
            .iter()
            .map(|p| p.id)
            .collect();
        let scanned: Vec<u64> =
            scan.iter().filter(|p| p.proposer == **who).map(|p| p.id).collect();
        assert_eq!(indexed, scanned);

        let indexed: Vec<u64> = manager
            .query_proposals(
                Some(100),
                Some(ProposalBy::Receiver(who.clone())),
                Some(ProposalStatus::Pending),
                None,
            )
            .proposals
            .iter()
            .map(|p| p.id)
            .collect();
        let scanned: Vec<u64> = scan
            .iter()
            .filter(|p| p.receiver == **who && p.status == ProposalStatus::Pending)
            .map(|p| p.id)
            .collect();
        assert_eq!(indexed, scanned);
    }
}

// Listings default to ten entries, honour an explicit limit, and order by id
// in the requested direction, truncating after ordering.
#[test]
fn listing_limit_and_order() {
    let proposer = "alice".to_string();
    let receiver = "bob".to_string();
    let funds = vec![coin(100, "uom")];

    let mut manager = manager_with_fee(100, "uom");
    for _ in 0..12 {
        manager.create_proposal(&proposer, None, None, &receiver, vec![], &funds, 1).unwrap();
    }

    let defaulted = manager.query_proposals(None, None, None, None).proposals;
    assert_eq!(defaulted.len(), 10);
    let ids: Vec<u64> = defaulted.iter().map(|p| p.id).collect();
    assert_eq!(ids, vec![0, 1, 2, 3, 4, 5, 6, 7, 8, 9]);

    let descending = manager.query_proposals(
        Some(3),
        Some(ProposalBy::Proposer(proposer.clone())),
        None,
        Some(Sort::Descending),
    );
    let ids: Vec<u64> = descending.proposals.iter().map(|p| p.id).collect();
    assert_eq!(ids, vec![11, 10, 9]);
}

// The proposal record keeps its creation data and tracks the reply.
#[test]
fn proposal_record_fields() {
    let proposer = "alice".to_string();
    let receiver = "bob".to_string();

    let mut manager = manager_with_fee(100, "uom");
    manager
        .create_proposal(
            &proposer,
            Some("t".to_string()),
            Some("s".to_string()),
            &receiver,
            vec![coin(7, "ibc/xxx")],
            &vec![coin(100, "uom"), coin(7, "ibc/xxx")],
            41,
        )
        .unwrap();
    {
        let p = manager.query_proposal(0).unwrap();
        assert_eq!(p.id, 0);
        assert_eq!(p.fee, coin(100, "uom"));
        assert_eq!(p.gift, vec![coin(7, "ibc/xxx")]);
        assert_eq!(p.title, Some("t".to_string()));
        assert_eq!(p.speech, Some("s".to_string()));
        assert_eq!(p.reply, None);
        assert_eq!(p.created_at, 41);
        assert_eq!(p.replied_at, None);
    }
    manager.say_no(&receiver, 0, Some("no".to_string()), 77).unwrap();
    let p = manager.query_proposal(0).unwrap();
    assert_eq!(p.status, ProposalStatus::No);
    assert_eq!(p.reply, Some("no".to_string()));
    assert_eq!(p.replied_at, Some(77));
}

// Status codes and labels are stable.
#[test]
fn status_code_and_label() {
    assert_eq!(u8::from(ProposalStatus::Pending), 0);
    assert_eq!(u8::from(ProposalStatus::Yes), 1);
    assert_eq!(u8::from(ProposalStatus::No), 2);
    assert_eq!(ProposalStatus::Pending.label(), "Pending".to_string());
    assert_eq!(ProposalStatus::Yes.label(), "Yes".to_string());
    assert_eq!(ProposalStatus::No.label(), "No".to_string());
}

// The owner seam: replacing the owner redirects later fee payouts.
#[test]
fn set_owner_changes_fee_destination() {
    let proposer = "alice".to_string();
    let receiver = "bob".to_string();

    let mut manager = manager_with_fee(100, "uom");
    manager
        .create_proposal(&proposer, None, None, &receiver, vec![], &vec![coin(100, "uom")], 1)
        .unwrap();
    manager.set_owner(Some("new_owner".to_string()));
    let transfers = manager.say_yes(&receiver, 0, None, 2).unwrap();
    assert_eq!(transfers[0].to_address, "new_owner".to_string());
}

// A persisted store reloads into an equivalent one; records that violate the
// store invariants are refused.
#[test]
fn restore_roundtrip_and_corruption() {
    let proposer = "alice".to_string();
    let receiver = "bob".to_string();

    let mut manager = manager_with_fee(100, "uom");
    manager
        .create_proposal(&proposer, None, None, &receiver, vec![], &vec![coin(100, "uom")], 1)
        .unwrap();
    manager.say_yes(&receiver, 0, None, 2).unwrap();
    manager
        .create_proposal(&proposer, None, None, &receiver, vec![], &vec![coin(100, "uom")], 3)
        .unwrap();

    let restored = ProposalManager::restore(
        coin(100, "uom"),
        manager.owner.clone(),
        manager.query_proposals(Some(100), None, None, None).proposals,
        manager.total_created,
        manager.accepted,
        manager.declined,
        manager.cancelled,
    )
    .unwrap();
    assert_eq!(restored.total_created, 2);
    assert_eq!(restored.accepted, 1);
    assert_eq!(restored.query_proposal(0).unwrap().status, ProposalStatus::Yes);
    assert_eq!(restored.query_proposal(1).unwrap().status, ProposalStatus::Pending);

    // An id at or above the creation counter cannot come from this store.
    let bad = ProposalManager::restore(
        coin(100, "uom"),
        None,
        manager.query_proposals(Some(100), None, None, None).proposals,
        1,
        0,
        0,
        0,
    );
    assert!(bad.is_none());
}

// Counter increments are overflow-checked and report the new value.
#[test]
fn counter_increment() {
    let mut c: u64 = 41;
    assert_eq!(proposal_manager::manager::increment(&mut c).unwrap(), 42);
    assert_eq!(c, 42);
    let mut c: u64 = u64::MAX;
    assert_eq!(
        proposal_manager::manager::increment(&mut c).unwrap_err(),
        ContractError::ArithmeticOverflow
    );
    assert_eq!(c, u64::MAX);
}
