use proposal_manager::coin::Coin;
use proposal_manager::error::ContractError;
use proposal_manager::manager::ProposalManager;
use proposal_manager::state::{ProposalBy, ProposalStatus, Sort};

fn coin(amount: u128, denom: &str) -> Coin {
    Coin { denom: denom.to_string(), amount }
}

fn suite() -> (ProposalManager, String, String, String) {
    let admin = "admin".to_string();
    let proposer = "proposer".to_string();
    let receiver = "receiver".to_string();
    let manager = ProposalManager::new(Some(admin.clone()), coin(100, "uom"));
    (manager, admin, proposer, receiver)
}

#[test]
fn test_proposal_creation() {
    let (mut manager, _admin, proposer, receiver) = suite();

    // Creating a proposal with insufficient funds fails.
    let r = manager.create_proposal(
        &proposer,
        Some("Title".to_string()),
        Some("Speech".to_string()),
        &receiver,
        vec![],
        &vec![],
        1,
    );
    assert!(r.is_err());

    // Successful proposal creation.
    let r = manager.create_proposal(
        &proposer,
        Some("Title".to_string()),
        Some("Speech".to_string()),
        &receiver,
        vec![],
        &vec![coin(100, "uom")],
        1,
    );
    assert!(r.is_ok());

    // Verify proposal details.
    let proposal = manager.query_proposal(0).unwrap();
    assert_eq!(proposal.proposer, proposer);
    assert_eq!(proposal.receiver, receiver);
    assert_eq!(proposal.status, ProposalStatus::Pending);
}

#[test]
fn test_cancel_proposal() {
    let (mut manager, _admin, proposer, receiver) = suite();

    let r = manager.create_proposal(
        &proposer,
        None,
        None,
        &receiver,
        vec![],
        &vec![coin(100, "uom")],
        1,
    );
    assert!(r.is_ok());

    // Canceling by a non-proposer is refused.
    let r = manager.cancel_proposal(&receiver, 0);
    assert!(matches!(r.unwrap_err(), ContractError::Unauthorized));

    // Successful cancellation.
    let r = manager.cancel_proposal(&proposer, 0);
    assert!(r.is_ok());

    // The proposal was deleted.
    assert!(manager.query_proposal(0).is_none());
}

#[test]
fn test_proposal_response() {
    let (mut manager, _admin, proposer, receiver) = suite();
    let gift = vec![coin(500, "uom")];

    // Create a proposal with a gift: 100 for the fee + 500 for the gift.
    let r = manager.create_proposal(
        &proposer,
        None,
        None,
        &receiver,
        gift.clone(),
        &vec![coin(600, "uom")],
        1,
    );
    assert!(r.is_ok());

    // Saying yes as a non-receiver is refused.
    let r = manager.say_yes(&proposer, 0, None, 2);
    assert!(matches!(r.unwrap_err(), ContractError::Unauthorized));

    // Successful yes response.
    let r = manager.say_yes(&receiver, 0, Some("I accept!".to_string()), 2);
    assert!(r.is_ok());

    // Verify proposal status and reply.
    let proposal = manager.query_proposal(0).unwrap();
    assert_eq!(proposal.status, ProposalStatus::Yes);
    assert_eq!(proposal.reply, Some("I accept!".to_string()));

    // Create a second proposal and decline it.
    let r = manager.create_proposal(
        &proposer,
        None,
        None,
        &receiver,
        gift.clone(),
        &vec![coin(600, "uom")],
        3,
    );
    assert!(r.is_ok());

    let r = manager.say_no(&proposer, 1, None, 4);
    assert!(matches!(r.unwrap_err(), ContractError::Unauthorized));

    let r = manager.say_no(&receiver, 1, Some("I decline!".to_string()), 4);
    assert!(r.is_ok());
}

#[test]
fn test_proposal_multiple_gift_different_denom() {
    let (mut manager, admin, proposer, receiver) = suite();
    let gift = vec![coin(500, "uom"), coin(100, "ibc/xxx")];

    // 100 for the fee + 500 for the gift in uom + 100 for the gift in ibc/xxx.
    let r = manager.create_proposal(
        &proposer,
        None,
        None,
        &receiver,
        gift.clone(),
        &vec![coin(600, "uom"), coin(100, "ibc/xxx")],
        1,
    );
    assert!(r.is_ok());

    // Successful yes response.
    let transfers = manager.say_yes(&receiver, 0, Some("I accept!".to_string()), 2).unwrap();

    // Verify proposal status and reply.
    let proposal = manager.query_proposal(0).unwrap();
    assert_eq!(proposal.status, ProposalStatus::Yes);
    assert_eq!(proposal.reply, Some("I accept!".to_string()));

    // Verify the transfers: the fee goes to the owner, the gift to the
    // receiver, 500 uom and 100 ibc/xxx in canonical denomination order.
    assert_eq!(transfers.len(), 2);
    assert_eq!(transfers[0].to_address, admin);
    assert_eq!(transfers[0].amount, vec![coin(100, "uom")]);
    assert_eq!(transfers[1].to_address, receiver);
    assert_eq!(transfers[1].amount, vec![coin(100, "ibc/xxx"), coin(500, "uom")]);
}

#[test]
fn test_query_proposals() {
    let (mut manager, _admin, proposer, receiver) = suite();

    // Create multiple proposals.
    for i in 0..3 {
        let r = manager.create_proposal(
            &proposer,
            Some(format!("Title {}", i)),
            None,
            &receiver,
            vec![],
            &vec![coin(100, "uom")],
            1,
        );
        assert!(r.is_ok());
    }

    // Query by proposer.
    let proposals = manager.query_proposals(
        None,
        Some(ProposalBy::Proposer(proposer.clone())),
        None,
        Some(Sort::Ascending),
    );
    assert_eq!(proposals.proposals.len(), 3);
    assert!(proposals.proposals.iter().all(|p| p.proposer == proposer));

    // Query by receiver with a status filter.
    let proposals = manager.query_proposals(
        None,
        Some(ProposalBy::Receiver(receiver.clone())),
        Some(ProposalStatus::Pending),
        None,
    );
    assert_eq!(proposals.proposals.len(), 3);
    assert!(proposals.proposals.iter().all(|p| p.receiver == receiver));
}

#[test]
fn test_update_config() {
    let (mut manager, admin, non_admin, _receiver) = suite();

    // Update by a non-admin is refused.
    let r = manager.update_config(&non_admin, Some(coin(200, "uom")));
    assert!(r.is_err());

    // Successful update.
    let r = manager.update_config(&admin, Some(coin(200, "uom")));
    assert!(r.is_ok());

    // Verify the config update.
    let config = manager.get_config();
    assert_eq!(config.successful_proposal_fee, coin(200, "uom"));
}
