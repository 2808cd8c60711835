//! Behaviour of the ledger operations on concrete histories.

use crowdfund::codec::encode_contract;
use crowdfund::state::{Contract, ContractError, Outcome, ONE_NEAR};

fn one_campaign() -> Contract {
    let mut c = Contract::init("alice".to_string());
    let id = c
        .add_crowdfund("Eye surgery".to_string(), 30, "desc".to_string())
        .unwrap();
    assert_eq!(id, 0);
    c
}

#[test]
fn init_starts_empty() {
    let c = Contract::init("alice".to_string());
    assert_eq!(c.owner, "alice");
    assert_eq!(c.crowdfund_count(), 0);
    assert!(c.crowdfunds.is_empty());
    assert!(c.donations.is_empty());
}

#[test]
fn scenario_eye_surgery() {
    let mut c = Contract::init("alice".to_string());
    let id = c
        .add_crowdfund("Eye surgery".to_string(), 30, "desc".to_string())
        .unwrap();
    assert_eq!(id, 0);
    assert_eq!(c.crowdfund_count(), 1);

    c.add_vote(0, "bob".to_string()).unwrap();
    assert_eq!(c.crowdfunds[0].total_votes, 1);

    let (ix, amount) = c.add_donation(0, 1, "bob".to_string()).unwrap();
    assert_eq!(amount, ONE_NEAR);
    c.reconcile_donation(ix, true).unwrap();
    assert_eq!(c.get_total_donations(0).unwrap(), ONE_NEAR);

    let (ix2, amount2) = c.add_donation(0, 2, "carol".to_string()).unwrap();
    assert_eq!(amount2, 2 * ONE_NEAR);
    assert_eq!(
        c.reconcile_donation(ix2, false),
        Err(ContractError::TransferFailure)
    );
    assert_eq!(c.get_total_donations(0).unwrap(), ONE_NEAR);
}

#[test]
fn add_vote_appends_voter_and_tally() {
    let mut c = one_campaign();
    c.add_vote(0, "bob".to_string()).unwrap();
    c.add_vote(0, "bob".to_string()).unwrap();
    c.add_vote(0, "carol".to_string()).unwrap();
    assert_eq!(
        c.crowdfunds[0].votes,
        vec!["bob".to_string(), "bob".to_string(), "carol".to_string()]
    );
    assert_eq!(c.crowdfunds[0].total_votes, 3);
    assert_eq!(c.crowdfunds[0].total_votes as usize, c.crowdfunds[0].votes.len());
}

#[test]
fn invalid_id_not_found_state_unchanged() {
    let mut c = one_campaign();
    let (ix, _) = c.add_donation(0, 3, "bob".to_string()).unwrap();
    c.reconcile_donation(ix, true).unwrap();

    let before = encode_contract(&c);
    assert_eq!(c.add_vote(7, "bob".to_string()), Err(ContractError::NotFound));
    assert_eq!(
        c.add_donation(7, 1, "bob".to_string()),
        Err(ContractError::NotFound)
    );
    assert_eq!(c.get_total_donations(7), Err(ContractError::NotFound));
    assert_eq!(encode_contract(&c), before);
}

#[test]
fn count_tracks_successful_adds() {
    let mut c = Contract::init("alice".to_string());
    assert_eq!(c.crowdfund_count(), 0);
    c.add_crowdfund("a".to_string(), 1, "d".to_string()).unwrap();
    assert_eq!(c.crowdfund_count(), 1);
    assert_eq!(
        c.add_crowdfund(String::new(), 1, "d".to_string()),
        Err(ContractError::InvalidInput)
    );
    assert_eq!(
        c.add_crowdfund("t".to_string(), 1, String::new()),
        Err(ContractError::InvalidInput)
    );
    assert_eq!(c.crowdfund_count(), 1);
    let id = c.add_crowdfund("b".to_string(), 2, "d".to_string()).unwrap();
    assert_eq!(id, 1);
    assert_eq!(c.crowdfund_count(), 2);
}

#[test]
fn failed_transfer_recorded_not_counted() {
    let mut c = one_campaign();
    let (ix, amount) = c.add_donation(0, 5, "dan".to_string()).unwrap();
    assert_eq!(amount, 5 * ONE_NEAR);
    assert_eq!(c.donations[ix].outcome, Outcome::Pending);
    assert_eq!(
        c.reconcile_donation(ix, false),
        Err(ContractError::TransferFailure)
    );
    assert_eq!(c.donations[ix].outcome, Outcome::Failed);
    assert_eq!(c.donations[ix].settlement, 5 * ONE_NEAR);
    assert_eq!(c.donations[ix].donor, "dan");
    assert_eq!(c.get_total_donations(0).unwrap(), 0);
}

#[test]
fn totals_never_decrease() {
    let mut c = one_campaign();
    let mut last: u128 = c.get_total_donations(0).unwrap();

    let (i1, _) = c.add_donation(0, 1, "a".to_string()).unwrap();
    assert!(c.get_total_donations(0).unwrap() >= last);
    last = c.get_total_donations(0).unwrap();

    c.reconcile_donation(i1, true).unwrap();
    assert!(c.get_total_donations(0).unwrap() >= last);
    assert_eq!(c.get_total_donations(0).unwrap(), last + ONE_NEAR);
    last = c.get_total_donations(0).unwrap();

    let (i2, _) = c.add_donation(0, 2, "b".to_string()).unwrap();
    let _ = c.reconcile_donation(i2, false);
    assert!(c.get_total_donations(0).unwrap() >= last);
    last = c.get_total_donations(0).unwrap();

    c.add_vote(0, "a".to_string()).unwrap();
    c.add_crowdfund("other".to_string(), 9, "d".to_string()).unwrap();
    assert_eq!(c.get_total_donations(0).unwrap(), last);
}

#[test]
fn conversion_overflow_rejected() {
    let mut c = one_campaign();
    let before = encode_contract(&c);
    assert_eq!(
        c.add_donation(0, u128::MAX, "rich".to_string()),
        Err(ContractError::ArithmeticOverflow)
    );
    assert_eq!(encode_contract(&c), before);
}

#[test]
fn accumulation_overflow_leaves_donation_pending() {
    let mut c = one_campaign();
    let big: u128 = u128::MAX / ONE_NEAR;
    let (i1, _) = c.add_donation(0, big, "a".to_string()).unwrap();
    c.reconcile_donation(i1, true).unwrap();
    let total = c.get_total_donations(0).unwrap();
    let (i2, _) = c.add_donation(0, big, "b".to_string()).unwrap();
    assert_eq!(
        c.reconcile_donation(i2, true),
        Err(ContractError::ArithmeticOverflow)
    );
    assert_eq!(c.donations[i2].outcome, Outcome::Pending);
    assert_eq!(c.get_total_donations(0).unwrap(), total);
}

#[test]
fn reconcile_requires_pending_donation() {
    let mut c = one_campaign();
    assert_eq!(c.reconcile_donation(0, true), Err(ContractError::NotFound));
    let (ix, _) = c.add_donation(0, 1, "a".to_string()).unwrap();
    c.reconcile_donation(ix, true).unwrap();
    assert_eq!(c.reconcile_donation(ix, true), Err(ContractError::NotFound));
    assert_eq!(c.get_total_donations(0).unwrap(), ONE_NEAR);
}

#[test]
fn list_returns_snapshot() {
    let mut c = one_campaign();
    c.add_crowdfund("Second".to_string(), 7, "more".to_string()).unwrap();
    c.add_vote(1, "eve".to_string()).unwrap();
    let listed = c.list_crowdfunds();
    assert_eq!(listed, c.crowdfunds);
    assert_eq!(listed[0].title, "Eye surgery");
    assert_eq!(listed[1].id, 1);
}
