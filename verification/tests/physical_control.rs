use pastey_physical::physical::control::{ActionStateV1, ControlLedgerV1, DispositionV1};
use pastey_physical::values::TokenV1;

fn token(value: &str) -> TokenV1 {
    TokenV1::new(value.to_string()).unwrap()
}

/// A root with a 900 ms budget and one admitted action reserving 800 ms,
/// live until 2000.
fn admitted() -> ControlLedgerV1 {
    let mut l = ControlLedgerV1::new();
    l.open_budget(token("root-1"), 900_000).unwrap();
    l.admit_action(token("action-1"), &token("root-1"), 500_000, 800_000, 2000, 1000).unwrap();
    l
}

fn status(l: &ControlLedgerV1) -> (ActionStateV1, DispositionV1, u64, u64) {
    l.action_status(&token("action-1")).unwrap()
}

#[test]
fn admission_reserves_once_within_the_ceiling() {
    let mut l = ControlLedgerV1::new();
    assert!(l.open_budget(token("root-1"), 0).is_err());
    l.open_budget(token("root-1"), 900_000).unwrap();
    assert!(l.open_budget(token("root-1"), 900_000).is_err());
    // Too large, expired, or no budget at all.
    assert!(l.admit_action(token("a"), &token("root-1"), 1, 900_001, 2000, 1000).is_err());
    assert!(l.admit_action(token("a"), &token("root-1"), 1, 800_000, 1000, 1000).is_err());
    assert!(l.admit_action(token("a"), &token("root-2"), 1, 800_000, 2000, 1000).is_err());
    l.admit_action(token("action-1"), &token("root-1"), 500_000, 800_000, 2000, 1000).unwrap();
    assert_eq!(status(&l), (ActionStateV1::Open, DispositionV1::NotSent, 800_000, 0));
    // A second proposal of the same root never gets a second reservation.
    assert!(l.admit_action(token("action-2"), &token("root-1"), 1, 1, 2000, 1000).is_err());
    assert_eq!(status(&l).2, 800_000);
}

#[test]
fn dispatch_is_decided_once_before_any_apply() {
    let mut l = admitted();
    l.prepare_write(&token("action-1"), token("op-1"), false, 1500).unwrap();
    assert_eq!(status(&l), (ActionStateV1::Open, DispositionV1::DispatchUnknown, 800_000, 800_000));
    // In flight: neither a second dispatch nor a refresh.
    assert!(l.prepare_write(&token("action-1"), token("op-2"), false, 1500).is_err());
    assert!(l.prepare_write(&token("action-1"), token("op-2"), true, 1500).is_err());
    // A stale callback changes nothing.
    assert_eq!(l.finish_write(&token("action-1"), &token("op-x"), Some(true), false, 1500).unwrap(), false);
    assert!(l.finish_write(&token("action-1"), &token("op-1"), Some(true), false, 1500).unwrap());
    assert_eq!(status(&l), (ActionStateV1::Open, DispositionV1::FakeAccepted, 800_000, 800_000));
    // Never a second dispatch of the same action.
    assert!(l.prepare_write(&token("action-1"), token("op-3"), false, 1500).is_err());
}

#[test]
fn refusal_and_unknown_outcome_keep_the_whole_budget_and_never_resend() {
    for result in [Some(false), None] {
        let mut l = admitted();
        l.prepare_write(&token("action-1"), token("op-1"), false, 1500).unwrap();
        assert!(l.finish_write(&token("action-1"), &token("op-1"), result, false, 1500).unwrap());
        let expected = if result.is_some() { DispositionV1::FakeRefused } else { DispositionV1::DispatchUnknown };
        assert_eq!(status(&l), (ActionStateV1::Open, expected, 800_000, 800_000));
        assert!(l.prepare_write(&token("action-1"), token("op-2"), false, 1500).is_err());
        assert!(l.prepare_write(&token("action-1"), token("op-2"), true, 1500).is_err());
        l.close_root(&token("root-1"));
        assert_eq!(status(&l), (ActionStateV1::Closed, expected, 800_000, 800_000));
    }
}

#[test]
fn refresh_only_follows_an_accepted_apply_and_unknown_refresh_cannot_retry() {
    let mut l = admitted();
    assert!(l.prepare_write(&token("action-1"), token("op-0"), true, 1500).is_err());
    l.prepare_write(&token("action-1"), token("op-1"), false, 1500).unwrap();
    l.finish_write(&token("action-1"), &token("op-1"), Some(true), false, 1500).unwrap();
    l.prepare_write(&token("action-1"), token("op-2"), true, 1600).unwrap();
    assert!(l.finish_write(&token("action-1"), &token("op-2"), Some(true), true, 1600).unwrap());
    assert_eq!(status(&l).1, DispositionV1::FakeAccepted);
    l.prepare_write(&token("action-1"), token("op-3"), true, 1700).unwrap();
    assert!(l.finish_write(&token("action-1"), &token("op-3"), None, true, 1700).unwrap());
    assert_eq!(status(&l), (ActionStateV1::Open, DispositionV1::DispatchUnknown, 800_000, 800_000));
    assert!(l.prepare_write(&token("action-1"), token("op-4"), true, 1800).is_err());
}

#[test]
fn closing_before_dispatch_releases_only_the_unsent_reservation() {
    let mut l = admitted();
    l.close_root(&token("root-1"));
    assert_eq!(status(&l), (ActionStateV1::Closed, DispositionV1::NotSent, 0, 0));
    assert!(l.prepare_write(&token("action-1"), token("op-1"), false, 1500).is_err());
    // The released budget admits nothing new for this root's closed action.
    assert!(l.admit_action(token("action-2"), &token("root-1"), 1, 1, 2000, 1000).is_err());
}

#[test]
fn expired_actions_take_no_write_or_callback() {
    let mut l = admitted();
    assert!(l.prepare_write(&token("action-1"), token("op-1"), false, 2000).is_err());
    l.prepare_write(&token("action-1"), token("op-1"), false, 1999).unwrap();
    assert!(l.finish_write(&token("action-1"), &token("op-1"), Some(true), false, 2000).is_err());
    assert!(l.finish_write(&token("unknown"), &token("op-1"), Some(true), false, 1000).is_err());
}

#[test]
fn restart_makes_in_flight_dispatches_unknown() {
    let mut l = admitted();
    l.prepare_write(&token("action-1"), token("op-1"), false, 1500).unwrap();
    l.interrupt_dispatches();
    assert_eq!(status(&l).1, DispositionV1::DispatchUnknown);
    // The interrupted write's late reply is stale.
    assert_eq!(l.finish_write(&token("action-1"), &token("op-1"), Some(true), false, 1500).unwrap(), false);

    let mut refused = admitted();
    refused.prepare_write(&token("action-1"), token("op-1"), false, 1500).unwrap();
    refused.finish_write(&token("action-1"), &token("op-1"), Some(false), false, 1500).unwrap();
    refused.interrupt_dispatches();
    assert_eq!(status(&refused).1, DispositionV1::FakeRefused);
}

#[test]
fn a_refresh_reply_cannot_rewrite_the_apply_result() {
    let mut l = admitted();
    l.prepare_write(&token("action-1"), token("op-1"), false, 1500).unwrap();
    l.finish_write(&token("action-1"), &token("op-1"), Some(true), false, 1500).unwrap();
    l.prepare_write(&token("action-1"), token("op-2"), true, 1600).unwrap();
    // Answering the refresh as a refused apply would contradict the kept result.
    assert!(l.finish_write(&token("action-1"), &token("op-2"), Some(false), false, 1600).is_err());
    assert!(l.finish_write(&token("action-1"), &token("op-2"), Some(true), true, 1600).unwrap());
}

#[test]
fn stored_control_facts_restore_only_when_consistent() {
    let mut l = admitted();
    l.prepare_write(&token("action-1"), token("op-1"), false, 1500).unwrap();
    let (budgets, actions) = l.into_parts();
    let restored = ControlLedgerV1::restore(budgets.clone(), actions.clone())
        .unwrap_or_else(|e| panic!("{}", e.message()));
    assert_eq!(status(&restored), (ActionStateV1::Open, DispositionV1::DispatchUnknown, 800_000, 800_000));
    let mut released = budgets.clone();
    released[0].consumed_us = 0;
    match ControlLedgerV1::restore(released, actions.clone()) {
        Err(err) => assert_eq!(err.message(), "Control ledger records are inconsistent."),
        Ok(_) => panic!("a dispatched action with an unconsumed budget was accepted"),
    }
    assert!(ControlLedgerV1::restore(Vec::new(), actions.clone()).is_err());
    let mut twice = actions.clone();
    twice.push(actions[0].clone());
    assert!(ControlLedgerV1::restore(budgets.clone(), twice).is_err());
    let (budgets, actions) = admitted().into_parts();
    assert!(ControlLedgerV1::restore(budgets, actions).is_ok());
}
