//! Targeted checks of the ledger's stated guarantees: conservation of
//! supply, atomicity of failing operations, allowance independence from
//! balances, pause idempotence, notification payloads, and the arithmetic
//! edge cases.

use token::{Approval, BlacklistUpdated, Error, OwnershipTransferred, Paused, Token, Transfer};

const ALICE: u64 = 1;
const BOB: u64 = 2;
const CHARLIE: u64 = 3;

#[test]
fn conservation_across_operations() {
    let mut token = Token::new(ALICE);
    token.mint(ALICE, ALICE, 1000).unwrap();
    token.transfer(ALICE, BOB, 250).unwrap();
    token.approve(ALICE, BOB, 400).unwrap();
    token.transfer_from(BOB, ALICE, CHARLIE, 300).unwrap();
    token.burn(BOB, 50).unwrap();
    token.batch_transfer(ALICE, vec![(BOB, 100), (CHARLIE, 200)]).unwrap();

    let sum = token.balance_of(ALICE) + token.balance_of(BOB) + token.balance_of(CHARLIE);
    assert_eq!(token.total_supply(), sum);
    assert_eq!(token.total_supply(), 950);
}

#[test]
fn mint_transfer_burn_scenario() {
    let mut token = Token::new(ALICE);

    token.mint(ALICE, ALICE, 1000).unwrap();
    assert_eq!(token.balance_of(ALICE), 1000);
    assert_eq!(token.total_supply(), 1000);

    token.transfer(ALICE, BOB, 300).unwrap();
    assert_eq!(token.balance_of(ALICE), 700);
    assert_eq!(token.balance_of(BOB), 300);
    assert_eq!(token.total_supply(), 1000);

    token.burn(ALICE, 200).unwrap();
    assert_eq!(token.balance_of(ALICE), 500);
    assert_eq!(token.total_supply(), 800);
}

#[test]
fn self_transfer_leaves_balance_and_supply_unchanged() {
    let mut token = Token::new(ALICE);
    token.mint(ALICE, ALICE, 500).unwrap();

    token.transfer(ALICE, ALICE, 100).unwrap();

    assert_eq!(token.balance_of(ALICE), 500);
    assert_eq!(token.total_supply(), 500);
}

#[test]
fn mint_event_payload() {
    let mut token = Token::new(ALICE);
    assert_eq!(
        token.mint(ALICE, BOB, 1000),
        Ok(Transfer { from: None, to: Some(BOB), value: 1000 })
    );
}

#[test]
fn burn_event_payload() {
    let mut token = Token::new(ALICE);
    token.mint(ALICE, ALICE, 300).unwrap();
    assert_eq!(
        token.burn(ALICE, 200),
        Ok(Transfer { from: Some(ALICE), to: None, value: 200 })
    );
}

#[test]
fn transfer_event_payload() {
    let mut token = Token::new(ALICE);
    token.mint(ALICE, ALICE, 300).unwrap();
    assert_eq!(
        token.transfer(ALICE, BOB, 100),
        Ok(Transfer { from: Some(ALICE), to: Some(BOB), value: 100 })
    );
}

#[test]
fn approve_ignores_current_balance() {
    let mut token = Token::new(ALICE);

    // Alice has a zero balance, yet may grant any allowance: an allowance is
    // a quota, not a balance lock.
    assert_eq!(token.balance_of(ALICE), 0);
    assert_eq!(
        token.approve(ALICE, BOB, 1000),
        Ok(Approval { owner: ALICE, spender: BOB, value: 1000 })
    );
    assert_eq!(token.allowance(ALICE, BOB), 1000);
}

#[test]
fn transfer_from_fails_on_balance_even_with_allowance() {
    let mut token = Token::new(ALICE);
    token.mint(ALICE, ALICE, 200).unwrap();
    token.approve(ALICE, BOB, 300).unwrap();

    // Allowance (300) covers the spend, the balance (200) does not.
    assert_eq!(
        token.transfer_from(BOB, ALICE, CHARLIE, 250),
        Err(Error::InsufficientBalance)
    );

    // Nothing moved and the allowance was not debited: the operation is atomic.
    assert_eq!(token.balance_of(ALICE), 200);
    assert_eq!(token.balance_of(CHARLIE), 0);
    assert_eq!(token.allowance(ALICE, BOB), 300);
}

#[test]
fn pause_is_idempotent_and_notifies_once() {
    let mut token = Token::new(ALICE);

    // The first call flips the flag and carries a notification.
    assert_eq!(token.pause(ALICE), Ok(Some(Paused { paused: true })));
    assert!(token.is_paused());

    // The second call succeeds as a no-op without a notification.
    assert_eq!(token.pause(ALICE), Ok(None));
    assert!(token.is_paused());
}

#[test]
fn unpause_of_unpaused_ledger_is_a_silent_no_op() {
    let mut token = Token::new(ALICE);
    assert_eq!(token.unpause(ALICE), Ok(None));
    assert!(!token.is_paused());
}

#[test]
fn mint_is_exempt_from_pause() {
    let mut token = Token::new(ALICE);
    token.mint(ALICE, ALICE, 10).unwrap();
    token.pause(ALICE).unwrap();

    assert_eq!(token.transfer(ALICE, BOB, 1), Err(Error::ContractPaused));
    token.mint(ALICE, ALICE, 1).unwrap();
    assert_eq!(token.balance_of(ALICE), 11);
}

#[test]
fn approve_is_exempt_from_pause() {
    let mut token = Token::new(ALICE);
    token.pause(ALICE).unwrap();

    token.approve(ALICE, BOB, 50).unwrap();
    assert_eq!(token.allowance(ALICE, BOB), 50);
}

#[test]
fn batch_skips_zero_amount_entries() {
    let mut token = Token::new(ALICE);
    token.mint(ALICE, ALICE, 500).unwrap();

    let events = token.batch_transfer(ALICE, vec![(BOB, 0), (CHARLIE, 100)]).unwrap();

    // Only the entry that moved tokens raised a notification.
    assert_eq!(events, vec![Transfer { from: Some(ALICE), to: Some(CHARLIE), value: 100 }]);
    assert_eq!(token.balance_of(BOB), 0);
    assert_eq!(token.balance_of(CHARLIE), 100);
    assert_eq!(token.balance_of(ALICE), 400);
}

#[test]
fn batch_with_repeated_recipient_accumulates() {
    let mut token = Token::new(ALICE);
    token.mint(ALICE, ALICE, 300).unwrap();

    let events = token.batch_transfer(ALICE, vec![(BOB, 100), (BOB, 50)]).unwrap();

    assert_eq!(events.len(), 2);
    assert_eq!(token.balance_of(BOB), 150);
    assert_eq!(token.balance_of(ALICE), 150);
    assert_eq!(token.total_supply(), 300);
}

#[test]
fn batch_running_total_overflow_fails_atomically() {
    let mut token = Token::new(ALICE);
    token.mint(ALICE, ALICE, 100).unwrap();

    // The up-front validation pass adds the amounts with checked arithmetic,
    // independent of the caller's balance.
    let recipients = vec![(BOB, u128::MAX), (CHARLIE, 1)];
    assert_eq!(token.batch_transfer(ALICE, recipients), Err(Error::Overflow));

    assert_eq!(token.balance_of(ALICE), 100);
    assert_eq!(token.balance_of(BOB), 0);
    assert_eq!(token.balance_of(CHARLIE), 0);
}

#[test]
fn mint_overflow_detected() {
    let mut token = Token::new(ALICE);
    token.mint(ALICE, ALICE, u128::MAX).unwrap();

    assert_eq!(token.mint(ALICE, BOB, 1), Err(Error::Overflow));
    assert_eq!(token.total_supply(), u128::MAX);
    assert_eq!(token.balance_of(BOB), 0);
}

#[test]
fn increase_allowance_overflow_detected() {
    let mut token = Token::new(ALICE);
    token.approve(ALICE, BOB, u128::MAX).unwrap();

    assert_eq!(token.increase_allowance(ALICE, BOB, 1), Err(Error::Overflow));
    assert_eq!(token.allowance(ALICE, BOB), u128::MAX);
}

#[test]
fn decrease_allowance_below_zero_fails() {
    let mut token = Token::new(ALICE);

    assert_eq!(token.decrease_allowance(ALICE, BOB, 1), Err(Error::InsufficientAllowance));
    assert_eq!(token.allowance(ALICE, BOB), 0);
}

#[test]
fn burn_checks_balance_before_zero_amount() {
    let mut token = Token::new(ALICE);

    // With an empty balance, burning zero still reports the zero amount:
    // the sufficiency check (0 < 0 is false) passes first.
    assert_eq!(token.burn(ALICE, 0), Err(Error::InvalidAmount));
    // A positive over-burn reports the balance.
    assert_eq!(token.burn(ALICE, 5), Err(Error::InsufficientBalance));
}

#[test]
fn approve_replaces_rather_than_accumulates() {
    let mut token = Token::new(ALICE);
    token.approve(ALICE, BOB, 100).unwrap();
    token.approve(ALICE, BOB, 40).unwrap();
    assert_eq!(token.allowance(ALICE, BOB), 40);
}

#[test]
fn blacklist_event_payloads() {
    let mut token = Token::new(ALICE);

    assert_eq!(
        token.blacklist(ALICE, BOB),
        Ok(BlacklistUpdated { account: BOB, blacklisted: true })
    );
    // Clearing an account that is not blacklisted still succeeds and
    // reports the written flag.
    assert_eq!(
        token.unblacklist(ALICE, CHARLIE),
        Ok(BlacklistUpdated { account: CHARLIE, blacklisted: false })
    );
    assert!(!token.is_blacklisted(CHARLIE));
}

#[test]
fn blacklisted_spender_cannot_transfer_from() {
    let mut token = Token::new(ALICE);
    token.mint(ALICE, ALICE, 100).unwrap();
    token.approve(ALICE, BOB, 100).unwrap();
    token.blacklist(ALICE, BOB).unwrap();

    assert_eq!(
        token.transfer_from(BOB, ALICE, CHARLIE, 50),
        Err(Error::AccountBlacklisted)
    );
}

#[test]
fn blacklisted_caller_cannot_approve() {
    let mut token = Token::new(ALICE);
    token.blacklist(ALICE, BOB).unwrap();

    assert_eq!(token.approve(BOB, CHARLIE, 10), Err(Error::AccountBlacklisted));
}

#[test]
fn ownership_transfer_event_payload() {
    let mut token = Token::new(ALICE);
    assert_eq!(
        token.transfer_ownership(ALICE, BOB),
        Ok(OwnershipTransferred { previous_owner: ALICE, new_owner: BOB })
    );
    assert_eq!(token.owner(), BOB);
}

#[test]
fn state_survives_a_persistence_round_trip() {
    let mut token = Token::new(ALICE);
    token.mint(ALICE, ALICE, 1000).unwrap();
    token.transfer(ALICE, BOB, 250).unwrap();
    token.approve(ALICE, BOB, 40).unwrap();
    token.blacklist(ALICE, CHARLIE).unwrap();
    token.pause(ALICE).unwrap();

    let restored = Token::from_parts(
        token.balance_entries(),
        token.allowance_entries(),
        token.blacklisted_accounts(),
        token.owner(),
        token.total_supply(),
        token.is_paused(),
    )
    .unwrap();

    assert_eq!(restored.balance_of(ALICE), 750);
    assert_eq!(restored.balance_of(BOB), 250);
    assert_eq!(restored.allowance(ALICE, BOB), 40);
    assert!(restored.is_blacklisted(CHARLIE));
    assert!(!restored.is_blacklisted(BOB));
    assert_eq!(restored.owner(), ALICE);
    assert_eq!(restored.total_supply(), 1000);
    assert!(restored.is_paused());
}

#[test]
fn from_parts_rejects_duplicate_balance_keys() {
    let restored = Token::from_parts(vec![(BOB, 5), (BOB, 7)], vec![], vec![], ALICE, 12, false);
    assert!(restored.is_none());
}

#[test]
fn from_parts_rejects_mismatched_supply() {
    let restored = Token::from_parts(vec![(BOB, 5)], vec![], vec![], ALICE, 6, false);
    assert!(restored.is_none());
}

#[test]
fn from_parts_accepts_a_consistent_state() {
    let restored = Token::from_parts(
        vec![(BOB, 5), (CHARLIE, 7)],
        vec![((BOB, CHARLIE), 3)],
        vec![CHARLIE],
        ALICE,
        12,
        false,
    )
    .unwrap();
    assert_eq!(restored.balance_of(BOB), 5);
    assert_eq!(restored.total_supply(), 12);
    assert_eq!(restored.allowance(BOB, CHARLIE), 3);
    assert!(restored.is_blacklisted(CHARLIE));
}

#[test]
fn batch_blacklist_failure_changes_nothing() {
    let mut token = Token::new(ALICE);
    token.mint(ALICE, ALICE, 1000).unwrap();
    token.blacklist(ALICE, CHARLIE).unwrap();

    assert_eq!(
        token.batch_transfer(ALICE, vec![(BOB, 100), (CHARLIE, 200)]),
        Err(Error::AccountBlacklisted)
    );

    assert_eq!(token.balance_of(ALICE), 1000);
    assert_eq!(token.balance_of(BOB), 0);
    assert_eq!(token.total_supply(), 1000);
}
