//! End-to-end tests of the commit-reveal registration engine.
use name_service::hashing::{commitment_hash, name_hash, subnode_hash};
use name_service::types::{Config, Error, Event, Registration};
use name_service::pallet::Pallet;

const ALICE: u64 = 1;
const BOB: u64 = 2;
const CHARLIE: u64 = 3;
const BENEFICIARY: u64 = 999;
const START: u64 = 1_000_000;

fn config() -> Config {
    Config {
        commitment_deposit: 10,
        min_commitment_age: 5,
        max_commitment_age: 100,
        subnode_deposit: 3,
        tier_three_letters: 100,
        tier_four_letters: 80,
        tier_default: 50,
        blocks_per_registration_period: 1000,
        fee_per_registration_period: 7,
        fee_beneficiary: BENEFICIARY,
    }
}

fn setup() -> Pallet {
    let mut p = Pallet::new(config());
    assert!(p.endow(ALICE, START));
    assert!(p.endow(BOB, START));
    assert!(p.endow(CHARLIE, START));
    p
}

/// Registers "abc" for ALICE at time 10, revealing at time 20.
fn register_abc(p: &mut Pallet) -> Vec<u8> {
    let secret = 42u64;
    let h = commitment_hash(&b"abc".to_vec(), secret);
    p.commit(ALICE, ALICE, h, 10).unwrap();
    p.reveal_name(ALICE, b"abc".to_vec(), secret, 1, 20).unwrap();
    name_hash(&b"abc".to_vec())
}

#[test]
fn commit_reveal_scenario() {
    let mut p = setup();
    let secret = 7u64;
    let h = commitment_hash(&b"abc".to_vec(), secret);
    p.commit(ALICE, ALICE, h.clone(), 10).unwrap();
    // The deposit is reserved while the commitment is pending.
    assert_eq!(p.free_balance(ALICE), START - 10);
    assert_eq!(p.held_balance(ALICE), 10);
    // Before the minimum age has elapsed the reveal is too early.
    assert_eq!(
        p.reveal_name(ALICE, b"abc".to_vec(), secret, 1, 14),
        Err(Error::TooEarlyToReveal)
    );
    // Once it has elapsed the registration is created.
    p.reveal_name(ALICE, b"abc".to_vec(), secret, 1, 15).unwrap();
    let nh = name_hash(&b"abc".to_vec());
    let reg = p.get_registration(&nh).unwrap();
    assert_eq!(reg.owner, ALICE);
    assert_eq!(reg.controller, ALICE);
    assert_eq!(reg.expiry, Some(15 + 1000));
    assert_eq!(reg.deposit, None);
    // The commitment is gone and the deposit refunded; only the fee of
    // one three-letter tier plus one period remains spent.
    assert!(p.get_commitment(&h).is_none());
    assert_eq!(p.free_balance(ALICE), START - (100 + 7));
    assert_eq!(p.held_balance(ALICE), 0);
    assert_eq!(p.free_balance(BENEFICIARY), 100 + 7);
}

#[test]
fn commit_with_same_hash_fails() {
    let mut p = setup();
    let h = commitment_hash(&b"abc".to_vec(), 1);
    p.commit(ALICE, ALICE, h.clone(), 10).unwrap();
    // A second commitment under the same hash is refused, whoever makes it.
    assert_eq!(p.commit(ALICE, ALICE, h.clone(), 11), Err(Error::AlreadyCommitted));
    assert_eq!(p.commit(BOB, BOB, h.clone(), 12), Err(Error::AlreadyCommitted));
    // Only one deposit was reserved.
    assert_eq!(p.held_balance(ALICE), 10);
    assert_eq!(p.held_balance(BOB), 0);
}

#[test]
fn reveal_with_wrong_secret_finds_no_commitment() {
    let mut p = setup();
    let h = commitment_hash(&b"abc".to_vec(), 1);
    p.commit(ALICE, ALICE, h, 10).unwrap();
    // A mismatched secret hashes to a different key.
    assert_eq!(
        p.reveal_name(ALICE, b"abc".to_vec(), 2, 1, 50),
        Err(Error::CommitmentNotFound)
    );
    // So does a mismatched name.
    assert_eq!(
        p.reveal_name(ALICE, b"abd".to_vec(), 1, 1, 50),
        Err(Error::CommitmentNotFound)
    );
}

#[test]
fn reveal_rejects_short_names() {
    let mut p = setup();
    let h = commitment_hash(&b"ab".to_vec(), 5);
    p.commit(ALICE, ALICE, h, 10).unwrap();
    assert_eq!(
        p.reveal_name(ALICE, b"ab".to_vec(), 5, 1, 50),
        Err(Error::LabelTooShort)
    );
    let h = commitment_hash(&Vec::new(), 6);
    p.commit(ALICE, ALICE, h, 10).unwrap();
    assert_eq!(
        p.reveal_name(ALICE, Vec::new(), 6, 1, 50),
        Err(Error::LabelTooShort)
    );
}

#[test]
fn reveal_rejects_registered_name() {
    let mut p = setup();
    register_abc(&mut p);
    let h = commitment_hash(&b"abc".to_vec(), 99);
    p.commit(BOB, BOB, h, 30).unwrap();
    assert_eq!(
        p.reveal_name(BOB, b"abc".to_vec(), 99, 1, 40),
        Err(Error::RegistrationExists)
    );
}

#[test]
fn commitment_window_boundaries() {
    let mut p = setup();
    let h = commitment_hash(&b"xyz".to_vec(), 3);
    p.commit(ALICE, ALICE, h.clone(), 10).unwrap();
    // The reveal window opens exactly at the minimum age.
    assert_eq!(
        p.reveal_name(ALICE, b"xyz".to_vec(), 3, 1, 10 + 5 - 1),
        Err(Error::TooEarlyToReveal)
    );
    // Removal is allowed only strictly past the maximum age.
    assert_eq!(p.remove_commitment(&h, 10 + 100), Err(Error::CommitmentNotExpired));
    p.remove_commitment(&h, 10 + 100 + 1).unwrap();
    assert!(p.get_commitment(&h).is_none());
    // The deposit round-trip restores the balance exactly.
    assert_eq!(p.free_balance(ALICE), START);
    assert_eq!(p.held_balance(ALICE), 0);
    // A second removal finds nothing.
    assert_eq!(p.remove_commitment(&h, 200), Err(Error::CommitmentNotFound));
}

#[test]
fn fee_tiers_by_name_length() {
    let mut p = setup();
    for (name, tier) in [
        (b"abc".to_vec(), 100u64),
        (b"abcd".to_vec(), 80),
        (b"abcde".to_vec(), 50),
        (b"abcdefgh".to_vec(), 50),
    ] {
        let before = p.free_balance(BOB);
        let h = commitment_hash(&name, 8);
        p.commit(BOB, BOB, h, 10).unwrap();
        p.reveal_name(BOB, name, 8, 3, 20).unwrap();
        // Deposit refunded; fee is the tier plus three periods.
        assert_eq!(p.free_balance(BOB), before - (tier + 3 * 7));
    }
}

#[test]
fn insufficient_funds_are_reported() {
    let mut p = Pallet::new(config());
    assert!(p.endow(ALICE, 5));
    let h = commitment_hash(&b"abc".to_vec(), 1);
    // The commitment deposit of 10 exceeds the free balance of 5.
    assert_eq!(p.commit(ALICE, ALICE, h, 10), Err(Error::InsufficientFunds));
    assert_eq!(p.free_balance(ALICE), 5);
}

#[test]
fn transfer_requires_ownership() {
    let mut p = setup();
    let nh = register_abc(&mut p);
    assert_eq!(
        p.transfer(BOB, BOB, nh.clone()),
        Err(Error::NotRegistrationOwner)
    );
    p.transfer(ALICE, BOB, nh.clone()).unwrap();
    let reg = p.get_registration(&nh).unwrap();
    assert_eq!(reg.owner, BOB);
    // The controller does not change with the transfer.
    assert_eq!(reg.controller, ALICE);
    assert_eq!(
        p.transfer(BOB, CHARLIE, name_hash(&b"none".to_vec())),
        Err(Error::RegistrationNotFound)
    );
}

#[test]
fn set_controller_authorization() {
    let mut p = setup();
    let nh = register_abc(&mut p);
    assert_eq!(
        p.set_controller(BOB, nh.clone(), BOB),
        Err(Error::NotRegistrationOwner)
    );
    p.set_controller(ALICE, nh.clone(), BOB).unwrap();
    assert_eq!(p.get_registration(&nh).unwrap().controller, BOB);
    // The new controller may delegate further; the owner always may.
    p.set_controller(BOB, nh.clone(), CHARLIE).unwrap();
    p.set_controller(ALICE, nh.clone(), ALICE).unwrap();
}

#[test]
fn set_record_and_resolve() {
    let mut p = setup();
    let nh = register_abc(&mut p);
    assert!(p.resolve(&nh).is_none());
    assert_eq!(
        p.set_record(BOB, nh.clone(), BOB),
        Err(Error::NotRegistrationOwner)
    );
    p.set_record(ALICE, nh.clone(), CHARLIE).unwrap();
    assert_eq!(p.resolve(&nh), Some(CHARLIE));
    // Setting the identical address again is refused.
    assert_eq!(p.set_record(ALICE, nh.clone(), CHARLIE), Err(Error::AlreadySet));
    // The controller may overwrite with a different address.
    p.set_controller(ALICE, nh.clone(), BOB).unwrap();
    p.set_record(BOB, nh.clone(), BOB).unwrap();
    assert_eq!(p.resolve(&nh), Some(BOB));
}

#[test]
fn renew_extends_from_current_expiry() {
    let mut p = setup();
    let nh = register_abc(&mut p);
    // Registered at 20 for one period: expires at 1020.
    let before = p.free_balance(BOB);
    p.renew(BOB, nh.clone(), 2, 30).unwrap();
    let reg = p.get_registration(&nh).unwrap();
    assert_eq!(reg.expiry, Some(1020 + 2000));
    // Anyone may renew; the caller pays only the per-period fee.
    assert_eq!(p.free_balance(BOB), before - 2 * 7);
}

#[test]
fn renew_rejects_permanent_and_expired() {
    let mut p = setup();
    p.force_register(name_hash(&b"perm".to_vec()), ALICE, None).unwrap();
    assert_eq!(
        p.renew(ALICE, name_hash(&b"perm".to_vec()), 1, 10),
        Err(Error::RegistrationHasNoExpiry)
    );
    let nh = register_abc(&mut p);
    // The registration expires at 1020; at that time renewal is refused.
    assert_eq!(p.renew(ALICE, nh.clone(), 1, 1020), Err(Error::RegistrationExpired));
    assert_eq!(
        p.renew(ALICE, name_hash(&b"none".to_vec()), 1, 10),
        Err(Error::RegistrationNotFound)
    );
}

#[test]
fn deregister_ownership_relaxes_after_expiry() {
    let mut p = setup();
    let nh = register_abc(&mut p);
    p.set_record(ALICE, nh.clone(), ALICE).unwrap();
    // While the registration lives, only the owner may remove it.
    assert_eq!(p.deregister(BOB, nh.clone(), 500), Err(Error::NotRegistrationOwner));
    // From the expiry time on, anyone may.
    p.deregister(BOB, nh.clone(), 1020).unwrap();
    assert!(p.get_registration(&nh).is_none());
    assert!(p.resolve(&nh).is_none());
    assert_eq!(
        p.deregister(BOB, nh.clone(), 1020),
        Err(Error::RegistrationNotFound)
    );
}

#[test]
fn owner_deregisters_before_expiry() {
    let mut p = setup();
    let nh = register_abc(&mut p);
    p.deregister(ALICE, nh.clone(), 30).unwrap();
    assert!(p.get_registration(&nh).is_none());
}

#[test]
fn force_register_overwrites_and_refunds() {
    let mut p = setup();
    let nh = register_abc(&mut p);
    p.force_register(nh.clone(), BOB, Some(5000)).unwrap();
    let reg = p.get_registration(&nh).unwrap();
    assert_eq!(reg.owner, BOB);
    assert_eq!(reg.expiry, Some(5000));
    assert_eq!(reg.deposit, None);
    // Overwriting a deposit-backed subnode returns the deposit.
    let parent = nh.clone();
    p.set_subnode_record(BOB, parent.clone(), b"www".to_vec()).unwrap();
    let sub = subnode_hash(&parent, &name_hash(&b"www".to_vec()));
    assert_eq!(p.held_balance(BOB), 3);
    p.force_register(sub.clone(), CHARLIE, None).unwrap();
    assert_eq!(p.held_balance(BOB), 0);
    assert_eq!(p.get_registration(&sub).unwrap().owner, CHARLIE);
}

#[test]
fn force_deregister_always_succeeds() {
    let mut p = setup();
    let nh = register_abc(&mut p);
    p.force_deregister(nh.clone()).unwrap();
    assert!(p.get_registration(&nh).is_none());
    // Removing a missing registration is a successful no-op.
    p.force_deregister(nh.clone()).unwrap();
}

#[test]
fn subnode_record_lifecycle() {
    let mut p = setup();
    let parent = register_abc(&mut p);
    assert_eq!(
        p.set_subnode_record(ALICE, parent.clone(), b"ww".to_vec()),
        Err(Error::LabelTooShort)
    );
    assert_eq!(
        p.set_subnode_record(BOB, parent.clone(), b"www".to_vec()),
        Err(Error::NotRegistrationOwner)
    );
    p.set_subnode_record(ALICE, parent.clone(), b"www".to_vec()).unwrap();
    let sub = subnode_hash(&parent, &name_hash(&b"www".to_vec()));
    let reg = p.get_registration(&sub).unwrap();
    assert_eq!(reg.owner, ALICE);
    assert_eq!(reg.expiry, None);
    assert_eq!(reg.deposit, Some(3));
    assert_eq!(p.held_balance(ALICE), 3);
    // A subnode cannot be created twice.
    assert_eq!(
        p.set_subnode_record(ALICE, parent.clone(), b"www".to_vec()),
        Err(Error::RegistrationExists)
    );
}

#[test]
fn subnode_cleanup_gated_on_parent() {
    let mut p = setup();
    let parent = register_abc(&mut p);
    p.set_subnode_record(ALICE, parent.clone(), b"www".to_vec()).unwrap();
    let label_hash = name_hash(&b"www".to_vec());
    let sub = subnode_hash(&parent, &label_hash);
    // While the parent registration exists, only the subnode's owner may
    // remove it.
    assert_eq!(
        p.deregister_subnode(BOB, parent.clone(), label_hash.clone()),
        Err(Error::RegistrationNotExpired)
    );
    // Once the parent is gone, cleanup by anyone is legitimate.
    p.deregister(BOB, parent.clone(), 1020).unwrap();
    p.deregister_subnode(BOB, parent.clone(), label_hash.clone()).unwrap();
    assert!(p.get_registration(&sub).is_none());
    // The deposit went back to the subnode's owner.
    assert_eq!(p.held_balance(ALICE), 0);
    assert_eq!(
        p.deregister_subnode(BOB, parent, label_hash),
        Err(Error::RegistrationNotFound)
    );
}

#[test]
fn subnode_owner_always_may_deregister() {
    let mut p = setup();
    let parent = register_abc(&mut p);
    p.set_subnode_record(ALICE, parent.clone(), b"www".to_vec()).unwrap();
    let label_hash = name_hash(&b"www".to_vec());
    p.deregister_subnode(ALICE, parent, label_hash).unwrap();
    assert_eq!(p.held_balance(ALICE), 0);
}

#[test]
fn set_subnode_owner_creates_and_transfers() {
    let mut p = setup();
    let parent = register_abc(&mut p);
    let label_hash = name_hash(&b"www".to_vec());
    let sub = subnode_hash(&parent, &label_hash);
    assert_eq!(
        p.set_subnode_owner(BOB, parent.clone(), label_hash.clone(), BOB),
        Err(Error::NotRegistrationOwner)
    );
    // Creation: the fresh subnode belongs to the assignee, with no deposit.
    p.set_subnode_owner(ALICE, parent.clone(), label_hash.clone(), BOB).unwrap();
    let reg = p.get_registration(&sub).unwrap();
    assert_eq!(reg.owner, BOB);
    assert_eq!(reg.deposit, None);
    // Overwrite: ownership moves again.
    p.set_subnode_owner(ALICE, parent.clone(), label_hash.clone(), CHARLIE).unwrap();
    assert_eq!(p.get_registration(&sub).unwrap().owner, CHARLIE);
}

#[test]
fn subnode_deposit_hold_moves_with_owner() {
    let mut p = setup();
    let parent = register_abc(&mut p);
    p.set_subnode_record(ALICE, parent.clone(), b"www".to_vec()).unwrap();
    let label_hash = name_hash(&b"www".to_vec());
    assert_eq!(p.held_balance(ALICE), 3);
    p.set_subnode_owner(ALICE, parent.clone(), label_hash.clone(), BOB).unwrap();
    // The hold backing the subnode deposit follows the owner.
    assert_eq!(p.held_balance(ALICE), 0);
    assert_eq!(p.held_balance(BOB), 3);
    let sub = subnode_hash(&parent, &label_hash);
    p.deregister_subnode(BOB, parent, label_hash).unwrap();
    assert!(p.get_registration(&sub).is_none());
    assert_eq!(p.held_balance(BOB), 0);
}

#[test]
fn deposits_are_conserved_across_a_session() {
    let mut p = setup();
    let locked = |p: &Pallet| p.held_balance(ALICE) + p.held_balance(BOB) + p.held_balance(CHARLIE);
    assert_eq!(locked(&p), 0);
    let h1 = commitment_hash(&b"abc".to_vec(), 1);
    let h2 = commitment_hash(&b"abcd".to_vec(), 2);
    p.commit(ALICE, ALICE, h1.clone(), 10).unwrap();
    p.commit(BOB, CHARLIE, h2.clone(), 10).unwrap();
    // Two pending commitments: two deposits locked.
    assert_eq!(locked(&p), 20);
    p.reveal_name(ALICE, b"abc".to_vec(), 1, 1, 20).unwrap();
    // One commitment consumed and refunded; registrations from reveal
    // carry no deposit of their own.
    assert_eq!(locked(&p), 10);
    let parent = name_hash(&b"abc".to_vec());
    p.set_subnode_record(ALICE, parent.clone(), b"www".to_vec()).unwrap();
    assert_eq!(locked(&p), 13);
    p.remove_commitment(&h2, 200).unwrap();
    assert_eq!(locked(&p), 3);
    let label_hash = name_hash(&b"www".to_vec());
    p.deregister_subnode(ALICE, parent.clone(), label_hash).unwrap();
    // Everything released: only fees have left the three accounts.
    assert_eq!(locked(&p), 0);
    assert_eq!(p.free_balance(ALICE), START - (100 + 7));
    assert_eq!(p.free_balance(BOB), START);
    assert_eq!(p.free_balance(CHARLIE), START);
}

#[test]
fn notifications_report_each_step() {
    let mut p = setup();
    let h = commitment_hash(&b"abc".to_vec(), 1);
    p.commit(ALICE, ALICE, h.clone(), 10).unwrap();
    assert_eq!(
        p.events().last(),
        Some(&Event::Committed { depositor: ALICE, owner: ALICE, hash: h })
    );
    p.reveal_name(ALICE, b"abc".to_vec(), 1, 1, 20).unwrap();
    let nh = name_hash(&b"abc".to_vec());
    assert_eq!(
        p.events().last(),
        Some(&Event::NameRegistered { name_hash: nh.clone(), owner: ALICE })
    );
    p.transfer(ALICE, BOB, nh.clone()).unwrap();
    assert_eq!(p.events().last(), Some(&Event::NewOwner { from: ALICE, to: BOB }));
    p.set_record(BOB, nh.clone(), BOB).unwrap();
    assert_eq!(
        p.events().last(),
        Some(&Event::AddressSet { name_hash: nh.clone(), address: BOB })
    );
    p.renew(BOB, nh.clone(), 1, 30).unwrap();
    assert_eq!(
        p.events().last(),
        Some(&Event::NameRenewed { name_hash: nh.clone(), expires: 1020 + 1000 })
    );
    p.deregister(BOB, nh.clone(), 40).unwrap();
    assert_eq!(
        p.events().last(),
        Some(&Event::AddressDeregistered { name_hash: nh })
    );
    // A failed call leaves the log untouched.
    let n = p.events().len();
    let _ = p.commit(ALICE, ALICE, commitment_hash(&b"abc".to_vec(), 1), 50);
    let _ = p.transfer(ALICE, BOB, name_hash(&b"none".to_vec()));
    assert_eq!(p.events().len(), n + 1);
}

#[test]
fn permanent_registrations_never_expire() {
    let mut p = setup();
    let nh = name_hash(&b"keep".to_vec());
    p.force_register(nh.clone(), ALICE, None).unwrap();
    // Even far in the future, a non-owner cannot deregister it.
    assert_eq!(
        p.deregister(BOB, nh.clone(), u64::MAX),
        Err(Error::NotRegistrationOwner)
    );
    p.deregister(ALICE, nh.clone(), u64::MAX).unwrap();
}

#[test]
fn registration_record_shape() {
    let mut p = setup();
    let nh = register_abc(&mut p);
    let reg = p.get_registration(&nh).unwrap();
    assert_eq!(
        reg,
        Registration { owner: ALICE, controller: ALICE, expiry: Some(1020), deposit: None }
    );
}
