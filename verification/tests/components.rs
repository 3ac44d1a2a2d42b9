//! Tests of the engine's components: the hashing scheme, the fee schedule,
//! the keyed store, the ledger and its fungible-token capabilities, and
//! the combined asset identifier.
use blake2::{Blake2b256, Digest};
use core::cmp::Ordering;
use name_service::assets::{MultiAssetIdConverter, NativeOrAssetId, NativeOrAssetIdConverter, PoolInfo};
use name_service::fungibles::{
    DepositConsequence, Inspect, InspectHold, Mutate, MutateHold, Transfer, WithdrawConsequence,
};
use name_service::hashing::{commitment_hash, name_hash, subnode_hash};
use name_service::ledger::Ledger;
use name_service::store::{bytes_eq, Store};
use name_service::types::{sat_add64, sat_mul64, Config, Error};

fn config() -> Config {
    Config {
        commitment_deposit: 10,
        min_commitment_age: 5,
        max_commitment_age: 100,
        subnode_deposit: 3,
        tier_three_letters: 100,
        tier_four_letters: 80,
        tier_default: 50,
        blocks_per_registration_period: 1000,
        fee_per_registration_period: 7,
        fee_beneficiary: 999,
    }
}

#[test]
fn name_hash_is_the_digest_of_the_name() {
    let expected: Vec<u8> = Blake2b256::digest(b"abc").to_vec();
    assert_eq!(name_hash(&b"abc".to_vec()), expected);
    assert_ne!(name_hash(&b"abd".to_vec()), expected);
    assert_eq!(expected.len(), 32);
}

#[test]
fn commitment_hash_binds_name_and_secret() {
    let secret: u64 = 0x0102_0304_0506_0708;
    let mut input = b"abc".to_vec();
    input.extend_from_slice(&secret.to_le_bytes());
    let expected: Vec<u8> = Blake2b256::digest(&input).to_vec();
    assert_eq!(commitment_hash(&b"abc".to_vec(), secret), expected);
    assert_ne!(commitment_hash(&b"abc".to_vec(), secret + 1), expected);
    assert_ne!(commitment_hash(&b"abd".to_vec(), secret), expected);
}

#[test]
fn subnode_hash_composes_parent_and_label() {
    let parent = name_hash(&b"abc".to_vec());
    let label_hash = name_hash(&b"www".to_vec());
    let mut input = parent.clone();
    input.extend_from_slice(&label_hash);
    let expected: Vec<u8> = Blake2b256::digest(&input).to_vec();
    assert_eq!(subnode_hash(&parent, &label_hash), expected);
}

#[test]
fn fee_schedule_tiers_and_periods() {
    let c = config();
    assert_eq!(c.registration_fee(3, 1), 100 + 7);
    assert_eq!(c.registration_fee(4, 2), 80 + 14);
    assert_eq!(c.registration_fee(5, 0), 50);
    assert_eq!(c.registration_fee(40, 10), 50 + 70);
    assert_eq!(c.renewal_fee(6), 42);
    assert_eq!(c.expiry_after(20, 1), 1020);
}

#[test]
fn fee_arithmetic_saturates() {
    let mut c = config();
    c.fee_per_registration_period = u64::MAX;
    assert_eq!(c.registration_fee(3, 2), u64::MAX);
    c.blocks_per_registration_period = u64::MAX;
    assert_eq!(c.expiry_after(5, 3), u64::MAX);
    assert_eq!(sat_add64(u64::MAX - 1, 5), u64::MAX);
    assert_eq!(sat_add64(2, 5), 7);
    assert_eq!(sat_mul64(u64::MAX / 2, 3), u64::MAX);
    assert_eq!(sat_mul64(1 << 20, 1 << 20), 1 << 40);
}

#[test]
fn store_keeps_one_value_per_key() {
    let mut s: Store<u64> = Store::new();
    assert!(!s.contains(&b"k1".to_vec()));
    s.insert(b"k1".to_vec(), 7);
    s.insert(b"k2".to_vec(), 8);
    assert_eq!(s.get(&b"k1".to_vec()), Some(7));
    assert_eq!(s.get(&b"k2".to_vec()), Some(8));
    assert_eq!(s.get(&b"k3".to_vec()), None);
    assert_eq!(s.len(), 2);
    assert_eq!(s.remove(&b"k1".to_vec()), Some(7));
    assert_eq!(s.remove(&b"k1".to_vec()), None);
    assert_eq!(s.len(), 1);
    assert!(bytes_eq(&b"abc".to_vec(), &b"abc".to_vec()));
    assert!(!bytes_eq(&b"abc".to_vec(), &b"abd".to_vec()));
    assert!(!bytes_eq(&b"abc".to_vec(), &b"abcd".to_vec()));
}

#[test]
fn ledger_reserve_and_refund_round_trip() {
    let mut l = Ledger::new();
    assert!(l.endow(1, 100));
    assert!(l.reserve(1, 40));
    assert_eq!(l.free_balance(1), 60);
    assert_eq!(l.held_balance(1), 40);
    l.unreserve(1, 40);
    assert_eq!(l.free_balance(1), 100);
    assert_eq!(l.held_balance(1), 0);
    assert!(!l.reserve(1, 101));
    assert!(l.pay(1, 2, 30));
    assert_eq!(l.free_balance(1), 70);
    assert_eq!(l.free_balance(2), 30);
    assert!(!l.pay(1, 2, 71));
}

#[test]
fn ledger_endow_rejects_overflow() {
    let mut l = Ledger::new();
    assert!(l.endow(1, u64::MAX));
    assert!(!l.endow(1, 1));
    assert_eq!(l.free_balance(1), u64::MAX);
}

#[test]
fn fungible_inspect_and_mutate() {
    let mut l = Ledger::new();
    l.mint_into((), &1, 500).unwrap();
    assert_eq!(l.balance((), &1), 500);
    assert_eq!(l.reducible_balance((), &1, false), 500);
    assert_eq!(l.total_issuance(()), 500);
    assert_eq!(l.minimum_balance(()), 0);
    assert!(l.asset_exists(()));
    assert_eq!(l.can_withdraw((), &1, 500), WithdrawConsequence::Success);
    assert_eq!(l.can_withdraw((), &1, 501), WithdrawConsequence::BalanceLow);
    assert_eq!(l.can_deposit((), &1, u64::MAX, false), DepositConsequence::Overflow);
    assert_eq!(l.can_deposit((), &1, 5, false), DepositConsequence::Success);
    assert_eq!(l.burn_from((), &1, 200), Ok(200));
    assert_eq!(l.burn_from((), &1, 301), Err(Error::InsufficientFunds));
    assert_eq!(l.slash((), &1, 1000), Ok(300));
    assert_eq!(l.balance((), &1), 0);
}

#[test]
fn fungible_transfer_and_teleport() {
    let mut l = Ledger::new();
    l.mint_into((), &1, 100).unwrap();
    assert_eq!(l.transfer((), &1, &2, 60, false), Ok(60));
    assert_eq!(l.teleport((), &2, &3, 10), Ok(10));
    assert_eq!(l.balance((), &1), 40);
    assert_eq!(l.balance((), &2), 50);
    assert_eq!(l.balance((), &3), 10);
    assert_eq!(l.transfer((), &1, &2, 41, false), Err(Error::InsufficientFunds));
    l.deactivate((), 5);
    l.reactivate((), 5);
    assert_eq!(l.total_issuance(()), 100);
}

#[test]
fn fungible_holds() {
    let mut l = Ledger::new();
    l.mint_into((), &1, 100).unwrap();
    assert!(l.can_hold((), &1, 100));
    assert!(!l.can_hold((), &1, 101));
    l.hold((), &1, 70).unwrap();
    assert_eq!(l.balance_on_hold((), &1), 70);
    assert_eq!(l.hold((), &1, 31), Err(Error::InsufficientFunds));
    // A strict release of more than is held fails; best effort releases
    // what is there.
    assert_eq!(l.release((), &1, 80, false), Err(Error::InsufficientFunds));
    assert_eq!(l.release((), &1, 20, false), Ok(20));
    assert_eq!(l.release((), &1, 80, true), Ok(50));
    assert_eq!(l.balance_on_hold((), &1), 0);
    assert_eq!(l.balance((), &1), 100);
}

#[test]
fn fungible_transfer_held() {
    let mut l = Ledger::new();
    l.mint_into((), &1, 100).unwrap();
    l.hold((), &1, 80).unwrap();
    // Moved on hold: the amount stays held, now for the destination.
    assert_eq!(l.transfer_held((), &1, &2, 30, false, true, false), Ok(30));
    assert_eq!(l.balance_on_hold((), &2), 30);
    // Moved free: the destination receives it as free balance.
    assert_eq!(l.transfer_held((), &1, &2, 20, false, false, false), Ok(20));
    assert_eq!(l.balance((), &2), 20);
    // Strictly asking for more than is held fails; best effort moves the
    // remainder.
    assert_eq!(
        l.transfer_held((), &1, &2, 31, false, true, false),
        Err(Error::InsufficientFunds)
    );
    assert_eq!(l.transfer_held((), &1, &2, 31, true, true, false), Ok(30));
    assert_eq!(l.balance_on_hold((), &1), 0);
    assert_eq!(l.balance_on_hold((), &2), 60);
}

#[test]
fn native_or_asset_ordering() {
    let native: NativeOrAssetId<u32> = NativeOrAssetId::Native;
    let small: NativeOrAssetId<u32> = NativeOrAssetId::Asset(1);
    let large: NativeOrAssetId<u32> = NativeOrAssetId::Asset(9);
    assert_eq!(native.cmp(&native), Ordering::Equal);
    assert_eq!(native.cmp(&small), Ordering::Less);
    assert_eq!(small.cmp(&native), Ordering::Greater);
    assert_eq!(small.cmp(&large), Ordering::Less);
    assert_eq!(large.cmp(&small), Ordering::Greater);
    assert_eq!(small.cmp(&small), Ordering::Equal);
    assert_eq!(native.partial_cmp(&small), Some(Ordering::Less));
    assert!(small.eq(&small));
    assert!(!small.eq(&large));
    assert!(!native.eq(&small));
}

#[test]
fn multi_asset_id_conversion() {
    type Converter = NativeOrAssetIdConverter<u32>;
    let native: NativeOrAssetId<u32> =
        <Converter as MultiAssetIdConverter<NativeOrAssetId<u32>, u32>>::get_native();
    assert!(native.eq(&NativeOrAssetId::Native));
    let wrapped =
        <Converter as MultiAssetIdConverter<NativeOrAssetId<u32>, u32>>::into_multiasset_id(7);
    assert!(wrapped.eq(&NativeOrAssetId::Asset(7)));
    assert_eq!(
        <Converter as MultiAssetIdConverter<NativeOrAssetId<u32>, u32>>::try_convert(wrapped),
        Ok(7)
    );
    assert_eq!(
        <Converter as MultiAssetIdConverter<NativeOrAssetId<u32>, u32>>::try_convert(native),
        Err(())
    );
}

#[test]
fn pool_info_holds_its_token() {
    let a = PoolInfo { lp_token: 5u32 };
    let b = PoolInfo { lp_token: 5u32 };
    assert_eq!(a, b);
    assert_eq!(a.lp_token, 5);
}
