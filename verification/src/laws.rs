//! The engine's laws, stated once and by name. Each follows from the exact
//! outcome specifications of the operations; writing them down makes the
//! guarantees visible without reading every contract.
use crate::hashing::commitment_digest;
use crate::pallet::Pallet;
use crate::types::Error;
use vstd::prelude::*;

verus! {

impl Pallet {
    /// Commit uniqueness: as long as a commitment under `hash` is pending,
    /// any further commit under the same hash - by any depositor - fails
    /// with `AlreadyCommitted`.
    pub proof fn law_commit_uniqueness(pre: Pallet, depositor: u64, hash: Seq<u8>)
        requires
            pre.commitments.view().contains_key(hash),
        ensures
            Self::commit_result(pre, depositor, hash) == Err::<(), Error>(Error::AlreadyCommitted),
    {
    }

    /// Reveal correctness: a reveal succeeds only against the stored
    /// commitment of its own name and secret; a pair whose digest is not a
    /// stored key - in particular any mismatched pair - fails with
    /// `CommitmentNotFound`.
    pub proof fn law_reveal_correctness(
        pre: Pallet,
        caller: u64,
        name: Seq<u8>,
        secret: u64,
        periods: u64,
        now: u64,
    )
        requires
            !pre.commitments.view().contains_key(commitment_digest(name, secret)),
        ensures
            Self::reveal_result(pre, caller, name, secret, periods, now) == Err::<(), Error>(
                Error::CommitmentNotFound,
            ),
    {
    }

    /// Window enforcement, reveal side: before the minimum commitment age
    /// has elapsed, a reveal fails with `TooEarlyToReveal`.
    pub proof fn law_reveal_window(
        pre: Pallet,
        caller: u64,
        name: Seq<u8>,
        secret: u64,
        periods: u64,
        now: u64,
    )
        requires
            pre.commitments.view().contains_key(commitment_digest(name, secret)),
            now < pre.commitments.view()[commitment_digest(name, secret)].when
                + pre.config.min_commitment_age,
        ensures
            Self::reveal_result(pre, caller, name, secret, periods, now) == Err::<(), Error>(
                Error::TooEarlyToReveal,
            ),
    {
    }

    /// Window enforcement, removal side: up to and including the maximum
    /// commitment age, removing a commitment fails with
    /// `CommitmentNotExpired`.
    pub proof fn law_removal_window(pre: Pallet, hash: Seq<u8>, now: u64)
        requires
            pre.commitments.view().contains_key(hash),
            now <= pre.commitments.view()[hash].when + pre.config.max_commitment_age,
        ensures
            Self::remove_commitment_result(pre, hash, now) == Err::<(), Error>(
                Error::CommitmentNotExpired,
            ),
    {
    }

    /// Authorization boundaries: transfer is refused to everyone but the
    /// owner, and record or controller updates to everyone but the owner
    /// and the controller, each with the ownership error.
    pub proof fn law_authorization(
        pre: Pallet,
        caller: u64,
        new_owner: u64,
        name_hash: Seq<u8>,
        address: u64,
    )
        requires
            pre.registrations.view().contains_key(name_hash),
        ensures
            !pre.registrations.view()[name_hash].is_owner(caller) ==> Self::transfer_result(
                pre,
                caller,
                new_owner,
                name_hash,
            ) == Err::<(), Error>(Error::NotRegistrationOwner),
            !pre.registrations.view()[name_hash].is_controller(caller) ==> {
                &&& Self::set_controller_result(pre, caller, name_hash) == Err::<(), Error>(
                    Error::NotRegistrationOwner,
                )
                &&& Self::set_record_result(pre, caller, name_hash, address) == Err::<(), Error>(
                    Error::NotRegistrationOwner,
                )
            },
    {
    }

    /// Relaxation after expiry: once a registration has expired, anyone
    /// may deregister it - the ownership check no longer applies.
    pub proof fn law_expired_deregistration(pre: Pallet, caller: u64, name_hash: Seq<u8>, now: u64)
        requires
            pre.registrations.view().contains_key(name_hash),
            pre.registrations.view()[name_hash].is_expired_at(now),
        ensures
            Self::deregister_result(pre, caller, name_hash, now) == Ok::<(), Error>(()),
    {
    }

    /// Subnode cleanup gating: while the parent registration still exists,
    /// only the subnode's owner may remove the subnode; once the parent is
    /// gone, anyone may.
    pub proof fn law_subnode_cleanup(
        pre: Pallet,
        caller: u64,
        parent_hash: Seq<u8>,
        label_hash: Seq<u8>,
    )
        requires
            pre.registrations.view().contains_key(
                crate::hashing::subnode_digest(parent_hash, label_hash),
            ),
        ensures
            !pre.registrations.view()[crate::hashing::subnode_digest(
                parent_hash,
                label_hash,
            )].is_owner(caller) && pre.registrations.view().contains_key(parent_hash)
                ==> Self::deregister_subnode_result(pre, caller, parent_hash, label_hash) == Err::<
                (),
                Error,
            >(Error::RegistrationNotExpired),
            !pre.registrations.view().contains_key(parent_hash)
                ==> Self::deregister_subnode_result(pre, caller, parent_hash, label_hash) == Ok::<
                (),
                Error,
            >(()),
    {
    }
}

} // verus!
