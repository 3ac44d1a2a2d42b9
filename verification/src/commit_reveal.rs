//! The commit-reveal protocol: committing to a hidden name, revealing it to
//! create the registration, and removing stale commitments.
//!
//! Two policy choices the engine fixes explicitly: a commitment older than
//! the maximum age can still be revealed - staleness only opens it to
//! permissionless removal - and a reveal before the commitment's creation
//! time plus the minimum age is too early, while one at exactly that time
//! is allowed.
use crate::hashing::commitment_digest;
use crate::hashing::commitment_hash;
use crate::hashing::digest_of;
use crate::hashing::clone_bytes;
use crate::hashing::name_hash;
use crate::ledger::map_pay;
use crate::ledger::map_reserve;
use crate::ledger::map_unreserve;
use crate::pallet::c_for;
use crate::pallet::commitment_contrib;
use crate::pallet::lemma_c_entry_bound;
use crate::pallet::lemma_c_push;
use crate::pallet::lemma_c_remove;
use crate::pallet::lemma_r_nonneg;
use crate::pallet::lemma_r_push;
use crate::pallet::push_event;
use crate::pallet::r_for;
use crate::pallet::registration_contrib;
use crate::pallet::Pallet;
use crate::store::lemma_assoc_map_contains;
use crate::store::lemma_assoc_map_index;
use crate::types::events_extended;
use crate::types::is_committed_event;
use crate::types::is_registered_event;
use crate::types::Commitment;
use crate::types::Error;
use crate::types::Event;
use crate::types::Registration;
use vstd::prelude::*;

verus! {

impl Pallet {
    /// The outcome `commit` is bound to: a second commitment with a hash
    /// already pending is refused, then an insufficient free balance.
    pub open spec fn commit_result(pre: Pallet, depositor: u64, hash: Seq<u8>) -> Result<
        (),
        Error,
    > {
        if pre.commitments.view().contains_key(hash) {
            Err(Error::AlreadyCommitted)
        } else if !pre.ledger.can_reserve(depositor, pre.config.commitment_deposit) {
            Err(Error::InsufficientFunds)
        } else {
            Ok(())
        }
    }

    /// Commits to a future name registration on behalf of `owner`. The
    /// commitment deposit is reserved from `depositor` until the name is
    /// revealed or the commitment is removed.
    pub fn commit(&mut self, depositor: u64, owner: u64, commitment_hash: Vec<u8>, now: u64) -> (r:
        Result<(), Error>)
        requires
            old(self).wf(),
        ensures
            final(self).wf(),
            final(self).config == old(self).config,
            r == Self::commit_result(*old(self), depositor, commitment_hash@),
            r.is_err() ==> *final(self) == *old(self),
            r.is_ok() ==> final(self).commitments.view() == old(self).commitments.view().insert(
                commitment_hash@,
                Commitment {
                    depositor,
                    owner,
                    when: now,
                    deposit: old(self).config.commitment_deposit,
                },
            ),
            r.is_ok() ==> final(self).registrations == old(self).registrations
                && final(self).resolvers == old(self).resolvers,
            r.is_ok() ==> final(self).ledger.view() == map_reserve(
                old(self).ledger.view(),
                depositor,
                old(self).config.commitment_deposit,
            ),
            r.is_ok() ==> events_extended(old(self).events@, final(self).events@)
                && is_committed_event(final(self).events@.last(), depositor, owner,
            commitment_hash@),
    {
        if self.commitments.contains(&commitment_hash) {
            return Err(Error::AlreadyCommitted);
        }
        let deposit = self.config.commitment_deposit;
        if !self.ledger.reserve(depositor, deposit) {
            return Err(Error::InsufficientFunds);
        }
        let hash_copy = clone_bytes(&commitment_hash);
        let c = Commitment { depositor, owner, when: now, deposit };
        self.commitments.insert(commitment_hash, c);
        push_event(&mut self.events, Event::Committed { depositor, owner, hash: hash_copy });
        proof {
            let oldc = old(self).commitments.entries@;
            let e = self.commitments.entries@.last();
            lemma_c_push(oldc, e);
            assert forall|a: u64|
                #[trigger] self.ledger.held_of(a) == c_for(a, self.commitments.entries@) + r_for(
                    a,
                    self.registrations.entries@,
                ) by {
                assert(old(self).ledger.held_of(a) == c_for(a, oldc) + r_for(
                    a,
                    old(self).registrations.entries@,
                ));
            }
        }
        Ok(())
    }

    /// The outcome `reveal` is bound to, with the checks in this order: an
    /// unknown commitment hash (a mismatched name or secret by definition
    /// hashes to one), a commitment younger than the minimum age, a name
    /// shorter than three characters, an already registered name, and an
    /// insufficient free balance for the fee.
    pub open spec fn reveal_result(
        pre: Pallet,
        caller: u64,
        name: Seq<u8>,
        secret: u64,
        periods: u64,
        now: u64,
    ) -> Result<(), Error> {
        let chash = commitment_digest(name, secret);
        if !pre.commitments.view().contains_key(chash) {
            Err(Error::CommitmentNotFound)
        } else if now < pre.commitments.view()[chash].when + pre.config.min_commitment_age {
            Err(Error::TooEarlyToReveal)
        } else if name.len() < 3 {
            Err(Error::LabelTooShort)
        } else if pre.registrations.view().contains_key(digest_of(name)) {
            Err(Error::RegistrationExists)
        } else if !pre.ledger.can_pay(
            caller,
            pre.config.fee_beneficiary,
            pre.config.spec_registration_fee(name.len(), periods) as u64,
        ) {
            Err(Error::InsufficientFunds)
        } else {
            Ok(())
        }
    }

    /// Reveals a previously committed name. The caller pays the
    /// non-refundable, length-tiered registration fee; the registration is
    /// created for the committed owner with the owner as controller; the
    /// commitment is consumed and its deposit refunded to the depositor.
    pub fn reveal_name(
        &mut self,
        caller: u64,
        name: Vec<u8>,
        secret: u64,
        periods: u64,
        now: u64,
    ) -> (r: Result<(), Error>)
        requires
            old(self).wf(),
        ensures
            final(self).wf(),
            final(self).config == old(self).config,
            r == Self::reveal_result(*old(self), caller, name@, secret, periods, now),
            r.is_err() ==> *final(self) == *old(self),
            r.is_ok() ==> ({
                let c = old(self).commitments.view()[commitment_digest(name@, secret)];
                let fee = old(self).config.spec_registration_fee(name@.len(), periods) as u64;
                let expiry = old(self).config.spec_expiry_after(now, periods) as u64;
                &&& final(self).commitments.view() == old(self).commitments.view().remove(
                    commitment_digest(name@, secret),
                )
                &&& final(self).registrations.view() == old(self).registrations.view().insert(
                    digest_of(name@),
                    Registration {
                        owner: c.owner,
                        controller: c.owner,
                        expiry: Some(expiry),
                        deposit: None,
                    },
                )
                &&& final(self).resolvers == old(self).resolvers
                &&& final(self).ledger.view() == map_unreserve(
                    map_pay(
                        old(self).ledger.view(),
                        caller,
                        old(self).config.fee_beneficiary,
                        fee,
                    ),
                    c.depositor,
                    c.deposit,
                )
                &&& events_extended(old(self).events@, final(self).events@)
                &&& is_registered_event(final(self).events@.last(), digest_of(name@), c.owner)
            }),
    {
        let chash = commitment_hash(&name, secret);
        let c = match self.commitments.get(&chash) {
            None => {
                return Err(Error::CommitmentNotFound);
            },
            Some(c) => c,
        };
        if (now as u128) < c.when as u128 + self.config.min_commitment_age as u128 {
            return Err(Error::TooEarlyToReveal);
        }
        if name.len() < 3 {
            return Err(Error::LabelTooShort);
        }
        let nhash = name_hash(&name);
        if self.registrations.contains(&nhash) {
            return Err(Error::RegistrationExists);
        }
        let fee = self.config.registration_fee(name.len(), periods);
        if !self.ledger.pay(caller, self.config.fee_beneficiary, fee) {
            return Err(Error::InsufficientFunds);
        }
        proof {
            let oldc = old(self).commitments.entries@;
            lemma_assoc_map_contains(oldc, chash@);
            let i = choose|i: int| 0 <= i < oldc.len() && oldc[i].0@ == chash@;
            lemma_assoc_map_index(oldc, i);
            lemma_c_entry_bound(oldc, i);
            lemma_r_nonneg(old(self).registrations.entries@);
            assert(old(self).ledger.held_of(c.depositor) >= c.deposit);
            assert(self.ledger.view()[c.depositor].1 == old(self).ledger.view()[c.depositor].1);
        }
        self.ledger.unreserve(c.depositor, c.deposit);
        self.commitments.remove(&chash);
        let expiry = self.config.expiry_after(now, periods);
        let reg = Registration {
            owner: c.owner,
            controller: c.owner,
            expiry: Some(expiry),
            deposit: None,
        };
        let nhash_copy = clone_bytes(&nhash);
        self.registrations.insert(nhash, reg);
        push_event(&mut self.events, Event::NameRegistered { name_hash: nhash_copy, owner: c.owner });
        proof {
            let oldc = old(self).commitments.entries@;
            let oldr = old(self).registrations.entries@;
            let j = choose|j: int|
                0 <= j < oldc.len() && oldc[j].0@ == chash@ && self.commitments.entries@
                    == oldc.remove(j);
            lemma_assoc_map_index(oldc, j);
            lemma_c_remove(oldc, j);
            lemma_r_push(oldr, self.registrations.entries@.last());
            assert forall|a: u64|
                #[trigger] self.ledger.held_of(a) == c_for(a, self.commitments.entries@) + r_for(
                    a,
                    self.registrations.entries@,
                ) by {
                assert(old(self).ledger.held_of(a) == c_for(a, oldc) + r_for(a, oldr));
                assert(commitment_contrib(a, oldc[j]) == if a == c.depositor {
                    c.deposit as int
                } else {
                    0
                });
                assert(registration_contrib(a, self.registrations.entries@.last()) == 0);
            }
        }
        Ok(())
    }

    /// The outcome `remove_commitment` is bound to: an unknown commitment
    /// hash, then a commitment not yet past the maximum age.
    pub open spec fn remove_commitment_result(pre: Pallet, hash: Seq<u8>, now: u64) -> Result<
        (),
        Error,
    > {
        if !pre.commitments.view().contains_key(hash) {
            Err(Error::CommitmentNotFound)
        } else if now <= pre.commitments.view()[hash].when + pre.config.max_commitment_age {
            Err(Error::CommitmentNotExpired)
        } else {
            Ok(())
        }
    }

    /// Removes a commitment strictly older than the maximum age, refunding
    /// the deposit to the depositor. Callable by anyone: this is
    /// permissionless garbage collection of stale commitments.
    pub fn remove_commitment(&mut self, commitment_hash: &Vec<u8>, now: u64) -> (r: Result<
        (),
        Error,
    >)
        requires
            old(self).wf(),
        ensures
            final(self).wf(),
            final(self).config == old(self).config,
            r == Self::remove_commitment_result(*old(self), commitment_hash@, now),
            r.is_err() ==> *final(self) == *old(self),
            r.is_ok() ==> ({
                let c = old(self).commitments.view()[commitment_hash@];
                &&& final(self).commitments.view() == old(self).commitments.view().remove(
                    commitment_hash@,
                )
                &&& final(self).registrations == old(self).registrations
                &&& final(self).resolvers == old(self).resolvers
                &&& final(self).events == old(self).events
                &&& final(self).ledger.view() == map_unreserve(
                    old(self).ledger.view(),
                    c.depositor,
                    c.deposit,
                )
            }),
    {
        let c = match self.commitments.get(commitment_hash) {
            None => {
                return Err(Error::CommitmentNotFound);
            },
            Some(c) => c,
        };
        if now as u128 <= c.when as u128 + self.config.max_commitment_age as u128 {
            return Err(Error::CommitmentNotExpired);
        }
        proof {
            let oldc = old(self).commitments.entries@;
            lemma_assoc_map_contains(oldc, commitment_hash@);
            let i = choose|i: int| 0 <= i < oldc.len() && oldc[i].0@ == commitment_hash@;
            lemma_assoc_map_index(oldc, i);
            lemma_c_entry_bound(oldc, i);
            lemma_r_nonneg(old(self).registrations.entries@);
            assert(old(self).ledger.held_of(c.depositor) >= c.deposit);
        }
        self.ledger.unreserve(c.depositor, c.deposit);
        self.commitments.remove(commitment_hash);
        proof {
            let oldc = old(self).commitments.entries@;
            let oldr = old(self).registrations.entries@;
            let j = choose|j: int|
                0 <= j < oldc.len() && oldc[j].0@ == commitment_hash@ && self.commitments.entries@
                    == oldc.remove(j);
            lemma_assoc_map_index(oldc, j);
            lemma_c_remove(oldc, j);
            assert forall|a: u64|
                #[trigger] self.ledger.held_of(a) == c_for(a, self.commitments.entries@) + r_for(
                    a,
                    self.registrations.entries@,
                ) by {
                assert(old(self).ledger.held_of(a) == c_for(a, oldc) + r_for(a, oldr));
                assert(commitment_contrib(a, oldc[j]) == if a == c.depositor {
                    c.deposit as int
                } else {
                    0
                });
            }
        }
        Ok(())
    }
}

} // verus!
