//! The registration lifecycle: transfer of ownership, controller
//! delegation, renewal, deregistration, and the privileged registration
//! operations that bypass the commit-reveal flow.
//!
//! Policy choices fixed here: a registration counts as expired from its
//! expiry time on, renewal has no grace period - an expired registration
//! can no longer be renewed - and renewal extends from the current expiry,
//! not from the time of the call.
use crate::hashing::clone_bytes;
use crate::ledger::map_move_held;
use crate::ledger::map_pay;
use crate::ledger::map_unreserve;
use crate::pallet::c_for;
use crate::pallet::lemma_c_nonneg;
use crate::pallet::lemma_r_entry_bound;
use crate::pallet::lemma_r_push;
use crate::pallet::lemma_r_remove;
use crate::pallet::push_event;
use crate::pallet::r_for;
use crate::pallet::registration_contrib;
use crate::pallet::Pallet;
use crate::store::lemma_assoc_map_contains;
use crate::store::lemma_assoc_map_index;
use crate::types::events_extended;
use crate::types::is_deregistered_event;
use crate::types::is_new_owner_event;
use crate::types::is_registered_event;
use crate::types::is_renewed_event;
use crate::types::Error;
use crate::types::Event;
use crate::types::Registration;
use vstd::prelude::*;

verus! {

impl Pallet {
    /// Establishes that the owner of the registration stored under `h` has
    /// at least its deposit held on the ledger.
    pub(crate) proof fn lemma_deposit_covered(self, h: Seq<u8>)
        requires
            self.wf(),
            self.registrations.view().contains_key(h),
        ensures
            self.ledger.held_of(self.registrations.view()[h].owner)
                >= self.registrations.view()[h].deposit_amount(),
    {
        let oldr = self.registrations.entries@;
        lemma_assoc_map_contains(oldr, h);
        let i = choose|i: int| 0 <= i < oldr.len() && oldr[i].0@ == h;
        lemma_assoc_map_index(oldr, i);
        lemma_r_entry_bound(oldr, i);
        lemma_c_nonneg(self.commitments.entries@);
    }

    /// The outcome `transfer` is bound to: an unknown name, a caller who is
    /// not the owner, then a new owner whose account could not take over
    /// the hold backing the deposit.
    pub open spec fn transfer_result(
        pre: Pallet,
        caller: u64,
        new_owner: u64,
        name_hash: Seq<u8>,
    ) -> Result<(), Error> {
        if !pre.registrations.view().contains_key(name_hash) {
            Err(Error::RegistrationNotFound)
        } else if !pre.registrations.view()[name_hash].is_owner(caller) {
            Err(Error::NotRegistrationOwner)
        } else if !pre.ledger.can_receive(
            pre.registrations.view()[name_hash].owner,
            new_owner,
            pre.registrations.view()[name_hash].deposit_amount() as u64,
        ) {
            Err(Error::InsufficientFunds)
        } else {
            Ok(())
        }
    }

    /// Transfers a registration, and the hold backing its deposit, to a new
    /// owner. Only the current owner may call this; the controller and the
    /// expiry are untouched.
    pub fn transfer(&mut self, caller: u64, new_owner: u64, name_hash: Vec<u8>) -> (r: Result<
        (),
        Error,
    >)
        requires
            old(self).wf(),
        ensures
            final(self).wf(),
            final(self).config == old(self).config,
            r == Self::transfer_result(*old(self), caller, new_owner, name_hash@),
            r.is_err() ==> *final(self) == *old(self),
            r.is_ok() ==> ({
                let reg = old(self).registrations.view()[name_hash@];
                &&& final(self).registrations.view() == old(self).registrations.view().insert(
                    name_hash@,
                    Registration {
                        owner: new_owner,
                        controller: reg.controller,
                        expiry: reg.expiry,
                        deposit: reg.deposit,
                    },
                )
                &&& final(self).commitments == old(self).commitments
                &&& final(self).resolvers == old(self).resolvers
                &&& final(self).ledger.view() == map_move_held(
                    old(self).ledger.view(),
                    reg.owner,
                    new_owner,
                    reg.deposit_amount() as u64,
                )
                &&& events_extended(old(self).events@, final(self).events@)
                &&& is_new_owner_event(final(self).events@.last(), caller, new_owner)
            }),
    {
        let reg = match self.registrations.get(&name_hash) {
            None => {
                return Err(Error::RegistrationNotFound);
            },
            Some(r) => r,
        };
        if reg.owner != caller {
            return Err(Error::NotRegistrationOwner);
        }
        let dep: u64 = match reg.deposit {
            Some(d) => d,
            None => 0,
        };
        let ghost h = name_hash@;
        proof {
            self.lemma_deposit_covered(h);
        }
        if !self.ledger.move_held(reg.owner, new_owner, dep) {
            return Err(Error::InsufficientFunds);
        }
        self.registrations.remove(&name_hash);
        let ghost mid = self.registrations.entries@;
        let reg2 = Registration {
            owner: new_owner,
            controller: reg.controller,
            expiry: reg.expiry,
            deposit: reg.deposit,
        };
        self.registrations.insert(name_hash, reg2);
        push_event(&mut self.events, Event::NewOwner { from: caller, to: new_owner });
        proof {
            let oldr = old(self).registrations.entries@;
            let j = choose|j: int|
                0 <= j < oldr.len() && oldr[j].0@ == h && mid == oldr.remove(j);
            lemma_assoc_map_index(oldr, j);
            lemma_r_remove(oldr, j);
            lemma_r_push(mid, self.registrations.entries@.last());
            assert(old(self).registrations.view().remove(h).insert(h, reg2)
                =~= old(self).registrations.view().insert(h, reg2));
            assert forall|a: u64|
                #[trigger] self.ledger.held_of(a) == c_for(a, self.commitments.entries@) + r_for(
                    a,
                    self.registrations.entries@,
                ) by {
                assert(old(self).ledger.held_of(a) == c_for(a, old(self).commitments.entries@)
                    + r_for(a, oldr));
                assert(registration_contrib(a, oldr[j]) == if a == reg.owner {
                    dep as int
                } else {
                    0
                });
                assert(registration_contrib(a, self.registrations.entries@.last()) == if a
                    == new_owner {
                    dep as int
                } else {
                    0
                });
            }
        }
        Ok(())
    }

    /// The outcome `set_controller` is bound to: an unknown name, then a
    /// caller who is neither the owner nor the current controller.
    pub open spec fn set_controller_result(
        pre: Pallet,
        caller: u64,
        name_hash: Seq<u8>,
    ) -> Result<(), Error> {
        if !pre.registrations.view().contains_key(name_hash) {
            Err(Error::RegistrationNotFound)
        } else if !pre.registrations.view()[name_hash].is_controller(caller) {
            Err(Error::NotRegistrationOwner)
        } else {
            Ok(())
        }
    }

    /// Delegates record management by setting the registration's
    /// controller. The owner or the current controller may call this.
    pub fn set_controller(&mut self, caller: u64, name_hash: Vec<u8>, to: u64) -> (r: Result<
        (),
        Error,
    >)
        requires
            old(self).wf(),
        ensures
            final(self).wf(),
            final(self).config == old(self).config,
            r == Self::set_controller_result(*old(self), caller, name_hash@),
            r.is_err() ==> *final(self) == *old(self),
            r.is_ok() ==> ({
                let reg = old(self).registrations.view()[name_hash@];
                &&& final(self).registrations.view() == old(self).registrations.view().insert(
                    name_hash@,
                    Registration {
                        owner: reg.owner,
                        controller: to,
                        expiry: reg.expiry,
                        deposit: reg.deposit,
                    },
                )
                &&& final(self).commitments == old(self).commitments
                &&& final(self).resolvers == old(self).resolvers
                &&& final(self).ledger == old(self).ledger
                &&& events_extended(old(self).events@, final(self).events@)
                &&& is_new_owner_event(final(self).events@.last(), caller, to)
            }),
    {
        let reg = match self.registrations.get(&name_hash) {
            None => {
                return Err(Error::RegistrationNotFound);
            },
            Some(r) => r,
        };
        if !(reg.owner == caller || reg.controller == caller) {
            return Err(Error::NotRegistrationOwner);
        }
        let ghost h = name_hash@;
        self.registrations.remove(&name_hash);
        let ghost mid = self.registrations.entries@;
        let reg2 = Registration {
            owner: reg.owner,
            controller: to,
            expiry: reg.expiry,
            deposit: reg.deposit,
        };
        self.registrations.insert(name_hash, reg2);
        push_event(&mut self.events, Event::NewOwner { from: caller, to });
        proof {
            let oldr = old(self).registrations.entries@;
            let j = choose|j: int|
                0 <= j < oldr.len() && oldr[j].0@ == h && mid == oldr.remove(j);
            lemma_assoc_map_index(oldr, j);
            lemma_r_remove(oldr, j);
            lemma_r_push(mid, self.registrations.entries@.last());
            assert(old(self).registrations.view().remove(h).insert(h, reg2)
                =~= old(self).registrations.view().insert(h, reg2));
            assert forall|a: u64|
                #[trigger] self.ledger.held_of(a) == c_for(a, self.commitments.entries@) + r_for(
                    a,
                    self.registrations.entries@,
                ) by {
                assert(old(self).ledger.held_of(a) == c_for(a, old(self).commitments.entries@)
                    + r_for(a, oldr));
                assert(registration_contrib(a, oldr[j]) == registration_contrib(
                    a,
                    self.registrations.entries@.last(),
                ));
            }
        }
        Ok(())
    }

    /// The outcome `renew` is bound to: an unknown name, a permanent
    /// registration, a registration already expired (renewal has no grace
    /// period), then an insufficient free balance for the fee.
    pub open spec fn renew_result(
        pre: Pallet,
        caller: u64,
        name_hash: Seq<u8>,
        periods: u64,
        now: u64,
    ) -> Result<(), Error> {
        if !pre.registrations.view().contains_key(name_hash) {
            Err(Error::RegistrationNotFound)
        } else {
            match pre.registrations.view()[name_hash].expiry {
                None => Err(Error::RegistrationHasNoExpiry),
                Some(e) => {
                    if e <= now {
                        Err(Error::RegistrationExpired)
                    } else if !pre.ledger.can_pay(
                        caller,
                        pre.config.fee_beneficiary,
                        pre.config.spec_renewal_fee(periods) as u64,
                    ) {
                        Err(Error::InsufficientFunds)
                    } else {
                        Ok(())
                    }
                },
            }
        }
    }

    /// Extends a live registration by `periods` periods from its current
    /// expiry. Anyone may renew; the caller pays the non-refundable
    /// per-period fee.
    pub fn renew(&mut self, caller: u64, name_hash: Vec<u8>, periods: u64, now: u64) -> (r: Result<
        (),
        Error,
    >)
        requires
            old(self).wf(),
        ensures
            final(self).wf(),
            final(self).config == old(self).config,
            r == Self::renew_result(*old(self), caller, name_hash@, periods, now),
            r.is_err() ==> *final(self) == *old(self),
            r.is_ok() ==> ({
                let reg = old(self).registrations.view()[name_hash@];
                let e = reg.expiry->Some_0;
                let expiry = old(self).config.spec_expiry_after(e, periods) as u64;
                &&& final(self).registrations.view() == old(self).registrations.view().insert(
                    name_hash@,
                    Registration {
                        owner: reg.owner,
                        controller: reg.controller,
                        expiry: Some(expiry),
                        deposit: reg.deposit,
                    },
                )
                &&& final(self).commitments == old(self).commitments
                &&& final(self).resolvers == old(self).resolvers
                &&& final(self).ledger.view() == map_pay(
                    old(self).ledger.view(),
                    caller,
                    old(self).config.fee_beneficiary,
                    old(self).config.spec_renewal_fee(periods) as u64,
                )
                &&& events_extended(old(self).events@, final(self).events@)
                &&& is_renewed_event(final(self).events@.last(), name_hash@, expiry)
            }),
    {
        let reg = match self.registrations.get(&name_hash) {
            None => {
                return Err(Error::RegistrationNotFound);
            },
            Some(r) => r,
        };
        let e = match reg.expiry {
            None => {
                return Err(Error::RegistrationHasNoExpiry);
            },
            Some(e) => e,
        };
        if e <= now {
            return Err(Error::RegistrationExpired);
        }
        let fee = self.config.renewal_fee(periods);
        if !self.ledger.pay(caller, self.config.fee_beneficiary, fee) {
            return Err(Error::InsufficientFunds);
        }
        let ghost h = name_hash@;
        self.registrations.remove(&name_hash);
        let ghost mid = self.registrations.entries@;
        let expiry = self.config.expiry_after(e, periods);
        let reg2 = Registration {
            owner: reg.owner,
            controller: reg.controller,
            expiry: Some(expiry),
            deposit: reg.deposit,
        };
        let hash_copy = clone_bytes(&name_hash);
        self.registrations.insert(name_hash, reg2);
        push_event(&mut self.events, Event::NameRenewed { name_hash: hash_copy, expires: expiry });
        proof {
            let oldr = old(self).registrations.entries@;
            let j = choose|j: int|
                0 <= j < oldr.len() && oldr[j].0@ == h && mid == oldr.remove(j);
            lemma_assoc_map_index(oldr, j);
            lemma_r_remove(oldr, j);
            lemma_r_push(mid, self.registrations.entries@.last());
            assert(old(self).registrations.view().remove(h).insert(h, reg2)
                =~= old(self).registrations.view().insert(h, reg2));
            assert forall|a: u64|
                #[trigger] self.ledger.held_of(a) == c_for(a, self.commitments.entries@) + r_for(
                    a,
                    self.registrations.entries@,
                ) by {
                assert(old(self).ledger.held_of(a) == c_for(a, old(self).commitments.entries@)
                    + r_for(a, oldr));
                assert(registration_contrib(a, oldr[j]) == registration_contrib(
                    a,
                    self.registrations.entries@.last(),
                ));
            }
        }
        Ok(())
    }

    /// The outcome `deregister` is bound to: an unknown name, then - only
    /// while the registration has not expired - a caller who is not the
    /// owner. Once expired, anyone may deregister.
    pub open spec fn deregister_result(
        pre: Pallet,
        caller: u64,
        name_hash: Seq<u8>,
        now: u64,
    ) -> Result<(), Error> {
        if !pre.registrations.view().contains_key(name_hash) {
            Err(Error::RegistrationNotFound)
        } else if !pre.registrations.view()[name_hash].is_expired_at(now)
            && !pre.registrations.view()[name_hash].is_owner(caller) {
            Err(Error::NotRegistrationOwner)
        } else {
            Ok(())
        }
    }

    /// Removes a registration and its resolver record, refunding the
    /// deposit to the owner. The owner may always do this; once the
    /// registration has expired, anyone may.
    pub fn deregister(&mut self, caller: u64, name_hash: Vec<u8>, now: u64) -> (r: Result<
        (),
        Error,
    >)
        requires
            old(self).wf(),
        ensures
            final(self).wf(),
            final(self).config == old(self).config,
            r == Self::deregister_result(*old(self), caller, name_hash@, now),
            r.is_err() ==> *final(self) == *old(self),
            r.is_ok() ==> ({
                let reg = old(self).registrations.view()[name_hash@];
                &&& final(self).registrations.view() == old(self).registrations.view().remove(
                    name_hash@,
                )
                &&& final(self).resolvers.view() == old(self).resolvers.view().remove(name_hash@)
                &&& final(self).commitments == old(self).commitments
                &&& final(self).ledger.view() == map_unreserve(
                    old(self).ledger.view(),
                    reg.owner,
                    reg.deposit_amount() as u64,
                )
                &&& events_extended(old(self).events@, final(self).events@)
                &&& is_deregistered_event(final(self).events@.last(), name_hash@)
            }),
    {
        let reg = match self.registrations.get(&name_hash) {
            None => {
                return Err(Error::RegistrationNotFound);
            },
            Some(r) => r,
        };
        let expired = match reg.expiry {
            Some(e) => e <= now,
            None => false,
        };
        if !expired && reg.owner != caller {
            return Err(Error::NotRegistrationOwner);
        }
        let dep: u64 = match reg.deposit {
            Some(d) => d,
            None => 0,
        };
        let ghost h = name_hash@;
        proof {
            self.lemma_deposit_covered(h);
        }
        self.ledger.unreserve(reg.owner, dep);
        self.registrations.remove(&name_hash);
        self.resolvers.remove(&name_hash);
        push_event(&mut self.events, Event::AddressDeregistered { name_hash });
        proof {
            let oldr = old(self).registrations.entries@;
            let j = choose|j: int|
                0 <= j < oldr.len() && oldr[j].0@ == h && self.registrations.entries@
                    == oldr.remove(j);
            lemma_assoc_map_index(oldr, j);
            lemma_r_remove(oldr, j);
            assert forall|a: u64|
                #[trigger] self.ledger.held_of(a) == c_for(a, self.commitments.entries@) + r_for(
                    a,
                    self.registrations.entries@,
                ) by {
                assert(old(self).ledger.held_of(a) == c_for(a, old(self).commitments.entries@)
                    + r_for(a, oldr));
                assert(registration_contrib(a, oldr[j]) == if a == reg.owner {
                    dep as int
                } else {
                    0
                });
            }
        }
        Ok(())
    }

    /// Registers a name hash by administrative fiat, bypassing the
    /// commit-reveal flow and overwriting any existing registration, whose
    /// deposit is first returned to its previous owner. The caller is
    /// trusted to have checked the privileged origin; the new registration
    /// carries no deposit, and `maybe_expiry` of `None` makes it permanent.
    pub fn force_register(&mut self, name_hash: Vec<u8>, who: u64, maybe_expiry: Option<u64>) -> (r:
        Result<(), Error>)
        requires
            old(self).wf(),
        ensures
            final(self).wf(),
            final(self).config == old(self).config,
            r == Ok::<(), Error>(()),
            final(self).registrations.view() == old(self).registrations.view().insert(
                name_hash@,
                Registration { owner: who, controller: who, expiry: maybe_expiry, deposit: None },
            ),
            final(self).commitments == old(self).commitments,
            final(self).resolvers == old(self).resolvers,
            final(self).ledger.view() == (if old(self).registrations.view().contains_key(
                name_hash@,
            ) {
                map_unreserve(
                    old(self).ledger.view(),
                    old(self).registrations.view()[name_hash@].owner,
                    old(self).registrations.view()[name_hash@].deposit_amount() as u64,
                )
            } else {
                old(self).ledger.view()
            }),
            events_extended(old(self).events@, final(self).events@),
            is_registered_event(final(self).events@.last(), name_hash@, who),
    {
        let ghost h = name_hash@;
        let prev = self.registrations.get(&name_hash);
        match prev {
            Some(p) => {
                let dep: u64 = match p.deposit {
                    Some(d) => d,
                    None => 0,
                };
                proof {
                    self.lemma_deposit_covered(h);
                }
                self.ledger.unreserve(p.owner, dep);
                self.registrations.remove(&name_hash);
            },
            None => {},
        }
        let ghost mid = self.registrations.entries@;
        let reg = Registration { owner: who, controller: who, expiry: maybe_expiry, deposit: None };
        let hash_copy = clone_bytes(&name_hash);
        self.registrations.insert(name_hash, reg);
        push_event(&mut self.events, Event::NameRegistered { name_hash: hash_copy, owner: who });
        proof {
            let oldr = old(self).registrations.entries@;
            if old(self).registrations.view().contains_key(h) {
                let p = old(self).registrations.view()[h];
                let j = choose|j: int|
                    0 <= j < oldr.len() && oldr[j].0@ == h && mid == oldr.remove(j);
                lemma_assoc_map_index(oldr, j);
                lemma_r_remove(oldr, j);
                lemma_r_push(mid, self.registrations.entries@.last());
                assert(old(self).registrations.view().remove(h).insert(h, reg)
                    =~= old(self).registrations.view().insert(h, reg));
                assert forall|a: u64|
                    #[trigger] self.ledger.held_of(a) == c_for(a, self.commitments.entries@)
                        + r_for(a, self.registrations.entries@) by {
                    assert(old(self).ledger.held_of(a) == c_for(a, old(self).commitments.entries@)
                        + r_for(a, oldr));
                    assert(registration_contrib(a, oldr[j]) == if a == p.owner {
                        p.deposit_amount()
                    } else {
                        0
                    });
                    assert(registration_contrib(a, self.registrations.entries@.last()) == 0);
                }
            } else {
                lemma_r_push(mid, self.registrations.entries@.last());
                assert forall|a: u64|
                    #[trigger] self.ledger.held_of(a) == c_for(a, self.commitments.entries@)
                        + r_for(a, self.registrations.entries@) by {
                    assert(old(self).ledger.held_of(a) == c_for(a, old(self).commitments.entries@)
                        + r_for(a, oldr));
                    assert(registration_contrib(a, self.registrations.entries@.last()) == 0);
                }
            }
        }
        Ok(())
    }

    /// Deletes a registration by administrative fiat, returning the deposit
    /// to its owner and clearing the resolver record. Succeeds - and does
    /// nothing - when no registration exists. The caller is trusted to have
    /// checked the privileged origin.
    pub fn force_deregister(&mut self, name_hash: Vec<u8>) -> (r: Result<(), Error>)
        requires
            old(self).wf(),
        ensures
            final(self).wf(),
            final(self).config == old(self).config,
            r == Ok::<(), Error>(()),
            old(self).registrations.view().contains_key(name_hash@) ==> ({
                let reg = old(self).registrations.view()[name_hash@];
                &&& final(self).registrations.view() == old(self).registrations.view().remove(
                    name_hash@,
                )
                &&& final(self).resolvers.view() == old(self).resolvers.view().remove(name_hash@)
                &&& final(self).commitments == old(self).commitments
                &&& final(self).ledger.view() == map_unreserve(
                    old(self).ledger.view(),
                    reg.owner,
                    reg.deposit_amount() as u64,
                )
                &&& events_extended(old(self).events@, final(self).events@)
                &&& is_deregistered_event(final(self).events@.last(), name_hash@)
            }),
            !old(self).registrations.view().contains_key(name_hash@) ==> *final(self) == *old(
                self,
            ),
    {
        let reg = match self.registrations.get(&name_hash) {
            None => {
                return Ok(());
            },
            Some(r) => r,
        };
        let dep: u64 = match reg.deposit {
            Some(d) => d,
            None => 0,
        };
        let ghost h = name_hash@;
        proof {
            self.lemma_deposit_covered(h);
        }
        self.ledger.unreserve(reg.owner, dep);
        self.registrations.remove(&name_hash);
        self.resolvers.remove(&name_hash);
        push_event(&mut self.events, Event::AddressDeregistered { name_hash });
        proof {
            let oldr = old(self).registrations.entries@;
            let j = choose|j: int|
                0 <= j < oldr.len() && oldr[j].0@ == h && self.registrations.entries@
                    == oldr.remove(j);
            lemma_assoc_map_index(oldr, j);
            lemma_r_remove(oldr, j);
            assert forall|a: u64|
                #[trigger] self.ledger.held_of(a) == c_for(a, self.commitments.entries@) + r_for(
                    a,
                    self.registrations.entries@,
                ) by {
                assert(old(self).ledger.held_of(a) == c_for(a, old(self).commitments.entries@)
                    + r_for(a, oldr));
                assert(registration_contrib(a, oldr[j]) == if a == reg.owner {
                    dep as int
                } else {
                    0
                });
            }
        }
        Ok(())
    }
}

} // verus!
