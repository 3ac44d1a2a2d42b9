//! Subnodes: names hierarchically scoped under a parent name. A subnode is
//! an ordinary registration stored under the composite hash of the parent
//! hash and a label hash, backed by its own, smaller deposit tier and with
//! no expiry of its own - its lifecycle is coupled to the parent instead.
//!
//! Policy choices fixed here: `set_subnode_record` creates the subnode
//! owned and controlled by the caller and refuses an existing subnode;
//! `set_subnode_owner` creates a missing subnode without a deposit, and on
//! an existing subnode moves the hold backing its deposit to the new owner.
use crate::hashing::clone_bytes;
use crate::hashing::digest_of;
use crate::hashing::name_hash;
use crate::hashing::subnode_digest;
use crate::hashing::subnode_hash;
use crate::ledger::map_move_held;
use crate::ledger::map_reserve;
use crate::ledger::map_unreserve;
use crate::pallet::c_for;
use crate::pallet::lemma_r_push;
use crate::pallet::lemma_r_remove;
use crate::pallet::push_event;
use crate::pallet::r_for;
use crate::pallet::registration_contrib;
use crate::pallet::Pallet;
use crate::store::lemma_assoc_map_index;
use crate::types::events_extended;
use crate::types::is_deregistered_event;
use crate::types::is_new_owner_event;
use crate::types::is_registered_event;
use crate::types::Error;
use crate::types::Event;
use crate::types::Registration;
use vstd::prelude::*;

verus! {

impl Pallet {
    /// The outcome `set_subnode_record` is bound to: a label shorter than
    /// three characters, an unknown parent, a caller who does not control
    /// the parent, an already existing subnode, then an insufficient free
    /// balance for the subnode deposit.
    pub open spec fn set_subnode_record_result(
        pre: Pallet,
        caller: u64,
        parent_hash: Seq<u8>,
        label: Seq<u8>,
    ) -> Result<(), Error> {
        let sub = subnode_digest(parent_hash, digest_of(label));
        if label.len() < 3 {
            Err(Error::LabelTooShort)
        } else if !pre.registrations.view().contains_key(parent_hash) {
            Err(Error::RegistrationNotFound)
        } else if !pre.registrations.view()[parent_hash].is_controller(caller) {
            Err(Error::NotRegistrationOwner)
        } else if pre.registrations.view().contains_key(sub) {
            Err(Error::RegistrationExists)
        } else if !pre.ledger.can_reserve(caller, pre.config.subnode_deposit) {
            Err(Error::InsufficientFunds)
        } else {
            Ok(())
        }
    }

    /// Creates a subnode of `parent_hash` for `label`, owned and controlled
    /// by the caller, who makes the subnode deposit. The subnode has no
    /// expiry of its own.
    pub fn set_subnode_record(&mut self, caller: u64, parent_hash: Vec<u8>, label: Vec<u8>) -> (r:
        Result<(), Error>)
        requires
            old(self).wf(),
        ensures
            final(self).wf(),
            final(self).config == old(self).config,
            r == Self::set_subnode_record_result(*old(self), caller, parent_hash@, label@),
            r.is_err() ==> *final(self) == *old(self),
            r.is_ok() ==> ({
                let sub = subnode_digest(parent_hash@, digest_of(label@));
                &&& final(self).registrations.view() == old(self).registrations.view().insert(
                    sub,
                    Registration {
                        owner: caller,
                        controller: caller,
                        expiry: None,
                        deposit: Some(old(self).config.subnode_deposit),
                    },
                )
                &&& final(self).commitments == old(self).commitments
                &&& final(self).resolvers == old(self).resolvers
                &&& final(self).ledger.view() == map_reserve(
                    old(self).ledger.view(),
                    caller,
                    old(self).config.subnode_deposit,
                )
                &&& events_extended(old(self).events@, final(self).events@)
                &&& is_registered_event(final(self).events@.last(), sub, caller)
            }),
    {
        if label.len() < 3 {
            return Err(Error::LabelTooShort);
        }
        let parent = match self.registrations.get(&parent_hash) {
            None => {
                return Err(Error::RegistrationNotFound);
            },
            Some(p) => p,
        };
        if !(parent.owner == caller || parent.controller == caller) {
            return Err(Error::NotRegistrationOwner);
        }
        let label_hash = name_hash(&label);
        let sub = subnode_hash(&parent_hash, &label_hash);
        if self.registrations.contains(&sub) {
            return Err(Error::RegistrationExists);
        }
        let deposit = self.config.subnode_deposit;
        if !self.ledger.reserve(caller, deposit) {
            return Err(Error::InsufficientFunds);
        }
        let reg = Registration {
            owner: caller,
            controller: caller,
            expiry: None,
            deposit: Some(deposit),
        };
        let sub_copy = clone_bytes(&sub);
        self.registrations.insert(sub, reg);
        push_event(&mut self.events, Event::NameRegistered { name_hash: sub_copy, owner: caller });
        proof {
            let oldr = old(self).registrations.entries@;
            lemma_r_push(oldr, self.registrations.entries@.last());
            assert forall|a: u64|
                #[trigger] self.ledger.held_of(a) == c_for(a, self.commitments.entries@) + r_for(
                    a,
                    self.registrations.entries@,
                ) by {
                assert(old(self).ledger.held_of(a) == c_for(a, old(self).commitments.entries@)
                    + r_for(a, oldr));
                assert(registration_contrib(a, self.registrations.entries@.last()) == if a
                    == caller {
                    deposit as int
                } else {
                    0
                });
            }
        }
        Ok(())
    }

    /// The outcome `deregister_subnode` is bound to: an unknown subnode,
    /// then - for a caller who is not the subnode's owner - a parent
    /// registration that still exists. Cleanup by outsiders is legitimate
    /// only once the parent has lapsed out of storage.
    pub open spec fn deregister_subnode_result(
        pre: Pallet,
        caller: u64,
        parent_hash: Seq<u8>,
        label_hash: Seq<u8>,
    ) -> Result<(), Error> {
        let sub = subnode_digest(parent_hash, label_hash);
        if !pre.registrations.view().contains_key(sub) {
            Err(Error::RegistrationNotFound)
        } else if !pre.registrations.view()[sub].is_owner(caller)
            && pre.registrations.view().contains_key(parent_hash) {
            Err(Error::RegistrationNotExpired)
        } else {
            Ok(())
        }
    }

    /// Removes a subnode and its resolver record, refunding the deposit to
    /// the subnode's owner. The owner may always do this; anyone else only
    /// once the parent registration no longer exists.
    pub fn deregister_subnode(
        &mut self,
        caller: u64,
        parent_hash: Vec<u8>,
        label_hash: Vec<u8>,
    ) -> (r: Result<(), Error>)
        requires
            old(self).wf(),
        ensures
            final(self).wf(),
            final(self).config == old(self).config,
            r == Self::deregister_subnode_result(*old(self), caller, parent_hash@, label_hash@),
            r.is_err() ==> *final(self) == *old(self),
            r.is_ok() ==> ({
                let sub = subnode_digest(parent_hash@, label_hash@);
                let reg = old(self).registrations.view()[sub];
                &&& final(self).registrations.view() == old(self).registrations.view().remove(sub)
                &&& final(self).resolvers.view() == old(self).resolvers.view().remove(sub)
                &&& final(self).commitments == old(self).commitments
                &&& final(self).ledger.view() == map_unreserve(
                    old(self).ledger.view(),
                    reg.owner,
                    reg.deposit_amount() as u64,
                )
                &&& events_extended(old(self).events@, final(self).events@)
                &&& is_deregistered_event(final(self).events@.last(), sub)
            }),
    {
        let sub = subnode_hash(&parent_hash, &label_hash);
        let reg = match self.registrations.get(&sub) {
            None => {
                return Err(Error::RegistrationNotFound);
            },
            Some(r) => r,
        };
        if reg.owner != caller {
            if self.registrations.contains(&parent_hash) {
                return Err(Error::RegistrationNotExpired);
            }
        }
        let dep: u64 = match reg.deposit {
            Some(d) => d,
            None => 0,
        };
        let ghost h = sub@;
        proof {
            self.lemma_deposit_covered(h);
        }
        self.ledger.unreserve(reg.owner, dep);
        self.registrations.remove(&sub);
        self.resolvers.remove(&sub);
        push_event(&mut self.events, Event::AddressDeregistered { name_hash: sub });
        proof {
            let oldr = old(self).registrations.entries@;
            let j = choose|j: int|
                0 <= j < oldr.len() && oldr[j].0@ == h && self.registrations.entries@
                    == oldr.remove(j);
            lemma_assoc_map_index(oldr, j);
            lemma_r_remove(oldr, j);
            assert forall|a: u64|
                #[trigger] self.ledger.held_of(a) == c_for(a, self.commitments.entries@) + r_for(
                    a,
                    self.registrations.entries@,
                ) by {
                assert(old(self).ledger.held_of(a) == c_for(a, old(self).commitments.entries@)
                    + r_for(a, oldr));
                assert(registration_contrib(a, oldr[j]) == if a == reg.owner {
                    dep as int
                } else {
                    0
                });
            }
        }
        Ok(())
    }

    /// The outcome `set_subnode_owner` is bound to: an unknown parent, a
    /// caller who does not control the parent, then - when the subnode
    /// exists and carries a deposit - a new owner whose account could not
    /// take over the hold.
    pub open spec fn set_subnode_owner_result(
        pre: Pallet,
        caller: u64,
        parent_hash: Seq<u8>,
        label_hash: Seq<u8>,
        new_owner: u64,
    ) -> Result<(), Error> {
        let sub = subnode_digest(parent_hash, label_hash);
        if !pre.registrations.view().contains_key(parent_hash) {
            Err(Error::RegistrationNotFound)
        } else if !pre.registrations.view()[parent_hash].is_controller(caller) {
            Err(Error::NotRegistrationOwner)
        } else if pre.registrations.view().contains_key(sub) && !pre.ledger.can_receive(
            pre.registrations.view()[sub].owner,
            new_owner,
            pre.registrations.view()[sub].deposit_amount() as u64,
        ) {
            Err(Error::InsufficientFunds)
        } else {
            Ok(())
        }
    }

    /// Assigns the owner of a subnode under a parent the caller controls,
    /// creating the subnode - without a deposit - when it does not exist
    /// yet, and otherwise transferring it along with the hold backing its
    /// deposit.
    pub fn set_subnode_owner(
        &mut self,
        caller: u64,
        parent_hash: Vec<u8>,
        label_hash: Vec<u8>,
        new_owner: u64,
    ) -> (r: Result<(), Error>)
        requires
            old(self).wf(),
        ensures
            final(self).wf(),
            final(self).config == old(self).config,
            r == Self::set_subnode_owner_result(
                *old(self),
                caller,
                parent_hash@,
                label_hash@,
                new_owner,
            ),
            r.is_err() ==> *final(self) == *old(self),
            r.is_ok() ==> ({
                let sub = subnode_digest(parent_hash@, label_hash@);
                &&& final(self).commitments == old(self).commitments
                &&& final(self).resolvers == old(self).resolvers
                &&& events_extended(old(self).events@, final(self).events@)
                &&& is_new_owner_event(final(self).events@.last(), caller, new_owner)
                &&& if old(self).registrations.view().contains_key(sub) {
                    let reg = old(self).registrations.view()[sub];
                    &&& final(self).registrations.view() == old(self).registrations.view().insert(
                        sub,
                        Registration {
                            owner: new_owner,
                            controller: reg.controller,
                            expiry: reg.expiry,
                            deposit: reg.deposit,
                        },
                    )
                    &&& final(self).ledger.view() == map_move_held(
                        old(self).ledger.view(),
                        reg.owner,
                        new_owner,
                        reg.deposit_amount() as u64,
                    )
                } else {
                    &&& final(self).registrations.view() == old(self).registrations.view().insert(
                        sub,
                        Registration {
                            owner: new_owner,
                            controller: new_owner,
                            expiry: None,
                            deposit: None,
                        },
                    )
                    &&& final(self).ledger == old(self).ledger
                }
            }),
    {
        let parent = match self.registrations.get(&parent_hash) {
            None => {
                return Err(Error::RegistrationNotFound);
            },
            Some(p) => p,
        };
        if !(parent.owner == caller || parent.controller == caller) {
            return Err(Error::NotRegistrationOwner);
        }
        let sub = subnode_hash(&parent_hash, &label_hash);
        let ghost h = sub@;
        match self.registrations.get(&sub) {
            Some(reg) => {
                let dep: u64 = match reg.deposit {
                    Some(d) => d,
                    None => 0,
                };
                proof {
                    self.lemma_deposit_covered(h);
                }
                if !self.ledger.move_held(reg.owner, new_owner, dep) {
                    return Err(Error::InsufficientFunds);
                }
                self.registrations.remove(&sub);
                let ghost mid = self.registrations.entries@;
                let reg2 = Registration {
                    owner: new_owner,
                    controller: reg.controller,
                    expiry: reg.expiry,
                    deposit: reg.deposit,
                };
                self.registrations.insert(sub, reg2);
                push_event(&mut self.events, Event::NewOwner { from: caller, to: new_owner });
                proof {
                    let oldr = old(self).registrations.entries@;
                    let j = choose|j: int|
                        0 <= j < oldr.len() && oldr[j].0@ == h && mid == oldr.remove(j);
                    lemma_assoc_map_index(oldr, j);
                    lemma_r_remove(oldr, j);
                    lemma_r_push(mid, self.registrations.entries@.last());
                    assert(old(self).registrations.view().remove(h).insert(h, reg2) =~= old(
                        self,
                    ).registrations.view().insert(h, reg2));
                    assert forall|a: u64|
                        #[trigger] self.ledger.held_of(a) == c_for(a, self.commitments.entries@)
                            + r_for(a, self.registrations.entries@) by {
                        assert(old(self).ledger.held_of(a) == c_for(
                            a,
                            old(self).commitments.entries@,
                        ) + r_for(a, oldr));
                        assert(registration_contrib(a, oldr[j]) == if a == reg.owner {
                            dep as int
                        } else {
                            0
                        });
                        assert(registration_contrib(a, self.registrations.entries@.last()) == if a
                            == new_owner {
                            dep as int
                        } else {
                            0
                        });
                    }
                }
                Ok(())
            },
            None => {
                let reg2 = Registration {
                    owner: new_owner,
                    controller: new_owner,
                    expiry: None,
                    deposit: None,
                };
                self.registrations.insert(sub, reg2);
                push_event(&mut self.events, Event::NewOwner { from: caller, to: new_owner });
                proof {
                    let oldr = old(self).registrations.entries@;
                    lemma_r_push(oldr, self.registrations.entries@.last());
                    assert forall|a: u64|
                        #[trigger] self.ledger.held_of(a) == c_for(a, self.commitments.entries@)
                            + r_for(a, self.registrations.entries@) by {
                        assert(old(self).ledger.held_of(a) == c_for(
                            a,
                            old(self).commitments.entries@,
                        ) + r_for(a, oldr));
                        assert(registration_contrib(a, self.registrations.entries@.last()) == 0);
                    }
                }
                Ok(())
            },
        }
    }
}

} // verus!
