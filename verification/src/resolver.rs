//! The resolver: the record mapping a name hash to the account it resolves
//! to, maintained by the registration's owner or controller.
use crate::hashing::clone_bytes;
use crate::pallet::push_event;
use crate::pallet::Pallet;
use crate::types::events_extended;
use crate::types::is_address_set_event;
use crate::types::Error;
use crate::types::Event;
use vstd::prelude::*;

verus! {

impl Pallet {
    /// The outcome `set_record` is bound to: an unknown name, a caller who
    /// is neither owner nor controller, then a record already set to the
    /// same address - rewriting an identical record is refused.
    pub open spec fn set_record_result(
        pre: Pallet,
        caller: u64,
        name_hash: Seq<u8>,
        address: u64,
    ) -> Result<(), Error> {
        if !pre.registrations.view().contains_key(name_hash) {
            Err(Error::RegistrationNotFound)
        } else if !pre.registrations.view()[name_hash].is_controller(caller) {
            Err(Error::NotRegistrationOwner)
        } else if pre.resolvers.view().contains_key(name_hash) && pre.resolvers.view()[name_hash]
            == address {
            Err(Error::AlreadySet)
        } else {
            Ok(())
        }
    }

    /// Sets or overwrites the address a registered name resolves to. The
    /// owner or the controller may call this.
    pub fn set_record(&mut self, caller: u64, name_hash: Vec<u8>, address: u64) -> (r: Result<
        (),
        Error,
    >)
        requires
            old(self).wf(),
        ensures
            final(self).wf(),
            final(self).config == old(self).config,
            r == Self::set_record_result(*old(self), caller, name_hash@, address),
            r.is_err() ==> *final(self) == *old(self),
            r.is_ok() ==> ({
                &&& final(self).resolvers.view() == old(self).resolvers.view().insert(
                    name_hash@,
                    address,
                )
                &&& final(self).registrations == old(self).registrations
                &&& final(self).commitments == old(self).commitments
                &&& final(self).ledger == old(self).ledger
                &&& events_extended(old(self).events@, final(self).events@)
                &&& is_address_set_event(final(self).events@.last(), name_hash@, address)
            }),
    {
        let reg = match self.registrations.get(&name_hash) {
            None => {
                return Err(Error::RegistrationNotFound);
            },
            Some(r) => r,
        };
        if !(reg.owner == caller || reg.controller == caller) {
            return Err(Error::NotRegistrationOwner);
        }
        match self.resolvers.get(&name_hash) {
            Some(a) => {
                if a == address {
                    return Err(Error::AlreadySet);
                }
            },
            None => {},
        }
        let ghost h = name_hash@;
        self.resolvers.remove(&name_hash);
        let hash_copy = clone_bytes(&name_hash);
        self.resolvers.insert(name_hash, address);
        push_event(&mut self.events, Event::AddressSet { name_hash: hash_copy, address });
        proof {
            assert(old(self).resolvers.view().remove(h).insert(h, address) =~= old(
                self,
            ).resolvers.view().insert(h, address));
        }
        Ok(())
    }
}

} // verus!
