//! Capability traits for sets of fungible tokens: inspecting balances,
//! minting and burning, transferring, and placing amounts on hold. The
//! engine's ledger implements them for the single native asset, identified
//! by the unit asset id; the hold family is exactly what deposits use.
use crate::ledger::issuance_sum;
use crate::ledger::map_endow;
use crate::ledger::map_pay;
use crate::ledger::map_reserve;
use crate::ledger::map_unreserve;
use crate::ledger::map_withdraw;
use crate::ledger::Ledger;
use crate::types::Error;
use vstd::prelude::*;

verus! {

/// Whether an account's balance may be increased.
#[derive(Clone, Copy, PartialEq, Eq, Debug)]
pub enum DepositConsequence {
    /// The deposit would succeed.
    Success,
    /// The account's balances would overflow.
    Overflow,
}

/// Whether an account's balance may be decreased.
#[derive(Clone, Copy, PartialEq, Eq, Debug)]
pub enum WithdrawConsequence {
    /// The withdrawal would succeed.
    Success,
    /// The account holds less than the requested amount.
    BalanceLow,
}

/// Balance-inspection access to a set of fungible assets.
pub trait Inspect<AccountId> {
    /// Means of identifying one asset class from another.
    type AssetId;

    /// The total amount of issuance in the system.
    fn total_issuance(&self, asset: Self::AssetId) -> u64;

    /// The total amount of issuance excluding what the system itself
    /// controls.
    fn active_issuance(&self, asset: Self::AssetId) -> u64;

    /// The minimum balance any single account may have.
    fn minimum_balance(&self, asset: Self::AssetId) -> u64;

    /// The `asset` balance of `who`.
    fn balance(&self, asset: Self::AssetId, who: &AccountId) -> u64;

    /// The maximum amount of `asset` that `who` can withdraw.
    fn reducible_balance(&self, asset: Self::AssetId, who: &AccountId, keep_alive: bool) -> u64;

    /// Whether the `asset` balance of `who` may grow by `amount`.
    fn can_deposit(
        &self,
        asset: Self::AssetId,
        who: &AccountId,
        amount: u64,
        mint: bool,
    ) -> DepositConsequence;

    /// Whether the `asset` balance of `who` may shrink by `amount`.
    fn can_withdraw(
        &self,
        asset: Self::AssetId,
        who: &AccountId,
        amount: u64,
    ) -> WithdrawConsequence;

    /// Whether `asset` exists.
    fn asset_exists(&self, asset: Self::AssetId) -> bool;
}

/// Reading the metadata of a fungible asset.
pub trait InspectMetadata<AccountId>: Inspect<AccountId> {
    /// The name of an asset.
    fn name(&self, asset: &Self::AssetId) -> Vec<u8>;

    /// The ticker symbol of an asset.
    fn symbol(&self, asset: &Self::AssetId) -> Vec<u8>;

    /// The number of decimals an asset's amounts are denominated with.
    fn decimals(&self, asset: &Self::AssetId) -> u8;
}

/// Fungible assets whose supply can be increased and decreased account by
/// account.
pub trait Mutate<AccountId>: Inspect<AccountId> {
    /// Increases the `asset` balance of `who` by `amount`, increasing the
    /// overall supply.
    fn mint_into(
        &mut self,
        asset: Self::AssetId,
        who: &AccountId,
        amount: u64,
    ) -> Result<(), Error>;

    /// Decreases the `asset` balance of `who` by `amount`, decreasing the
    /// overall supply; the amount actually burned is returned.
    fn burn_from(
        &mut self,
        asset: Self::AssetId,
        who: &AccountId,
        amount: u64,
    ) -> Result<u64, Error>;

    /// Decreases the `asset` balance of `who` by as much as possible up to
    /// `amount`, returning the amount actually taken.
    fn slash(&mut self, asset: Self::AssetId, who: &AccountId, amount: u64) -> Result<u64, Error>;

    /// Moves funds between accounts by burning and minting, returning the
    /// amount moved.
    fn teleport(
        &mut self,
        asset: Self::AssetId,
        source: &AccountId,
        dest: &AccountId,
        amount: u64,
    ) -> Result<u64, Error>;
}

/// Fungible assets that can only be transferred.
pub trait Transfer<AccountId>: Inspect<AccountId> {
    /// Transfers free funds from one account into another, returning the
    /// amount moved.
    fn transfer(
        &mut self,
        asset: Self::AssetId,
        source: &AccountId,
        dest: &AccountId,
        amount: u64,
        keep_alive: bool,
    ) -> Result<u64, Error>;

    /// Reduces the active issuance by some amount.
    fn deactivate(&mut self, asset: Self::AssetId, amount: u64);

    /// Increases the active issuance by some amount.
    fn reactivate(&mut self, asset: Self::AssetId, amount: u64);
}

/// Inspection of amounts placed on hold.
pub trait InspectHold<AccountId>: Inspect<AccountId> {
    /// The amount of `asset` held on the account of `who`.
    fn balance_on_hold(&self, asset: Self::AssetId, who: &AccountId) -> u64;

    /// Whether `amount` of `asset` may be placed on hold for `who`.
    fn can_hold(&self, asset: Self::AssetId, who: &AccountId, amount: u64) -> bool;
}

/// Mutation of amounts placed on hold.
pub trait MutateHold<AccountId>: InspectHold<AccountId> + Transfer<AccountId> {
    /// Holds some free funds of an account.
    fn hold(&mut self, asset: Self::AssetId, who: &AccountId, amount: u64) -> Result<(), Error>;

    /// Releases held funds back to free; with `best_effort` the amount
    /// actually released may be smaller than asked. Returns what was
    /// released.
    fn release(
        &mut self,
        asset: Self::AssetId,
        who: &AccountId,
        amount: u64,
        best_effort: bool,
    ) -> Result<u64, Error>;

    /// Transfers held funds into a destination account: still on hold
    /// there when `on_hold` is set, free otherwise. Returns the amount
    /// moved.
    fn transfer_held(
        &mut self,
        asset: Self::AssetId,
        source: &AccountId,
        dest: &AccountId,
        amount: u64,
        best_effort: bool,
        on_hold: bool,
        force: bool,
    ) -> Result<u64, Error>;
}

/// The ability to create new fungible asset classes.
pub trait Create<AccountId>: Inspect<AccountId> {
    /// Creates a new fungible asset administered by `admin`.
    fn create(
        &mut self,
        id: Self::AssetId,
        admin: AccountId,
        is_sufficient: bool,
        min_balance: u64,
    ) -> Result<(), Error>;
}

/// The ability to destroy existing fungible asset classes.
pub trait Destroy<AccountId>: Inspect<AccountId> {
    /// Starts the destruction of an asset, optionally checking that
    /// `maybe_check_owner` administers it.
    fn start_destroy(
        &mut self,
        id: Self::AssetId,
        maybe_check_owner: Option<AccountId>,
    ) -> Result<(), Error>;

    /// Destroys up to `max_items` accounts of an asset being destroyed,
    /// returning how many were destroyed.
    fn destroy_accounts(&mut self, id: Self::AssetId, max_items: u32) -> Result<u32, Error>;

    /// Destroys up to `max_items` approvals of an asset being destroyed,
    /// returning how many were destroyed.
    fn destroy_approvals(&mut self, id: Self::AssetId, max_items: u32) -> Result<u32, Error>;

    /// Completes the destruction of an asset whose accounts and approvals
    /// are gone.
    fn finish_destroy(&mut self, id: Self::AssetId) -> Result<(), Error>;
}

impl Inspect<u64> for Ledger {
    /// The ledger tracks the single native asset.
    type AssetId = ();

    fn total_issuance(&self, asset: ()) -> (r: u64)
        ensures
            r as int == issuance_sum(self.accounts@),
    {
        self.total_balance()
    }

    fn active_issuance(&self, asset: ()) -> (r: u64)
        ensures
            r as int == issuance_sum(self.accounts@),
    {
        self.total_balance()
    }

    fn minimum_balance(&self, asset: ()) -> (r: u64)
        ensures
            r == 0,
    {
        0
    }

    fn balance(&self, asset: (), who: &u64) -> (r: u64)
        ensures
            self.wf() ==> r as int == self.free_of(*who),
    {
        if self.check_wf() {
            self.free_balance(*who)
        } else {
            0
        }
    }

    fn reducible_balance(&self, asset: (), who: &u64, keep_alive: bool) -> (r: u64)
        ensures
            self.wf() ==> r as int == self.free_of(*who),
    {
        if self.check_wf() {
            self.free_balance(*who)
        } else {
            0
        }
    }

    fn can_deposit(&self, asset: (), who: &u64, amount: u64, mint: bool) -> (r: DepositConsequence)
        ensures
            self.wf() ==> (r == DepositConsequence::Success <==> self.free_of(*who) + self.held_of(
                *who,
            ) + amount <= u64::MAX),
    {
        if !self.check_wf() {
            return DepositConsequence::Overflow;
        }
        let free = self.free_balance(*who);
        let held = self.held_balance(*who);
        if free as u128 + held as u128 + amount as u128 <= u64::MAX as u128 {
            DepositConsequence::Success
        } else {
            DepositConsequence::Overflow
        }
    }

    fn can_withdraw(&self, asset: (), who: &u64, amount: u64) -> (r: WithdrawConsequence)
        ensures
            self.wf() ==> (r == WithdrawConsequence::Success <==> self.free_of(*who) >= amount),
    {
        if !self.check_wf() {
            return WithdrawConsequence::BalanceLow;
        }
        if self.free_balance(*who) >= amount {
            WithdrawConsequence::Success
        } else {
            WithdrawConsequence::BalanceLow
        }
    }

    fn asset_exists(&self, asset: ()) -> (r: bool)
        ensures
            r,
    {
        true
    }
}

impl Mutate<u64> for Ledger {
    fn mint_into(&mut self, asset: (), who: &u64, amount: u64) -> (r: Result<(), Error>)
        ensures
            old(self).wf() ==> {
                &&& final(self).wf()
                &&& (r is Ok <==> old(self).free_of(*who) + old(self).held_of(*who) + amount
                    <= u64::MAX)
                &&& r is Ok ==> final(self).view() == map_endow(old(self).view(), *who, amount)
                &&& r is Err ==> *final(self) == *old(self)
            },
    {
        if !self.check_wf() {
            return Err(Error::InsufficientFunds);
        }
        if self.endow(*who, amount) {
            Ok(())
        } else {
            Err(Error::InsufficientFunds)
        }
    }

    fn burn_from(&mut self, asset: (), who: &u64, amount: u64) -> (r: Result<u64, Error>)
        ensures
            old(self).wf() ==> {
                &&& final(self).wf()
                &&& (r is Ok <==> old(self).free_of(*who) >= amount)
                &&& r is Ok ==> r == Ok::<u64, Error>(amount) && final(self).view() == map_withdraw(
                    old(self).view(),
                    *who,
                    amount,
                )
                &&& r is Err ==> *final(self) == *old(self)
            },
    {
        if !self.check_wf() {
            return Err(Error::InsufficientFunds);
        }
        if self.withdraw(*who, amount) {
            Ok(amount)
        } else {
            Err(Error::InsufficientFunds)
        }
    }

    fn slash(&mut self, asset: (), who: &u64, amount: u64) -> (r: Result<u64, Error>)
        ensures
            old(self).wf() ==> ({
                let taken = if old(self).free_of(*who) >= amount {
                    amount as int
                } else {
                    old(self).free_of(*who)
                };
                &&& final(self).wf()
                &&& r == Ok::<u64, Error>(taken as u64)
                &&& final(self).view() == map_withdraw(old(self).view(), *who, taken as u64)
            }),
    {
        if !self.check_wf() {
            return Err(Error::InsufficientFunds);
        }
        let free = self.free_balance(*who);
        let taken: u64 = if free >= amount {
            amount
        } else {
            free
        };
        self.withdraw(*who, taken);
        Ok(taken)
    }

    fn teleport(&mut self, asset: (), source: &u64, dest: &u64, amount: u64) -> (r: Result<
        u64,
        Error,
    >)
        ensures
            old(self).wf() ==> {
                &&& final(self).wf()
                &&& (r is Ok <==> old(self).can_pay(*source, *dest, amount))
                &&& r is Ok ==> r == Ok::<u64, Error>(amount) && final(self).view() == map_pay(
                    old(self).view(),
                    *source,
                    *dest,
                    amount,
                )
                &&& r is Err ==> *final(self) == *old(self)
            },
    {
        if !self.check_wf() {
            return Err(Error::InsufficientFunds);
        }
        if self.pay(*source, *dest, amount) {
            Ok(amount)
        } else {
            Err(Error::InsufficientFunds)
        }
    }
}

impl Transfer<u64> for Ledger {
    fn transfer(
        &mut self,
        asset: (),
        source: &u64,
        dest: &u64,
        amount: u64,
        keep_alive: bool,
    ) -> (r: Result<u64, Error>)
        ensures
            old(self).wf() ==> {
                &&& final(self).wf()
                &&& (r is Ok <==> old(self).can_pay(*source, *dest, amount))
                &&& r is Ok ==> r == Ok::<u64, Error>(amount) && final(self).view() == map_pay(
                    old(self).view(),
                    *source,
                    *dest,
                    amount,
                )
                &&& r is Err ==> *final(self) == *old(self)
            },
    {
        if !self.check_wf() {
            return Err(Error::InsufficientFunds);
        }
        if self.pay(*source, *dest, amount) {
            Ok(amount)
        } else {
            Err(Error::InsufficientFunds)
        }
    }

    fn deactivate(&mut self, asset: (), amount: u64)
        ensures
            *final(self) == *old(self),
    {
    }

    fn reactivate(&mut self, asset: (), amount: u64)
        ensures
            *final(self) == *old(self),
    {
    }
}

impl InspectHold<u64> for Ledger {
    fn balance_on_hold(&self, asset: (), who: &u64) -> (r: u64)
        ensures
            self.wf() ==> r as int == self.held_of(*who),
    {
        if self.check_wf() {
            self.held_balance(*who)
        } else {
            0
        }
    }

    fn can_hold(&self, asset: (), who: &u64, amount: u64) -> (r: bool)
        ensures
            self.wf() ==> (r <==> self.can_reserve(*who, amount)),
    {
        if !self.check_wf() {
            return false;
        }
        self.free_balance(*who) >= amount
    }
}

impl MutateHold<u64> for Ledger {
    fn hold(&mut self, asset: (), who: &u64, amount: u64) -> (r: Result<(), Error>)
        ensures
            old(self).wf() ==> {
                &&& final(self).wf()
                &&& (r is Ok <==> old(self).can_reserve(*who, amount))
                &&& r is Ok ==> final(self).view() == map_reserve(old(self).view(), *who, amount)
                &&& r is Err ==> *final(self) == *old(self)
            },
    {
        if !self.check_wf() {
            return Err(Error::InsufficientFunds);
        }
        if self.reserve(*who, amount) {
            Ok(())
        } else {
            Err(Error::InsufficientFunds)
        }
    }

    fn release(&mut self, asset: (), who: &u64, amount: u64, best_effort: bool) -> (r: Result<
        u64,
        Error,
    >)
        ensures
            old(self).wf() ==> ({
                let avail = old(self).held_of(*who);
                let released = if avail >= amount {
                    amount as int
                } else {
                    avail
                };
                &&& final(self).wf()
                &&& (r is Ok <==> best_effort || avail >= amount)
                &&& r is Ok ==> r == Ok::<u64, Error>(released as u64) && final(self).view()
                    == map_unreserve(old(self).view(), *who, released as u64)
                &&& r is Err ==> *final(self) == *old(self)
            }),
    {
        if !self.check_wf() {
            return Err(Error::InsufficientFunds);
        }
        let avail = self.held_balance(*who);
        let released: u64 = if avail >= amount {
            amount
        } else {
            avail
        };
        if !best_effort && avail < amount {
            return Err(Error::InsufficientFunds);
        }
        self.unreserve(*who, released);
        Ok(released)
    }

    fn transfer_held(
        &mut self,
        asset: (),
        source: &u64,
        dest: &u64,
        amount: u64,
        best_effort: bool,
        on_hold: bool,
        force: bool,
    ) -> (r: Result<u64, Error>)
        ensures
            old(self).wf() ==> ({
                let avail = old(self).held_of(*source);
                let moved = if avail >= amount {
                    amount as int
                } else {
                    avail
                };
                &&& final(self).wf()
                &&& (r is Ok <==> (best_effort || avail >= amount) && old(self).can_receive(
                    *source,
                    *dest,
                    moved as u64,
                ))
                &&& (r is Ok && on_hold) ==> r == Ok::<u64, Error>(moved as u64)
                    && final(self).view() == crate::ledger::map_move_held(
                    old(self).view(),
                    *source,
                    *dest,
                    moved as u64,
                )
                &&& (r is Ok && !on_hold) ==> r == Ok::<u64, Error>(moved as u64)
                    && final(self).view() == map_pay(
                    map_unreserve(old(self).view(), *source, moved as u64),
                    *source,
                    *dest,
                    moved as u64,
                )
                &&& r is Err ==> *final(self) == *old(self)
            }),
    {
        if !self.check_wf() {
            return Err(Error::InsufficientFunds);
        }
        let avail = self.held_balance(*source);
        let moved: u64 = if avail >= amount {
            amount
        } else {
            avail
        };
        if !best_effort && avail < amount {
            return Err(Error::InsufficientFunds);
        }
        if *source != *dest {
            let free_to = self.free_balance(*dest);
            let held_to = self.held_balance(*dest);
            if free_to as u128 + held_to as u128 + moved as u128 > u64::MAX as u128 {
                return Err(Error::InsufficientFunds);
            }
        }
        if on_hold {
            self.move_held(*source, *dest, moved);
            Ok(moved)
        } else {
            self.unreserve(*source, moved);
            self.pay(*source, *dest, moved);
            Ok(moved)
        }
    }
}

} // verus!
