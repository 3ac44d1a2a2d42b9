//! The engine state and its global invariant. The engine owns three keyed
//! stores - pending commitments, registrations and resolver records - and
//! the ledger the deposits are reserved on. The invariant ties them
//! together: every account's held balance is exactly the sum of the
//! deposits attributed to it, and the total held balance is exactly the sum
//! of all currently-locked deposits.
use crate::ledger::Ledger;
use crate::store::Store;
use crate::types::events_extended;
use crate::types::Commitment;
use crate::types::Config;
use crate::types::Event;
use crate::types::Registration;
use vstd::prelude::*;

verus! {

/// What one commitment entry contributes to account `a`'s deposits.
pub open spec fn commitment_contrib(a: u64, e: (Vec<u8>, Commitment)) -> int {
    if e.1.depositor == a {
        e.1.deposit as int
    } else {
        0
    }
}

/// The deposits account `a` has locked behind pending commitments.
pub open spec fn c_for(a: u64, s: Seq<(Vec<u8>, Commitment)>) -> int
    decreases s.len(),
{
    if s.len() == 0 {
        0
    } else {
        c_for(a, s.drop_last()) + commitment_contrib(a, s.last())
    }
}

/// The deposits locked behind all pending commitments.
pub open spec fn c_total(s: Seq<(Vec<u8>, Commitment)>) -> int
    decreases s.len(),
{
    if s.len() == 0 {
        0
    } else {
        c_total(s.drop_last()) + s.last().1.deposit
    }
}

/// What one registration entry contributes to account `a`'s deposits.
pub open spec fn registration_contrib(a: u64, e: (Vec<u8>, Registration)) -> int {
    if e.1.owner == a {
        e.1.deposit_amount()
    } else {
        0
    }
}

/// The deposits account `a` has locked behind registrations it owns.
pub open spec fn r_for(a: u64, s: Seq<(Vec<u8>, Registration)>) -> int
    decreases s.len(),
{
    if s.len() == 0 {
        0
    } else {
        r_for(a, s.drop_last()) + registration_contrib(a, s.last())
    }
}

/// The deposits locked behind all registrations.
pub open spec fn r_total(s: Seq<(Vec<u8>, Registration)>) -> int
    decreases s.len(),
{
    if s.len() == 0 {
        0
    } else {
        r_total(s.drop_last()) + s.last().1.deposit_amount()
    }
}

/// Appending a commitment entry adds its deposit to its depositor's share
/// and to the total.
pub proof fn lemma_c_push(s: Seq<(Vec<u8>, Commitment)>, e: (Vec<u8>, Commitment))
    ensures
        forall|a: u64| #[trigger] c_for(a, s.push(e)) == c_for(a, s) + commitment_contrib(a, e),
        c_total(s.push(e)) == c_total(s) + e.1.deposit,
{
    assert(s.push(e).drop_last() =~= s);
    assert(s.push(e).last() == e);
}

/// Removing a commitment entry subtracts its deposit from its depositor's
/// share and from the total.
pub proof fn lemma_c_remove(s: Seq<(Vec<u8>, Commitment)>, i: int)
    requires
        0 <= i < s.len(),
    ensures
        forall|a: u64| #[trigger] c_for(a, s.remove(i)) == c_for(a, s) - commitment_contrib(
            a,
            s[i],
        ),
        c_total(s.remove(i)) == c_total(s) - s[i].1.deposit,
    decreases s.len(),
{
    if i == s.len() - 1 {
        assert(s.remove(i) =~= s.drop_last());
        assert forall|a: u64|
            #[trigger] c_for(a, s.remove(i)) == c_for(a, s) - commitment_contrib(a, s[i]) by {
            assert(c_for(a, s) == c_for(a, s.drop_last()) + commitment_contrib(a, s.last()));
            assert(s.last() == s[i]);
        }
    } else {
        lemma_c_remove(s.drop_last(), i);
        assert(s.remove(i).drop_last() =~= s.drop_last().remove(i));
        assert(s.remove(i).last() == s.last());
        assert(s.drop_last()[i] == s[i]);
        assert forall|a: u64|
            #[trigger] c_for(a, s.remove(i)) == c_for(a, s) - commitment_contrib(a, s[i]) by {
            assert(c_for(a, s.remove(i)) == c_for(a, s.drop_last().remove(i))
                + commitment_contrib(a, s.remove(i).last()));
            assert(c_for(a, s) == c_for(a, s.drop_last()) + commitment_contrib(a, s.last()));
        }
    }
}

/// Deposit shares are never negative.
pub proof fn lemma_c_nonneg(s: Seq<(Vec<u8>, Commitment)>)
    ensures
        forall|a: u64| 0 <= #[trigger] c_for(a, s),
    decreases s.len(),
{
    if s.len() > 0 {
        lemma_c_nonneg(s.drop_last());
        assert forall|a: u64| 0 <= #[trigger] c_for(a, s) by {
            assert(c_for(a, s) == c_for(a, s.drop_last()) + commitment_contrib(a, s.last()));
        }
    }
}

/// Each commitment entry's deposit is covered by its depositor's share.
pub proof fn lemma_c_entry_bound(s: Seq<(Vec<u8>, Commitment)>, i: int)
    requires
        0 <= i < s.len(),
    ensures
        c_for(s[i].1.depositor, s) >= s[i].1.deposit,
    decreases s.len(),
{
    let a = s[i].1.depositor;
    assert(c_for(a, s) == c_for(a, s.drop_last()) + commitment_contrib(a, s.last()));
    if i == s.len() - 1 {
        lemma_c_nonneg(s.drop_last());
        assert(s.last() == s[i]);
    } else {
        assert(s.drop_last()[i] == s[i]);
        lemma_c_entry_bound(s.drop_last(), i);
    }
}

/// Appending a registration entry adds its deposit to its owner's share and
/// to the total.
pub proof fn lemma_r_push(s: Seq<(Vec<u8>, Registration)>, e: (Vec<u8>, Registration))
    ensures
        forall|a: u64| #[trigger] r_for(a, s.push(e)) == r_for(a, s) + registration_contrib(a, e),
        r_total(s.push(e)) == r_total(s) + e.1.deposit_amount(),
{
    assert(s.push(e).drop_last() =~= s);
    assert(s.push(e).last() == e);
}

/// Removing a registration entry subtracts its deposit from its owner's
/// share and from the total.
pub proof fn lemma_r_remove(s: Seq<(Vec<u8>, Registration)>, i: int)
    requires
        0 <= i < s.len(),
    ensures
        forall|a: u64| #[trigger] r_for(a, s.remove(i)) == r_for(a, s) - registration_contrib(
            a,
            s[i],
        ),
        r_total(s.remove(i)) == r_total(s) - s[i].1.deposit_amount(),
    decreases s.len(),
{
    if i == s.len() - 1 {
        assert(s.remove(i) =~= s.drop_last());
        assert forall|a: u64|
            #[trigger] r_for(a, s.remove(i)) == r_for(a, s) - registration_contrib(a, s[i]) by {
            assert(r_for(a, s) == r_for(a, s.drop_last()) + registration_contrib(a, s.last()));
            assert(s.last() == s[i]);
        }
    } else {
        lemma_r_remove(s.drop_last(), i);
        assert(s.remove(i).drop_last() =~= s.drop_last().remove(i));
        assert(s.remove(i).last() == s.last());
        assert(s.drop_last()[i] == s[i]);
        assert forall|a: u64|
            #[trigger] r_for(a, s.remove(i)) == r_for(a, s) - registration_contrib(a, s[i]) by {
            assert(r_for(a, s.remove(i)) == r_for(a, s.drop_last().remove(i))
                + registration_contrib(a, s.remove(i).last()));
            assert(r_for(a, s) == r_for(a, s.drop_last()) + registration_contrib(a, s.last()));
        }
    }
}

/// Deposit shares are never negative.
pub proof fn lemma_r_nonneg(s: Seq<(Vec<u8>, Registration)>)
    ensures
        forall|a: u64| 0 <= #[trigger] r_for(a, s),
    decreases s.len(),
{
    if s.len() > 0 {
        lemma_r_nonneg(s.drop_last());
        assert forall|a: u64| 0 <= #[trigger] r_for(a, s) by {
            assert(r_for(a, s) == r_for(a, s.drop_last()) + registration_contrib(a, s.last()));
        }
    }
}

/// Each registration entry's deposit is covered by its owner's share.
pub proof fn lemma_r_entry_bound(s: Seq<(Vec<u8>, Registration)>, i: int)
    requires
        0 <= i < s.len(),
    ensures
        r_for(s[i].1.owner, s) >= s[i].1.deposit_amount(),
    decreases s.len(),
{
    let a = s[i].1.owner;
    assert(r_for(a, s) == r_for(a, s.drop_last()) + registration_contrib(a, s.last()));
    if i == s.len() - 1 {
        lemma_r_nonneg(s.drop_last());
        assert(s.last() == s[i]);
    } else {
        assert(s.drop_last()[i] == s[i]);
        lemma_r_entry_bound(s.drop_last(), i);
    }
}

/// The name-registration engine.
pub struct Pallet {
    /// The constants the engine was configured with.
    pub config: Config,
    /// The ledger deposits are reserved on and fees are paid through.
    pub ledger: Ledger,
    /// Pending commitments, keyed by commitment hash.
    pub commitments: Store<Commitment>,
    /// Registrations, keyed by name hash.
    pub registrations: Store<Registration>,
    /// Resolved addresses, keyed by name hash.
    pub resolvers: Store<u64>,
    /// The notifications emitted so far, oldest first.
    pub events: Vec<Event>,
}

impl Pallet {
    /// The engine invariant: the stores are well-formed, and reserved
    /// balances match locked deposits exactly - per account and in total.
    pub open spec fn wf(self) -> bool {
        &&& self.commitments.wf()
        &&& self.registrations.wf()
        &&& self.resolvers.wf()
        &&& self.ledger.wf()
        &&& self.ledger.held_total() == c_total(self.commitments.entries@) + r_total(
            self.registrations.entries@,
        )
        &&& forall|a: u64|
            #[trigger] self.ledger.held_of(a) == c_for(a, self.commitments.entries@) + r_for(
                a,
                self.registrations.entries@,
            )
    }

    /// Deposit conservation: in every well-formed engine state, the total
    /// held balance on the ledger equals the sum of the deposits locked
    /// behind pending commitments and registrations - no operation can leak
    /// or duplicate a reservation without breaking this equality.
    pub proof fn lemma_deposit_conservation(self)
        requires
            self.wf(),
        ensures
            self.ledger.held_total() == c_total(self.commitments.entries@) + r_total(
                self.registrations.entries@,
            ),
            forall|a: u64|
                #[trigger] self.ledger.held_of(a) == c_for(a, self.commitments.entries@) + r_for(
                    a,
                    self.registrations.entries@,
                ),
    {
    }

    /// Creates an engine with the given constants, empty stores and an
    /// empty ledger.
    pub fn new(config: Config) -> (p: Pallet)
        ensures
            p.wf(),
            p.config == config,
            p.commitments.view() == Map::<Seq<u8>, Commitment>::empty(),
            p.registrations.view() == Map::<Seq<u8>, Registration>::empty(),
            p.resolvers.view() == Map::<Seq<u8>, u64>::empty(),
            p.events@ == Seq::<Event>::empty(),
            forall|a: u64| #[trigger] p.ledger.view()[a] == (0int, 0int),
    {
        let p = Pallet {
            config,
            ledger: Ledger::new(),
            commitments: Store::new(),
            registrations: Store::new(),
            resolvers: Store::new(),
            events: Vec::new(),
        };
        p
    }

    /// Credits `who` with free balance to commit, pay fees and make
    /// deposits from; refused only when the account would overflow. Held
    /// balances and deposits are untouched.
    pub fn endow(&mut self, who: u64, amount: u64) -> (ok: bool)
        requires
            old(self).wf(),
        ensures
            final(self).wf(),
            final(self).config == old(self).config,
            ok <==> old(self).ledger.free_of(who) + old(self).ledger.held_of(who) + amount
                <= u64::MAX,
            ok ==> final(self).ledger.view() == crate::ledger::map_endow(
                old(self).ledger.view(),
                who,
                amount,
            ),
            ok ==> final(self).commitments == old(self).commitments && final(self).registrations
                == old(self).registrations && final(self).resolvers == old(self).resolvers
                && final(self).events == old(self).events,
            !ok ==> *final(self) == *old(self),
    {
        let ok = self.ledger.endow(who, amount);
        proof {
            if ok {
                assert forall|a: u64|
                    #[trigger] self.ledger.held_of(a) == c_for(a, self.commitments.entries@)
                        + r_for(a, self.registrations.entries@) by {
                    assert(old(self).ledger.held_of(a) == c_for(a, old(self).commitments.entries@)
                        + r_for(a, old(self).registrations.entries@));
                }
            }
        }
        ok
    }

    /// Reads the pending commitment stored under a commitment hash.
    pub fn get_commitment(&self, commitment_hash: &Vec<u8>) -> (r: Option<Commitment>)
        requires
            self.wf(),
        ensures
            r == if self.commitments.view().contains_key(commitment_hash@) {
                Some(self.commitments.view()[commitment_hash@])
            } else {
                None::<Commitment>
            },
    {
        self.commitments.get(commitment_hash)
    }

    /// Reads the registration stored under a name hash.
    pub fn get_registration(&self, name_hash: &Vec<u8>) -> (r: Option<Registration>)
        requires
            self.wf(),
        ensures
            r == if self.registrations.view().contains_key(name_hash@) {
                Some(self.registrations.view()[name_hash@])
            } else {
                None::<Registration>
            },
    {
        self.registrations.get(name_hash)
    }

    /// Reads the address a name hash resolves to.
    pub fn resolve(&self, name_hash: &Vec<u8>) -> (r: Option<u64>)
        requires
            self.wf(),
        ensures
            r == if self.resolvers.view().contains_key(name_hash@) {
                Some(self.resolvers.view()[name_hash@])
            } else {
                None::<u64>
            },
    {
        self.resolvers.get(name_hash)
    }

    /// Reads the free balance of `who` on the engine's ledger.
    pub fn free_balance(&self, who: u64) -> (r: u64)
        requires
            self.wf(),
        ensures
            r as int == self.ledger.free_of(who),
    {
        self.ledger.free_balance(who)
    }

    /// Reads the held balance of `who` on the engine's ledger.
    pub fn held_balance(&self, who: u64) -> (r: u64)
        requires
            self.wf(),
        ensures
            r as int == self.ledger.held_of(who),
    {
        self.ledger.held_balance(who)
    }

    /// Reads the notifications emitted so far, oldest first.
    pub fn events(&self) -> (r: &Vec<Event>)
        ensures
            r@ == self.events@,
    {
        &self.events
    }
}

/// Appends one notification to the log.
pub fn push_event(events: &mut Vec<Event>, e: Event)
    ensures
        events_extended(old(events)@, final(events)@),
        final(events)@.last() == e,
{
    events.push(e);
    proof {
        assert(events@.take(old(events)@.len() as int) =~= old(events)@);
    }
}

} // verus!
