//! The account ledger the engine reserves deposits on. Every account has a
//! free balance and a held balance; deposits move amounts from free to held
//! and back, fees move free amounts between accounts. Abstractly the ledger
//! is the total map from every account to its pair of balances, absent
//! accounts holding zero.
use vstd::prelude::*;

verus! {

/// One account's balances.
#[derive(Clone, Copy, PartialEq, Eq, Debug)]
pub struct AccountData {
    /// The account identifier.
    pub who: u64,
    /// Balance freely available to fees and new deposits.
    pub free: u64,
    /// Balance held against pending commitments and registrations.
    pub held: u64,
}

/// The record for account `a`, if one is stored.
pub open spec fn acct_at(s: Seq<AccountData>, a: u64) -> Option<AccountData>
    decreases s.len(),
{
    if s.len() == 0 {
        None
    } else if s.last().who == a {
        Some(s.last())
    } else {
        acct_at(s.drop_last(), a)
    }
}

/// The sum of all held balances.
pub open spec fn held_sum(s: Seq<AccountData>) -> int
    decreases s.len(),
{
    if s.len() == 0 {
        0
    } else {
        held_sum(s.drop_last()) + s.last().held
    }
}

/// Pairwise distinct account identifiers.
pub open spec fn distinct_accounts(s: Seq<AccountData>) -> bool {
    forall|i: int, j: int| 0 <= i < j < s.len() ==> s[i].who != s[j].who
}

/// Appending a record for a fresh account extends the lookup pointwise.
pub proof fn lemma_acct_at_push(s: Seq<AccountData>, d: AccountData)
    ensures
        forall|a: u64|
            #[trigger] acct_at(s.push(d), a) == if a == d.who {
                Some(d)
            } else {
                acct_at(s, a)
            },
        held_sum(s.push(d)) == held_sum(s) + d.held,
{
    assert(s.push(d).drop_last() =~= s);
    assert(s.push(d).last() == d);
}

/// Replacing one record, keeping its account, updates the lookup pointwise.
pub proof fn lemma_acct_at_update(s: Seq<AccountData>, i: int, d: AccountData)
    requires
        distinct_accounts(s),
        0 <= i < s.len(),
        s[i].who == d.who,
    ensures
        forall|a: u64|
            #[trigger] acct_at(s.update(i, d), a) == if a == d.who {
                Some(d)
            } else {
                acct_at(s, a)
            },
        held_sum(s.update(i, d)) == held_sum(s) - s[i].held + d.held,
        distinct_accounts(s.update(i, d)),
    decreases s.len(),
{
    assert(distinct_accounts(s.update(i, d))) by {
        assert(forall|x: int|
            0 <= x < s.len() ==> #[trigger] s.update(i, d)[x].who == s[x].who);
    }
    if i == s.len() - 1 {
        assert(s.update(i, d).drop_last() =~= s.drop_last());
        assert(s.update(i, d).last() == d);
        assert forall|a: u64|
            #[trigger] acct_at(s.update(i, d), a) == (if a == d.who {
                Some(d)
            } else {
                acct_at(s, a)
            }) by {
            assert(s.last() == s[i]);
            if a != d.who {
                assert(acct_at(s.update(i, d), a) == acct_at(s.drop_last(), a));
                assert(acct_at(s, a) == acct_at(s.drop_last(), a));
            }
        }
    } else {
        assert(distinct_accounts(s.drop_last())) by {
            assert(forall|x: int|
                0 <= x < s.drop_last().len() ==> #[trigger] s.drop_last()[x] == s[x]);
        }
        assert(s.drop_last()[i] == s[i]);
        lemma_acct_at_update(s.drop_last(), i, d);
        assert(s.update(i, d).drop_last() =~= s.drop_last().update(i, d));
        assert(s.update(i, d).last() == s.last());
        assert(s.last() == s[s.len() - 1] && s[i].who != s[s.len() - 1].who);
        assert forall|a: u64|
            #[trigger] acct_at(s.update(i, d), a) == (if a == d.who {
                Some(d)
            } else {
                acct_at(s, a)
            }) by {
            if a == s.last().who {
                assert(acct_at(s.update(i, d), a) == Some(s.last()));
                assert(acct_at(s, a) == Some(s.last()));
            } else {
                assert(acct_at(s.update(i, d), a) == acct_at(s.drop_last().update(i, d), a));
                assert(acct_at(s, a) == acct_at(s.drop_last(), a));
            }
        }
    }
}

/// An account is found exactly when a record carries it, and what is found
/// is that record.
pub proof fn lemma_acct_at_index(s: Seq<AccountData>, a: u64)
    ensures
        match acct_at(s, a) {
            Some(d) => d.who == a && exists|i: int| 0 <= i < s.len() && s[i] == d,
            None => forall|i: int| 0 <= i < s.len() ==> s[i].who != a,
        },
    decreases s.len(),
{
    if s.len() > 0 {
        lemma_acct_at_index(s.drop_last(), a);
        if s.last().who == a {
            assert(s[s.len() - 1] == s.last());
        } else {
            match acct_at(s.drop_last(), a) {
                Some(d) => {
                    let i = choose|i: int| 0 <= i < s.drop_last().len() && s.drop_last()[i] == d;
                    assert(s[i] == d);
                },
                None => {
                    assert(forall|i: int|
                        0 <= i < s.len() - 1 ==> #[trigger] s[i] == s.drop_last()[i]);
                },
            }
        }
    }
}

/// Reserving moves an amount from free to held on one account.
pub open spec fn map_reserve(m: Map<u64, (int, int)>, who: u64, amount: u64) -> Map<
    u64,
    (int, int),
> {
    m.insert(who, (m[who].0 - amount, m[who].1 + amount))
}

/// Unreserving moves an amount from held back to free on one account.
pub open spec fn map_unreserve(m: Map<u64, (int, int)>, who: u64, amount: u64) -> Map<
    u64,
    (int, int),
> {
    m.insert(who, (m[who].0 + amount, m[who].1 - amount))
}

/// Paying moves a free amount from one account to another, irrevocably.
pub open spec fn map_pay(m: Map<u64, (int, int)>, from: u64, to: u64, amount: u64) -> Map<
    u64,
    (int, int),
> {
    let m1 = m.insert(from, (m[from].0 - amount, m[from].1));
    m1.insert(to, (m1[to].0 + amount, m1[to].1))
}

/// Moving a hold re-attributes a held amount from one account to another.
pub open spec fn map_move_held(m: Map<u64, (int, int)>, from: u64, to: u64, amount: u64) -> Map<
    u64,
    (int, int),
> {
    let m1 = m.insert(from, (m[from].0, m[from].1 - amount));
    m1.insert(to, (m1[to].0, m1[to].1 + amount))
}

/// Withdrawing burns an amount from one account's free balance.
pub open spec fn map_withdraw(m: Map<u64, (int, int)>, who: u64, amount: u64) -> Map<
    u64,
    (int, int),
> {
    m.insert(who, (m[who].0 - amount, m[who].1))
}

/// The sum of all balances, free and held, saturated at the largest
/// representable amount.
pub open spec fn issuance_sum(s: Seq<AccountData>) -> int
    decreases s.len(),
{
    if s.len() == 0 {
        0
    } else {
        crate::types::sat_add_u64(
            issuance_sum(s.drop_last()),
            crate::types::sat_add_u64(s.last().free as int, s.last().held as int),
        )
    }
}

/// Endowing adds an amount to one account's free balance.
pub open spec fn map_endow(m: Map<u64, (int, int)>, who: u64, amount: u64) -> Map<
    u64,
    (int, int),
> {
    m.insert(who, (m[who].0 + amount, m[who].1))
}

/// Reserving an amount and then refunding it restores every account's
/// balances exactly: a deposit round-trip can neither leak nor create
/// funds.
pub proof fn lemma_reserve_refund_roundtrip(m: Map<u64, (int, int)>, who: u64, amount: u64)
    requires
        m.dom().contains(who),
    ensures
        map_unreserve(map_reserve(m, who, amount), who, amount) == m,
{
    assert((m[who].0, m[who].1) == m[who]);
    assert(map_unreserve(map_reserve(m, who, amount), who, amount) =~= m);
}

/// The account ledger.
pub struct Ledger {
    /// The stored account records, with pairwise distinct identifiers.
    pub accounts: Vec<AccountData>,
}

impl Ledger {
    /// The total map from every account to its `(free, held)` balances.
    pub open spec fn view(self) -> Map<u64, (int, int)> {
        Map::new(
            |a: u64| true,
            |a: u64|
                match acct_at(self.accounts@, a) {
                    Some(d) => (d.free as int, d.held as int),
                    None => (0, 0),
                },
        )
    }

    /// The free balance of `a`.
    pub open spec fn free_of(self, a: u64) -> int {
        self.view()[a].0
    }

    /// The held balance of `a`.
    pub open spec fn held_of(self, a: u64) -> int {
        self.view()[a].1
    }

    /// The sum of all held balances.
    pub open spec fn held_total(self) -> int {
        held_sum(self.accounts@)
    }

    /// Well-formedness: accounts are stored at most once, and no account's
    /// combined balances overflow.
    pub open spec fn wf(self) -> bool {
        &&& distinct_accounts(self.accounts@)
        &&& forall|i: int|
            0 <= i < self.accounts@.len() ==> #[trigger] self.accounts@[i].free as int
                + self.accounts@[i].held as int <= u64::MAX
    }

    /// Whether `who` can have `amount` moved from free to held.
    pub open spec fn can_reserve(self, who: u64, amount: u64) -> bool {
        self.free_of(who) >= amount
    }

    /// Whether `to` can receive `amount` more without overflowing; an
    /// account can always "receive" from itself.
    pub open spec fn can_receive(self, from: u64, to: u64, amount: u64) -> bool {
        from == to || self.free_of(to) + self.held_of(to) + amount <= u64::MAX
    }

    /// Whether `from` can pay `amount` of free balance to `to`.
    pub open spec fn can_pay(self, from: u64, to: u64, amount: u64) -> bool {
        self.free_of(from) >= amount && self.can_receive(from, to, amount)
    }

    /// Every account's balances are non-negative and combined stay
    /// representable.
    pub proof fn lemma_bounded(self)
        requires
            self.wf(),
        ensures
            forall|a: u64|
                {
                    &&& 0 <= #[trigger] self.view()[a].0
                    &&& 0 <= self.view()[a].1
                    &&& self.view()[a].0 + self.view()[a].1 <= u64::MAX
                },
    {
        assert forall|a: u64|
            {
                &&& 0 <= #[trigger] self.view()[a].0
                &&& 0 <= self.view()[a].1
                &&& self.view()[a].0 + self.view()[a].1 <= u64::MAX
            } by {
            lemma_acct_at_index(self.accounts@, a);
            match acct_at(self.accounts@, a) {
                Some(d) => {
                    let i = choose|i: int|
                        0 <= i < self.accounts@.len() && self.accounts@[i] == d;
                    assert(self.accounts@[i].free as int + self.accounts@[i].held as int
                        <= u64::MAX);
                },
                None => {},
            }
        }
    }

    /// Creates an empty ledger.
    pub fn new() -> (l: Ledger)
        ensures
            l.wf(),
            l.held_total() == 0,
            forall|a: u64| #[trigger] l.view()[a] == (0int, 0int),
    {
        Ledger { accounts: Vec::new() }
    }

    /// Finds the index of the record for `who`, if any.
    fn index_of(&self, who: u64) -> (r: Option<usize>)
        ensures
            match r {
                Some(i) => i < self.accounts@.len() && self.accounts@[i as int].who == who,
                None => forall|i: int|
                    0 <= i < self.accounts@.len() ==> self.accounts@[i].who != who,
            },
    {
        let mut i: usize = 0;
        while i < self.accounts.len()
            invariant
                i <= self.accounts@.len(),
                forall|j: int| 0 <= j < i ==> self.accounts@[j].who != who,
            decreases self.accounts@.len() - i,
        {
            if self.accounts[i].who == who {
                return Some(i);
            }
            i += 1;
        }
        None
    }

    /// Reads the free balance of `who`.
    pub fn free_balance(&self, who: u64) -> (r: u64)
        requires
            self.wf(),
        ensures
            r as int == self.free_of(who),
    {
        proof {
            lemma_acct_at_index(self.accounts@, who);
        }
        match self.index_of(who) {
            Some(i) => {
                proof {
                    lemma_acct_at_value(self.accounts@, i as int);
                }
                self.accounts[i].free
            },
            None => 0,
        }
    }

    /// Reads the held balance of `who`.
    pub fn held_balance(&self, who: u64) -> (r: u64)
        requires
            self.wf(),
        ensures
            r as int == self.held_of(who),
    {
        proof {
            lemma_acct_at_index(self.accounts@, who);
        }
        match self.index_of(who) {
            Some(i) => {
                proof {
                    lemma_acct_at_value(self.accounts@, i as int);
                }
                self.accounts[i].held
            },
            None => 0,
        }
    }

    /// Adds `amount` to the free balance of `who`, creating the account if
    /// it is new; refused only when the account's balances would overflow.
    pub fn endow(&mut self, who: u64, amount: u64) -> (ok: bool)
        requires
            old(self).wf(),
        ensures
            final(self).wf(),
            ok <==> old(self).free_of(who) + old(self).held_of(who) + amount <= u64::MAX,
            ok ==> final(self).view() == map_endow(old(self).view(), who, amount),
            ok ==> final(self).held_total() == old(self).held_total(),
            !ok ==> *final(self) == *old(self),
    {
        proof {
            lemma_acct_at_index(self.accounts@, who);
        }
        match self.index_of(who) {
            Some(i) => {
                proof {
                    lemma_acct_at_value(self.accounts@, i as int);
                }
                let d = self.accounts[i];
                if amount as u128 + d.free as u128 + d.held as u128 > u64::MAX as u128 {
                    return false;
                }
                let nd = AccountData { who, free: d.free + amount, held: d.held };
                proof {
                    lemma_acct_at_update(self.accounts@, i as int, nd);
                }
                self.accounts.set(i, nd);
                proof {
                    assert(self.view() =~= map_endow(old(self).view(), who, amount));
                }
                true
            },
            None => {
                let nd = AccountData { who, free: amount, held: 0 };
                proof {
                    lemma_acct_at_push(self.accounts@, nd);
                }
                self.accounts.push(nd);
                proof {
                    assert(distinct_accounts(self.accounts@)) by {
                        assert(forall|x: int|
                            0 <= x < old(self).accounts@.len() ==> #[trigger] self.accounts@[x]
                                == old(self).accounts@[x]);
                    }
                    assert(self.view() =~= map_endow(old(self).view(), who, amount));
                }
                true
            },
        }
    }

    /// Burns `amount` from the free balance of `who`; fails exactly when
    /// the free balance is short, changing nothing.
    pub fn withdraw(&mut self, who: u64, amount: u64) -> (ok: bool)
        requires
            old(self).wf(),
        ensures
            final(self).wf(),
            ok <==> old(self).free_of(who) >= amount,
            ok ==> final(self).view() == map_withdraw(old(self).view(), who, amount),
            ok ==> final(self).held_total() == old(self).held_total(),
            !ok ==> *final(self) == *old(self),
    {
        proof {
            lemma_acct_at_index(self.accounts@, who);
        }
        match self.index_of(who) {
            Some(i) => {
                proof {
                    lemma_acct_at_value(self.accounts@, i as int);
                }
                let d = self.accounts[i];
                if d.free < amount {
                    return false;
                }
                let nd = AccountData { who, free: d.free - amount, held: d.held };
                proof {
                    lemma_acct_at_update(self.accounts@, i as int, nd);
                }
                self.accounts.set(i, nd);
                proof {
                    assert(self.view() =~= map_withdraw(old(self).view(), who, amount));
                }
                true
            },
            None => {
                if amount == 0 {
                    proof {
                        assert(self.view() =~= map_withdraw(old(self).view(), who, amount));
                    }
                    true
                } else {
                    false
                }
            },
        }
    }

    /// Checks the well-formedness invariant: account identifiers pairwise
    /// distinct, and every account's combined balances representable.
    pub fn check_wf(&self) -> (r: bool)
        ensures
            r <==> self.wf(),
    {
        let n = self.accounts.len();
        let mut i: usize = 0;
        while i < n
            invariant
                i <= n,
                n == self.accounts@.len(),
                forall|x: int, y: int|
                    0 <= x < y < n && x < i ==> self.accounts@[x].who != self.accounts@[y].who,
                forall|x: int|
                    0 <= x < i ==> #[trigger] self.accounts@[x].free as int
                        + self.accounts@[x].held as int <= u64::MAX,
            decreases n - i,
        {
            let d = self.accounts[i];
            if d.free as u128 + d.held as u128 > u64::MAX as u128 {
                return false;
            }
            let mut j: usize = i + 1;
            while j < n
                invariant
                    i < j <= n,
                    n == self.accounts@.len(),
                    d == self.accounts@[i as int],
                    forall|y: int| i < y < j ==> self.accounts@[y].who != d.who,
                decreases n - j,
            {
                if self.accounts[j].who == d.who {
                    return false;
                }
                j += 1;
            }
            i += 1;
        }
        true
    }

    /// Sums every account's balances, free and held, saturating at the
    /// largest representable amount.
    pub fn total_balance(&self) -> (r: u64)
        ensures
            r as int == issuance_sum(self.accounts@),
    {
        let n = self.accounts.len();
        let mut acc: u64 = 0;
        let mut i: usize = 0;
        while i < n
            invariant
                i <= n,
                n == self.accounts@.len(),
                acc as int == issuance_sum(self.accounts@.take(i as int)),
            decreases n - i,
        {
            let d = self.accounts[i];
            acc = crate::types::sat_add64(acc, crate::types::sat_add64(d.free, d.held));
            proof {
                assert(self.accounts@.take(i + 1).drop_last() =~= self.accounts@.take(i as int));
                assert(self.accounts@.take(i + 1).last() == self.accounts@[i as int]);
            }
            i += 1;
        }
        proof {
            assert(self.accounts@.take(n as int) =~= self.accounts@);
        }
        acc
    }

    /// Moves `amount` of `who`'s balance from free to held; fails exactly
    /// when the free balance is short, changing nothing.
    pub fn reserve(&mut self, who: u64, amount: u64) -> (ok: bool)
        requires
            old(self).wf(),
        ensures
            final(self).wf(),
            ok <==> old(self).can_reserve(who, amount),
            ok ==> final(self).view() == map_reserve(old(self).view(), who, amount),
            ok ==> final(self).held_total() == old(self).held_total() + amount,
            !ok ==> *final(self) == *old(self),
    {
        proof {
            lemma_acct_at_index(self.accounts@, who);
        }
        match self.index_of(who) {
            Some(i) => {
                proof {
                    lemma_acct_at_value(self.accounts@, i as int);
                }
                let d = self.accounts[i];
                if d.free < amount {
                    return false;
                }
                let nd = AccountData { who, free: d.free - amount, held: d.held + amount };
                proof {
                    lemma_acct_at_update(self.accounts@, i as int, nd);
                }
                self.accounts.set(i, nd);
                proof {
                    assert(self.view() =~= map_reserve(old(self).view(), who, amount));
                }
                true
            },
            None => {
                if amount == 0 {
                    proof {
                        assert(self.view() =~= map_reserve(old(self).view(), who, amount));
                    }
                    true
                } else {
                    false
                }
            },
        }
    }

    /// Moves `amount` of `who`'s balance from held back to free. The caller
    /// must know the hold is large enough, which the engine's deposit
    /// accounting guarantees.
    pub fn unreserve(&mut self, who: u64, amount: u64)
        requires
            old(self).wf(),
            old(self).held_of(who) >= amount,
        ensures
            final(self).wf(),
            final(self).view() == map_unreserve(old(self).view(), who, amount),
            final(self).held_total() == old(self).held_total() - amount,
    {
        proof {
            lemma_acct_at_index(self.accounts@, who);
        }
        match self.index_of(who) {
            Some(i) => {
                proof {
                    lemma_acct_at_value(self.accounts@, i as int);
                }
                let d = self.accounts[i];
                let nd = AccountData { who, free: d.free + amount, held: d.held - amount };
                proof {
                    lemma_acct_at_update(self.accounts@, i as int, nd);
                }
                self.accounts.set(i, nd);
                proof {
                    assert(self.view() =~= map_unreserve(old(self).view(), who, amount));
                }
            },
            None => {
                proof {
                    assert(self.view() =~= map_unreserve(old(self).view(), who, amount));
                }
            },
        }
    }

    /// Pays `amount` of free balance from `from` to `to`; fails exactly when
    /// the payer is short or the payee would overflow, changing nothing.
    pub fn pay(&mut self, from: u64, to: u64, amount: u64) -> (ok: bool)
        requires
            old(self).wf(),
        ensures
            final(self).wf(),
            ok <==> old(self).can_pay(from, to, amount),
            ok ==> final(self).view() == map_pay(old(self).view(), from, to, amount),
            ok ==> final(self).held_total() == old(self).held_total(),
            !ok ==> *final(self) == *old(self),
    {
        proof {
            lemma_acct_at_index(self.accounts@, from);
        }
        let free_from = self.free_balance(from);
        if free_from < amount {
            return false;
        }
        if from == to {
            proof {
                assert(self.view() =~= map_pay(old(self).view(), from, to, amount));
            }
            return true;
        }
        let free_to = self.free_balance(to);
        let held_to = self.held_balance(to);
        if free_to as u128 + held_to as u128 + amount as u128 > u64::MAX as u128 {
            return false;
        }
        // Withdraw from the payer first.
        match self.index_of(from) {
            Some(i) => {
                proof {
                    lemma_acct_at_value(self.accounts@, i as int);
                }
                let d = self.accounts[i];
                let nd = AccountData { who: from, free: d.free - amount, held: d.held };
                proof {
                    lemma_acct_at_update(self.accounts@, i as int, nd);
                }
                self.accounts.set(i, nd);
            },
            None => {
                // The payer holds nothing, so the amount is zero and there
                // is nothing to withdraw.
                assert(amount == 0);
            },
        }
        let ghost mid = self.view();
        proof {
            assert(mid =~= old(self).view().insert(
                from,
                (old(self).view()[from].0 - amount, old(self).view()[from].1),
            ));
        }
        // Then deposit with the payee.
        proof {
            lemma_acct_at_index(self.accounts@, to);
        }
        match self.index_of(to) {
            Some(j) => {
                proof {
                    lemma_acct_at_value(self.accounts@, j as int);
                }
                let d = self.accounts[j];
                let nd = AccountData { who: to, free: d.free + amount, held: d.held };
                proof {
                    lemma_acct_at_update(self.accounts@, j as int, nd);
                }
                self.accounts.set(j, nd);
            },
            None => {
                let nd = AccountData { who: to, free: amount, held: 0 };
                proof {
                    lemma_acct_at_push(self.accounts@, nd);
                }
                self.accounts.push(nd);
                proof {
                    assert(distinct_accounts(self.accounts@)) by {
                        assert(forall|x: int|
                            0 <= x < self.accounts@.len() - 1 ==> #[trigger] self.accounts@[x]
                                == self.accounts@.drop_last()[x]);
                    }
                }
            },
        }
        proof {
            assert(self.view() =~= map_pay(old(self).view(), from, to, amount));
        }
        true
    }

    /// Re-attributes `amount` of held balance from `from` to `to`; fails
    /// exactly when the receiver would overflow, changing nothing. The
    /// caller must know the hold on `from` is large enough.
    pub fn move_held(&mut self, from: u64, to: u64, amount: u64) -> (ok: bool)
        requires
            old(self).wf(),
            old(self).held_of(from) >= amount,
        ensures
            final(self).wf(),
            ok <==> old(self).can_receive(from, to, amount),
            ok ==> final(self).view() == map_move_held(old(self).view(), from, to, amount),
            ok ==> final(self).held_total() == old(self).held_total(),
            !ok ==> *final(self) == *old(self),
    {
        if from == to {
            proof {
                assert(self.view() =~= map_move_held(old(self).view(), from, to, amount));
            }
            return true;
        }
        let free_to = self.free_balance(to);
        let held_to = self.held_balance(to);
        if free_to as u128 + held_to as u128 + amount as u128 > u64::MAX as u128 {
            return false;
        }
        proof {
            lemma_acct_at_index(self.accounts@, from);
        }
        match self.index_of(from) {
            Some(i) => {
                proof {
                    lemma_acct_at_value(self.accounts@, i as int);
                }
                let d = self.accounts[i];
                let nd = AccountData { who: from, free: d.free, held: d.held - amount };
                proof {
                    lemma_acct_at_update(self.accounts@, i as int, nd);
                }
                self.accounts.set(i, nd);
            },
            None => {
                assert(amount == 0);
            },
        }
        let ghost mid = self.view();
        proof {
            assert(mid =~= old(self).view().insert(
                from,
                (old(self).view()[from].0, old(self).view()[from].1 - amount),
            ));
        }
        proof {
            lemma_acct_at_index(self.accounts@, to);
        }
        match self.index_of(to) {
            Some(j) => {
                proof {
                    lemma_acct_at_value(self.accounts@, j as int);
                }
                let d = self.accounts[j];
                let nd = AccountData { who: to, free: d.free, held: d.held + amount };
                proof {
                    lemma_acct_at_update(self.accounts@, j as int, nd);
                }
                self.accounts.set(j, nd);
            },
            None => {
                let nd = AccountData { who: to, free: 0, held: amount };
                proof {
                    lemma_acct_at_push(self.accounts@, nd);
                }
                self.accounts.push(nd);
                proof {
                    assert(distinct_accounts(self.accounts@)) by {
                        assert(forall|x: int|
                            0 <= x < self.accounts@.len() - 1 ==> #[trigger] self.accounts@[x]
                                == self.accounts@.drop_last()[x]);
                    }
                }
            },
        }
        proof {
            assert(self.view() =~= map_move_held(old(self).view(), from, to, amount));
        }
        true
    }
}

/// With distinct accounts, looking up the account of the record at `i`
/// finds that record.
pub proof fn lemma_acct_at_value(s: Seq<AccountData>, i: int)
    requires
        distinct_accounts(s),
        0 <= i < s.len(),
    ensures
        acct_at(s, s[i].who) == Some(s[i]),
    decreases s.len(),
{
    if i == s.len() - 1 {
        assert(s.last() == s[i]);
    } else {
        assert(distinct_accounts(s.drop_last())) by {
            assert(forall|x: int|
                0 <= x < s.drop_last().len() ==> #[trigger] s.drop_last()[x] == s[x]);
        }
        assert(s.drop_last()[i] == s[i]);
        lemma_acct_at_value(s.drop_last(), i);
        assert(s.last().who != s[i].who);
    }
}

} // verus!
