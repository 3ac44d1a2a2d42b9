//! Core data types of the registration engine: the configuration constants,
//! the stored records, the error taxonomy and the emitted notifications.
use vstd::prelude::*;

verus! {

/// Saturating addition on the mathematical values of two `u64` quantities.
pub open spec fn sat_add_u64(a: int, b: int) -> int {
    if a + b > u64::MAX {
        u64::MAX as int
    } else {
        a + b
    }
}

/// Saturating multiplication on the mathematical values of two `u64`
/// quantities.
pub open spec fn sat_mul_u64(a: int, b: int) -> int {
    if a * b > u64::MAX {
        u64::MAX as int
    } else {
        a * b
    }
}

/// Adds two amounts, clamping at the largest representable amount. Fee and
/// expiry arithmetic never wraps silently: it saturates, so an overflowing
/// renewal simply pins the fee or the expiry at the maximum.
pub fn sat_add64(a: u64, b: u64) -> (r: u64)
    ensures
        r as int == sat_add_u64(a as int, b as int),
{
    if b > u64::MAX - a {
        u64::MAX
    } else {
        a + b
    }
}

/// Multiplies two amounts, clamping at the largest representable amount.
pub fn sat_mul64(a: u64, b: u64) -> (r: u64)
    ensures
        r as int == sat_mul_u64(a as int, b as int),
{
    proof {
        assert((a as int) * (b as int) <= (u64::MAX as int) * (u64::MAX as int))
            by (nonlinear_arith)
            requires
                a as int <= u64::MAX as int,
                b as int <= u64::MAX as int,
                0 <= a as int,
                0 <= b as int,
        ;
    }
    let wide: u128 = (a as u128) * (b as u128);
    if wide > u64::MAX as u128 {
        u64::MAX
    } else {
        wide as u64
    }
}

/// The constants that parameterise the engine: deposits, the commitment age
/// window, the length-tiered fee schedule and the registration period.
#[derive(Clone, Copy, PartialEq, Eq, Debug)]
pub struct Config {
    /// Deposit reserved from the depositor while a commitment is pending,
    /// returned when the commitment is consumed or removed.
    pub commitment_deposit: u64,
    /// Minimum age of a commitment, in logical time units, before it may be
    /// revealed.
    pub min_commitment_age: u64,
    /// Age after which a commitment is stale and anyone may remove it.
    pub max_commitment_age: u64,
    /// Deposit reserved against each subnode registration.
    pub subnode_deposit: u64,
    /// Flat fee for registering a three-character name.
    pub tier_three_letters: u64,
    /// Flat fee for registering a four-character name.
    pub tier_four_letters: u64,
    /// Flat fee for registering a name of five or more characters.
    pub tier_default: u64,
    /// Length of one registration period in logical time units.
    pub blocks_per_registration_period: u64,
    /// Fee charged per registration period, for registration and renewal.
    pub fee_per_registration_period: u64,
    /// Account that receives registration and renewal fees.
    pub fee_beneficiary: u64,
}

impl Config {
    /// The flat, length-tiered part of the registration fee. Only lengths of
    /// at least three are ever charged; shorter names are rejected before a
    /// fee is computed.
    pub open spec fn spec_length_fee(self, len: nat) -> int {
        if len == 3 {
            self.tier_three_letters as int
        } else if len == 4 {
            self.tier_four_letters as int
        } else {
            self.tier_default as int
        }
    }

    /// The fee for a fresh registration: the length tier plus the per-period
    /// fee for the requested duration, saturating instead of wrapping.
    pub open spec fn spec_registration_fee(self, len: nat, periods: u64) -> int {
        sat_add_u64(
            self.spec_length_fee(len),
            sat_mul_u64(periods as int, self.fee_per_registration_period as int),
        )
    }

    /// The fee for extending an existing registration: only the per-period
    /// fee, with no length tier.
    pub open spec fn spec_renewal_fee(self, periods: u64) -> int {
        sat_mul_u64(periods as int, self.fee_per_registration_period as int)
    }

    /// The expiry reached by adding `periods` registration periods to the
    /// logical time `from`, saturating instead of wrapping.
    pub open spec fn spec_expiry_after(self, from: u64, periods: u64) -> int {
        sat_add_u64(
            from as int,
            sat_mul_u64(periods as int, self.blocks_per_registration_period as int),
        )
    }

    /// Computes the fee for a fresh registration of a name with `name_len`
    /// characters held for `periods` periods.
    pub fn registration_fee(&self, name_len: usize, periods: u64) -> (r: u64)
        ensures
            r as int == self.spec_registration_fee(name_len as nat, periods),
    {
        let tier: u64 = if name_len == 3 {
            self.tier_three_letters
        } else if name_len == 4 {
            self.tier_four_letters
        } else {
            self.tier_default
        };
        sat_add64(tier, sat_mul64(periods, self.fee_per_registration_period))
    }

    /// Computes the fee for renewing a registration for `periods` periods.
    pub fn renewal_fee(&self, periods: u64) -> (r: u64)
        ensures
            r as int == self.spec_renewal_fee(periods),
    {
        sat_mul64(periods, self.fee_per_registration_period)
    }

    /// Computes the expiry reached `periods` registration periods after
    /// `from`.
    pub fn expiry_after(&self, from: u64, periods: u64) -> (r: u64)
        ensures
            r as int == self.spec_expiry_after(from, periods),
    {
        sat_add64(from, sat_mul64(periods, self.blocks_per_registration_period))
    }
}

/// A pending, not yet revealed name registration. The name itself stays
/// hidden: the entry is keyed by the hash of the name and a secret.
#[derive(Clone, Copy, PartialEq, Eq, Debug)]
pub struct Commitment {
    /// Account that paid the commitment deposit and is refunded when the
    /// commitment is consumed or removed.
    pub depositor: u64,
    /// Account the eventual registration will belong to.
    pub owner: u64,
    /// Logical time at which the commitment was made.
    pub when: u64,
    /// Amount reserved from the depositor while the commitment is pending.
    pub deposit: u64,
}

/// A durable record that a name is owned: by whom, managed by whom, and
/// until when.
#[derive(Clone, Copy, PartialEq, Eq, Debug)]
pub struct Registration {
    /// Account that may transfer or deregister the name.
    pub owner: u64,
    /// Account that may update the resolver record; defaults to the owner.
    pub controller: u64,
    /// Logical time at which the registration lapses; `None` marks a
    /// permanent registration, which only privileged registration can create.
    pub expiry: Option<u64>,
    /// Amount reserved against this registration and refunded to the owner
    /// when the registration is removed; `None` when nothing is reserved.
    pub deposit: Option<u64>,
}

impl Registration {
    /// Whether the registration has lapsed at logical time `now`. A
    /// permanent registration never lapses.
    pub open spec fn is_expired_at(self, now: u64) -> bool {
        match self.expiry {
            Some(e) => e <= now,
            None => false,
        }
    }

    /// Whether `who` owns the registration.
    pub open spec fn is_owner(self, who: u64) -> bool {
        self.owner == who
    }

    /// Whether `who` may manage the registration's record: the owner or the
    /// delegated controller.
    pub open spec fn is_controller(self, who: u64) -> bool {
        self.owner == who || self.controller == who
    }

    /// The amount reserved against this registration, zero when none is.
    pub open spec fn deposit_amount(self) -> int {
        match self.deposit {
            Some(d) => d as int,
            None => 0,
        }
    }
}

/// Everything that can go wrong with an engine call. Each operation is
/// all-or-nothing: an error leaves every store untouched.
#[derive(Clone, Copy, PartialEq, Eq, Debug)]
pub enum Error {
    /// This commitment hash already exists in storage.
    AlreadyCommitted,
    /// It has not passed the minimum waiting period to reveal a commitment.
    TooEarlyToReveal,
    /// The commitment cannot yet be removed: it has not expired.
    CommitmentNotExpired,
    /// This commitment does not exist.
    CommitmentNotFound,
    /// A registration of this name already exists.
    RegistrationExists,
    /// This registration does not exist.
    RegistrationNotFound,
    /// The registration registrant does not exist.
    RegistrationRegistrantNotFound,
    /// The account is not the registration registrant.
    NotRegistrationRegistrant,
    /// The account is not the registration owner.
    NotRegistrationOwner,
    /// The account is not the registration registrant or the owner.
    NotRegistrationRegistrantOrOwner,
    /// This registration has expired.
    RegistrationExpired,
    /// This registration has not yet expired.
    RegistrationNotExpired,
    /// Cannot renew this registration: it has no expiry.
    RegistrationHasNoExpiry,
    /// Subnode label is too short.
    LabelTooShort,
    /// Address has already been set to this.
    AlreadySet,
    /// The ledger could not reserve or transfer the required amount.
    InsufficientFunds,
}

/// A notification emitted by the engine, consumed by external observers.
#[derive(Clone, PartialEq, Eq, Debug)]
pub enum Event {
    /// A new commitment has taken place.
    Committed { depositor: u64, owner: u64, hash: Vec<u8> },
    /// A new registration has been added.
    NameRegistered { name_hash: Vec<u8>, owner: u64 },
    /// A registration has been transferred to a new owner.
    NewOwner { from: u64, to: u64 },
    /// A registration has been renewed.
    NameRenewed { name_hash: Vec<u8>, expires: u64 },
    /// An address has been set for a name hash to resolve to.
    AddressSet { name_hash: Vec<u8>, address: u64 },
    /// An address was deregistered.
    AddressDeregistered { name_hash: Vec<u8> },
}

/// `post` is `pre` with exactly one notification appended.
pub open spec fn events_extended(pre: Seq<Event>, post: Seq<Event>) -> bool {
    &&& post.len() == pre.len() + 1
    &&& post.take(pre.len() as int) =~= pre
}

/// The notification that a commitment with these attributes was created.
pub open spec fn is_committed_event(e: Event, depositor: u64, owner: u64, hash: Seq<u8>) -> bool {
    match e {
        Event::Committed { depositor: d, owner: o, hash: h } => {
            d == depositor && o == owner && h@ == hash
        },
        _ => false,
    }
}

/// The notification that a name with this hash was registered to `owner`.
pub open spec fn is_registered_event(e: Event, name_hash: Seq<u8>, owner: u64) -> bool {
    match e {
        Event::NameRegistered { name_hash: h, owner: o } => h@ == name_hash && o == owner,
        _ => false,
    }
}

/// The notification that control moved from `from` to `to`.
pub open spec fn is_new_owner_event(e: Event, from: u64, to: u64) -> bool {
    match e {
        Event::NewOwner { from: f, to: t } => f == from && t == to,
        _ => false,
    }
}

/// The notification that a registration was renewed until `expires`.
pub open spec fn is_renewed_event(e: Event, name_hash: Seq<u8>, expires: u64) -> bool {
    match e {
        Event::NameRenewed { name_hash: h, expires: x } => h@ == name_hash && x == expires,
        _ => false,
    }
}

/// The notification that a resolver record was set.
pub open spec fn is_address_set_event(e: Event, name_hash: Seq<u8>, address: u64) -> bool {
    match e {
        Event::AddressSet { name_hash: h, address: a } => h@ == name_hash && a == address,
        _ => false,
    }
}

/// The notification that a registration was removed.
pub open spec fn is_deregistered_event(e: Event, name_hash: Seq<u8>) -> bool {
    match e {
        Event::AddressDeregistered { name_hash: h } => h@ == name_hash,
        _ => false,
    }
}

} // verus!
