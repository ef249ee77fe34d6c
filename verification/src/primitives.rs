use vstd::prelude::*;

verus! {

/// 2^128, the weight of the upper half of a 256-bit number.
pub open spec fn two_pow_128() -> nat {
    0x1_0000_0000_0000_0000_0000_0000_0000_0000nat
}

/// The number that an upper and a lower 128-bit half stand for.
pub open spec fn number_of(hi: u128, lo: u128) -> nat {
    hi as nat * two_pow_128() + lo as nat
}

/// Comparing two 256-bit numbers is comparing their halves lexicographically.
pub proof fn lemma_number_order(h1: u128, l1: u128, h2: u128, l2: u128)
    ensures
        number_of(h1, l1) < number_of(h2, l2) <==> (h1 < h2 || (h1 == h2 && l1 < l2)),
        number_of(h1, l1) == number_of(h2, l2) <==> (h1 == h2 && l1 == l2),
{
    assert(number_of(h1, l1) < number_of(h2, l2) <==> (h1 < h2 || (h1 == h2 && l1 < l2)))
        by (nonlinear_arith)
        requires
            l1 < two_pow_128(),
            l2 < two_pow_128(),
    ;
    assert(number_of(h1, l1) == number_of(h2, l2) <==> (h1 == h2 && l1 == l2))
        by (nonlinear_arith)
        requires
            l1 < two_pow_128(),
            l2 < two_pow_128(),
    ;
}

/// The successor of a 256-bit number given by its halves.
pub proof fn lemma_number_succ(hi: u128, lo: u128)
    ensures
        lo < u128::MAX ==> number_of(hi, (lo + 1) as u128) == number_of(hi, lo) + 1,
        lo == u128::MAX && hi < u128::MAX ==> number_of((hi + 1) as u128, 0) == number_of(hi, lo)
            + 1,
        number_of(hi, lo) <= number_of(u128::MAX, u128::MAX),
        number_of(u128::MAX, u128::MAX) == two_pow_128() * two_pow_128() - 1,
{
    assert(lo == u128::MAX && hi < u128::MAX ==> number_of((hi + 1) as u128, 0) == number_of(
        hi,
        lo,
    ) + 1) by (nonlinear_arith);
    assert(number_of(hi, lo) <= number_of(u128::MAX, u128::MAX)) by (nonlinear_arith);
    assert(number_of(u128::MAX, u128::MAX) == two_pow_128() * two_pow_128() - 1)
        by (nonlinear_arith);
}

/// An account: the 256-bit public key of its owner.
#[derive(PartialEq, Eq, Structural, Clone, Copy, Debug, Hash, PartialOrd, Ord)]
pub struct Account {
    pub hi: u128,
    pub lo: u128,
}

/// Public keys and accounts share one representation.
pub type PublicKey = Account;

impl Account {
    /// The account's number in 0 .. 2^256.
    pub open spec fn number(&self) -> nat {
        number_of(self.hi, self.lo)
    }

    pub fn from_halves(hi: u128, lo: u128) -> (r: Account)
        ensures
            r.hi == hi,
            r.lo == lo,
    {
        Account { hi, lo }
    }

    pub fn from_u64(value: u64) -> (r: Account)
        ensures
            r.number() == value,
            r.hi == 0,
            r.lo == value,
    {
        Account { hi: 0, lo: value as u128 }
    }

    pub fn zero() -> (r: Account)
        ensures
            r.number() == 0,
            r.hi == 0 && r.lo == 0,
    {
        Account { hi: 0, lo: 0 }
    }

    /// The largest account number, 2^256 - 1.
    pub fn max() -> (r: Account)
        ensures
            r.hi == u128::MAX && r.lo == u128::MAX,
            r.number() == two_pow_128() * two_pow_128() - 1,
    {
        proof {
            lemma_number_succ(0, 0);
        }
        Account { hi: u128::MAX, lo: u128::MAX }
    }

    pub fn is_zero(&self) -> (r: bool)
        ensures
            r == (self.number() == 0),
    {
        proof {
            lemma_number_order(self.hi, self.lo, 0, 0);
        }
        self.hi == 0 && self.lo == 0
    }

    /// `self < other` as numbers.
    pub fn less_than(&self, other: &Account) -> (r: bool)
        ensures
            r == (self.number() < other.number()),
    {
        proof {
            lemma_number_order(self.hi, self.lo, other.hi, other.lo);
        }
        self.hi < other.hi || (self.hi == other.hi && self.lo < other.lo)
    }

    /// `self <= other` as numbers.
    pub fn less_or_equal(&self, other: &Account) -> (r: bool)
        ensures
            r == (self.number() <= other.number()),
    {
        proof {
            lemma_number_order(self.hi, self.lo, other.hi, other.lo);
        }
        self.hi < other.hi || (self.hi == other.hi && self.lo <= other.lo)
    }

    /// The next account number; `None` for the largest one.
    pub fn inc(&self) -> (r: Option<Account>)
        ensures
            self.number() < two_pow_128() * two_pow_128() - 1 <==> r is Some,
            r matches Some(n) ==> n.number() == self.number() + 1,
    {
        proof {
            lemma_number_succ(self.hi, self.lo);
            lemma_number_order(self.hi, self.lo, u128::MAX, u128::MAX);
        }
        if self.lo < u128::MAX {
            Some(Account { hi: self.hi, lo: self.lo + 1 })
        } else if self.hi < u128::MAX {
            Some(Account { hi: self.hi + 1, lo: 0 })
        } else {
            None
        }
    }

    /// The block hash with the same 256 bits.
    pub fn as_hash(&self) -> (r: BlockHash)
        ensures
            r.hi == self.hi && r.lo == self.lo,
    {
        BlockHash { hi: self.hi, lo: self.lo }
    }
}

/// A 256-bit block hash.
#[derive(PartialEq, Eq, Structural, Clone, Copy, Debug, Hash, PartialOrd, Ord)]
pub struct BlockHash {
    pub hi: u128,
    pub lo: u128,
}

/// The link field of a state block and the root of a block share the hash representation.
pub type Link = BlockHash;

/// The root of a block: its previous block or, for the first block, its account.
pub type Root = BlockHash;

impl BlockHash {
    /// The hash's number in 0 .. 2^256.
    pub open spec fn number(&self) -> nat {
        number_of(self.hi, self.lo)
    }

    pub fn from_halves(hi: u128, lo: u128) -> (r: BlockHash)
        ensures
            r.hi == hi,
            r.lo == lo,
    {
        BlockHash { hi, lo }
    }

    pub fn from_u64(value: u64) -> (r: BlockHash)
        ensures
            r.number() == value,
            r.hi == 0,
            r.lo == value,
    {
        BlockHash { hi: 0, lo: value as u128 }
    }

    pub fn zero() -> (r: BlockHash)
        ensures
            r.number() == 0,
            r.hi == 0 && r.lo == 0,
    {
        BlockHash { hi: 0, lo: 0 }
    }

    /// The largest hash, 2^256 - 1.
    pub fn max() -> (r: BlockHash)
        ensures
            r.hi == u128::MAX && r.lo == u128::MAX,
            r.number() == two_pow_128() * two_pow_128() - 1,
    {
        proof {
            lemma_number_succ(0, 0);
        }
        BlockHash { hi: u128::MAX, lo: u128::MAX }
    }

    pub fn is_zero(&self) -> (r: bool)
        ensures
            r == (self.number() == 0),
    {
        proof {
            lemma_number_order(self.hi, self.lo, 0, 0);
        }
        self.hi == 0 && self.lo == 0
    }

    /// `self < other` as numbers.
    pub fn less_than(&self, other: &BlockHash) -> (r: bool)
        ensures
            r == (self.number() < other.number()),
    {
        proof {
            lemma_number_order(self.hi, self.lo, other.hi, other.lo);
        }
        self.hi < other.hi || (self.hi == other.hi && self.lo < other.lo)
    }

    /// The next hash value; `None` for the largest one.
    pub fn inc(&self) -> (r: Option<BlockHash>)
        ensures
            self.number() < two_pow_128() * two_pow_128() - 1 <==> r is Some,
            r matches Some(n) ==> n.number() == self.number() + 1,
    {
        proof {
            lemma_number_succ(self.hi, self.lo);
            lemma_number_order(self.hi, self.lo, u128::MAX, u128::MAX);
        }
        if self.lo < u128::MAX {
            Some(BlockHash { hi: self.hi, lo: self.lo + 1 })
        } else if self.hi < u128::MAX {
            Some(BlockHash { hi: self.hi + 1, lo: 0 })
        } else {
            None
        }
    }

    /// The account with the same 256 bits.
    pub fn as_account(&self) -> (r: Account)
        ensures
            r.hi == self.hi && r.lo == self.lo,
    {
        Account { hi: self.hi, lo: self.lo }
    }
}

/// An amount of raw units.
#[derive(PartialEq, Eq, Structural, Clone, Copy, Debug, Hash, PartialOrd, Ord)]
pub struct Amount {
    pub raw: u128,
}

/// One nano is 10^30 raw.
pub open spec fn raw_per_nano() -> nat {
    1_000_000_000_000_000_000_000_000_000_000nat
}

impl Amount {
    pub fn raw(raw: u128) -> (r: Amount)
        ensures
            r.raw == raw,
    {
        Amount { raw }
    }

    pub fn zero() -> (r: Amount)
        ensures
            r.raw == 0,
    {
        Amount { raw: 0 }
    }

    /// The largest amount, 2^128 - 1 raw.
    pub fn max() -> (r: Amount)
        ensures
            r.raw == u128::MAX,
    {
        Amount { raw: u128::MAX }
    }

    /// `nano` whole nano, in raw.
    pub fn nano(nano: u128) -> (r: Amount)
        requires
            nano * raw_per_nano() <= u128::MAX,
        ensures
            r.raw == nano * raw_per_nano(),
    {
        Amount { raw: nano * 1_000_000_000_000_000_000_000_000_000_000u128 }
    }

    pub fn is_zero(&self) -> (r: bool)
        ensures
            r == (self.raw == 0),
    {
        self.raw == 0
    }
}

/// Seconds since the UNIX epoch.
#[derive(PartialEq, Eq, Structural, Clone, Copy, Debug, Hash, PartialOrd, Ord)]
pub struct UnixTimestamp {
    pub secs: u64,
}

impl UnixTimestamp {
    pub fn new(secs: u64) -> (r: UnixTimestamp)
        ensures
            r.secs == secs,
    {
        UnixTimestamp { secs }
    }

    /// The timestamp `secs` seconds later.
    pub fn add(&self, secs: u64) -> (r: UnixTimestamp)
        requires
            self.secs + secs <= u64::MAX,
        ensures
            r.secs == self.secs + secs,
    {
        UnixTimestamp { secs: self.secs + secs }
    }
}

/// A span of time with millisecond resolution.
#[derive(PartialEq, Eq, Structural, Clone, Copy, Debug, Hash, PartialOrd, Ord)]
pub struct Duration {
    pub millis: u128,
}

impl Duration {
    pub fn from_millis(millis: u64) -> (r: Duration)
        ensures
            r.millis == millis,
    {
        Duration { millis: millis as u128 }
    }

    pub fn from_secs(secs: u64) -> (r: Duration)
        ensures
            r.millis == secs * 1000,
    {
        Duration { millis: secs as u128 * 1000 }
    }

    pub fn zero() -> (r: Duration)
        ensures
            r.millis == 0,
    {
        Duration { millis: 0 }
    }

    /// The whole seconds of this span.
    pub fn as_secs(&self) -> (r: u128)
        ensures
            r == self.millis / 1000,
    {
        self.millis / 1000
    }

    /// The milliseconds of this span.
    pub fn as_millis(&self) -> (r: u128)
        ensures
            r == self.millis,
    {
        self.millis
    }
}

/// A point on a steady clock, in milliseconds since the clock's origin.
#[derive(PartialEq, Eq, Structural, Clone, Copy, Debug, Hash, PartialOrd, Ord)]
pub struct Timestamp {
    pub millis: u64,
}

impl Timestamp {
    pub fn new(millis: u64) -> (r: Timestamp)
        ensures
            r.millis == millis,
    {
        Timestamp { millis }
    }

    /// The clock's origin, the default timestamp.
    pub fn zero() -> (r: Timestamp)
        ensures
            r.millis == 0,
    {
        Timestamp { millis: 0 }
    }

    /// `duration` earlier; the origin when that would lie before it.
    pub open spec fn minus_spec(self, duration: Duration) -> Timestamp {
        Timestamp {
            millis: if self.millis >= duration.millis {
                (self.millis - duration.millis) as u64
            } else {
                0
            },
        }
    }

    /// `duration` earlier; the origin when that would lie before it.
    pub fn minus(&self, duration: Duration) -> (r: Timestamp)
        ensures
            r == self.minus_spec(duration),
            r.millis == if self.millis >= duration.millis {
                self.millis - duration.millis
            } else {
                0
            },
    {
        if self.millis as u128 >= duration.millis {
            Timestamp { millis: (self.millis as u128 - duration.millis) as u64 }
        } else {
            Timestamp { millis: 0 }
        }
    }

    /// `duration` later, `requires` that it stays representable.
    pub fn plus(&self, duration: Duration) -> (r: Timestamp)
        requires
            self.millis + duration.millis <= u64::MAX,
        ensures
            r.millis == self.millis + duration.millis,
    {
        Timestamp { millis: (self.millis as u128 + duration.millis) as u64 }
    }

    pub fn less_than(&self, other: &Timestamp) -> (r: bool)
        ensures
            r == (self.millis < other.millis),
    {
        self.millis < other.millis
    }
}

} // verus!
