//! The limit on concurrent requests to the exchange.
use vstd::prelude::*;
use crate::number::{decimal_text, lemma_parse_decimal_text, parse_unsigned, parse_unsigned_text};

verus! {

/// Concurrent requests allowed when nothing else is configured.
pub const DEFAULT_CONCURRENCY: usize = 16;

/// The concurrency limit set by a configuration value: the value read as a
/// positive integer; the default when it is absent, unreadable or zero.
pub open spec fn concurrency_of(setting: Option<Seq<char>>) -> nat {
    match setting {
        Some(s) => match parse_unsigned(s, usize::MAX as nat) {
            Some(n) => if n >= 1 {
                n
            } else {
                DEFAULT_CONCURRENCY as nat
            },
            None => DEFAULT_CONCURRENCY as nat,
        },
        None => DEFAULT_CONCURRENCY as nat,
    }
}

/// The concurrency limit set by a configuration value.
pub fn concurrency_limit(setting: Option<&str>) -> (n: usize)
    ensures
        n == concurrency_of(match setting {
            Some(s) => Some(s@),
            None => None,
        }),
        n >= 1,
{
    match setting {
        Some(s) => match parse_unsigned_text(s, usize::MAX as u64) {
            Some(n) => if n >= 1 {
                n as usize
            } else {
                DEFAULT_CONCURRENCY
            },
            None => DEFAULT_CONCURRENCY,
        },
        None => DEFAULT_CONCURRENCY,
    }
}

/// A counting semaphore: a fixed number of permits, each held by at most one
/// request at a time.
pub struct Semaphore {
    available: usize,
    capacity: usize,
}

impl Semaphore {
    #[verifier::type_invariant]
    spec fn permits_within_capacity(self) -> bool {
        self.available <= self.capacity
    }

    /// Permits not held by anyone.
    pub closed spec fn available(self) -> nat {
        self.available as nat
    }

    /// Permits in all.
    pub closed spec fn capacity(self) -> nat {
        self.capacity as nat
    }

    /// A semaphore of `n` permits, none of them held.
    pub fn new(n: usize) -> (s: Self)
        ensures
            s.available() == n,
            s.capacity() == n,
            s.available() <= s.capacity(),
    {
        Semaphore { available: n, capacity: n }
    }

    /// Takes a permit when one is free and tells whether it did; with none free,
    /// nothing changes and the caller waits for a release.
    pub fn acquire(&mut self) -> (taken: bool)
        ensures
            taken == (old(self).available() > 0),
            final(self).capacity() == old(self).capacity(),
            final(self).available() == if taken {
                old(self).available() - 1
            } else {
                old(self).available() as int
            },
            final(self).available() <= final(self).capacity(),
    {
        proof {
            use_type_invariant(&*self);
        }
        if self.available > 0 {
            self.available = self.available - 1;
            true
        } else {
            false
        }
    }

    /// Gives back a permit that was taken.
    pub fn release(&mut self)
        requires
            old(self).available() < old(self).capacity(),
        ensures
            final(self).capacity() == old(self).capacity(),
            final(self).available() == old(self).available() + 1,
            final(self).available() <= final(self).capacity(),
    {
        proof {
            use_type_invariant(&*self);
        }
        self.available = self.available + 1;
    }

    /// Whether a permit is held by someone (so that one can be given back).
    pub fn has_holders(&self) -> (r: bool)
        ensures
            r == (self.available() < self.capacity()),
            self.available() <= self.capacity(),
    {
        proof {
            use_type_invariant(self);
        }
        self.available < self.capacity
    }

    /// Whether a permit is free.
    pub fn has_free(&self) -> (r: bool)
        ensures
            r == (self.available() > 0),
    {
        self.available > 0
    }
}

/// Taking a permit and giving it back leaves the semaphore as it was.
pub proof fn lemma_acquire_release_restores(before: Semaphore, taken: Semaphore, after: Semaphore)
    requires
        before.available() > 0,
        taken.capacity() == before.capacity(),
        taken.available() == before.available() - 1,
        after.capacity() == taken.capacity(),
        after.available() == taken.available() + 1,
    ensures
        after.available() == before.available(),
        after.capacity() == before.capacity(),
{
}

/// Concurrency-setting law: a setting that reads as an integer `n` of 1 or
/// more sets the limit to `n`, whatever `n` is (1 included); the default 16
/// stands only for no setting, an unreadable one, or 0. So the decimal text of
/// any `n` from 1 up sets exactly `n`, and the text `0` sets 16.
pub proof fn lemma_concurrency_setting(s: Seq<char>, n: nat)
    requires
        n <= usize::MAX,
    ensures
        parse_unsigned(s, usize::MAX as nat) == Some(n) && n >= 1 ==> concurrency_of(Some(s)) == n,
        n >= 1 ==> concurrency_of(Some(decimal_text(n))) == n,
        concurrency_of(Some(decimal_text(0))) == 16,
        concurrency_of(None) == 16,
        concurrency_of(Some(s)) >= 1,
{
    lemma_parse_decimal_text(n, usize::MAX as nat);
    lemma_parse_decimal_text(0, usize::MAX as nat);
}

} // verus!
