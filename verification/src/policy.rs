//! Reconnect backoff policy: exponential delay growth capped at a maximum.

use vstd::prelude::*;
use vstd::arithmetic::power::{pow, lemma_pow_increases, lemma_pow_positive};
use vstd::arithmetic::mul::lemma_mul_inequality;

verus! {

/// Backoff policy for a connection's reconnect loop. The delay before
/// attempt `n` is `initial_delay_ms * backoff_multiplier^n`, capped at
/// `max_delay_ms`. The multiplier is an integer growth factor.
#[derive(Clone, Copy, Debug)]
pub struct ReconnectConfig {
    pub max_attempts: u32,
    pub initial_delay_ms: u64,
    pub max_delay_ms: u64,
    pub backoff_multiplier: u64,
}

impl ReconnectConfig {
    /// A policy is well formed when the growth factor is at least one,
    /// so that delays never shrink between attempts.
    pub open spec fn wf(self) -> bool {
        self.backoff_multiplier >= 1
    }

    /// The delay, in milliseconds, before reconnect attempt `attempt`.
    pub open spec fn spec_delay(self, attempt: nat) -> int {
        vstd::math::min(
            self.initial_delay_ms * pow(self.backoff_multiplier as int, attempt),
            self.max_delay_ms as int,
        )
    }

    pub fn default_config() -> (c: ReconnectConfig)
        ensures
            c.wf(),
            c.max_attempts == 10,
            c.initial_delay_ms == 1000,
            c.max_delay_ms == 30000,
            c.backoff_multiplier == 2,
    {
        ReconnectConfig {
            max_attempts: 10,
            initial_delay_ms: 1000,
            max_delay_ms: 30000,
            backoff_multiplier: 2,
        }
    }

    pub fn delay_for_attempt(&self, attempt: u32) -> (d: u64)
        requires
            self.wf(),
        ensures
            d == self.spec_delay(attempt as nat),
    {
        let m = self.backoff_multiplier;
        let mut d: u64 = if self.initial_delay_ms < self.max_delay_ms {
            self.initial_delay_ms
        } else {
            self.max_delay_ms
        };
        proof {
            vstd::arithmetic::power::lemma_pow0(self.backoff_multiplier as int);
        }
        let mut i: u32 = 0;
        while i < attempt
            invariant
                self.wf(),
                i <= attempt,
                m == self.backoff_multiplier,
                d == self.spec_delay(i as nat),
                d <= self.max_delay_ms,
            decreases attempt - i,
        {
            proof {
                self.lemma_delay_step(i as nat);
            }
            d = match d.checked_mul(m) {
                Some(p) => {
                    if p < self.max_delay_ms {
                        p
                    } else {
                        self.max_delay_ms
                    }
                },
                None => self.max_delay_ms,
            };
            i = i + 1;
        }
        d
    }

    /// One backoff step: capping after each multiplication agrees with
    /// capping the closed-form product once at the end.
    proof fn lemma_delay_step(self, i: nat)
        requires
            self.wf(),
        ensures
            self.spec_delay(i + 1) == vstd::math::min(
                self.spec_delay(i) * self.backoff_multiplier,
                self.max_delay_ms as int,
            ),
    {
        let m = self.backoff_multiplier as int;
        let init = self.initial_delay_ms as int;
        let cap = self.max_delay_ms as int;
        assert(pow(m, i + 1) == pow(m, i) * m) by {
            reveal(pow);
            vstd::arithmetic::power::lemma_pow_adds(m, i, 1);
            vstd::arithmetic::power::lemma_pow1(m);
        }
        lemma_pow_positive(m, i);
        assert(init * pow(m, i + 1) == (init * pow(m, i)) * m) by {
            vstd::arithmetic::mul::lemma_mul_is_associative(init, pow(m, i), m);
        }
        if init * pow(m, i) <= cap {
        } else {
            // the running delay is already at the cap; one more multiplication
            // by m >= 1 cannot bring the closed form back under it
            assert(init * pow(m, i) * 1 <= init * pow(m, i) * m) by {
                lemma_mul_inequality(1, m, init * pow(m, i));
                vstd::arithmetic::mul::lemma_mul_is_commutative(init * pow(m, i), m);
            }
            assert(cap * m >= cap * 1) by {
                lemma_mul_inequality(1, m, cap);
                vstd::arithmetic::mul::lemma_mul_is_commutative(cap, m);
            }
        }
    }

    /// The delay sequence is monotonically non-decreasing in the attempt
    /// number, until it reaches the cap and stays there.
    pub proof fn lemma_delay_monotonic(self, a1: nat, a2: nat)
        requires
            self.wf(),
            a1 <= a2,
        ensures
            self.spec_delay(a1) <= self.spec_delay(a2),
    {
        let m = self.backoff_multiplier as int;
        lemma_pow_increases(self.backoff_multiplier as nat, a1, a2);
        lemma_mul_inequality(pow(m, a1), pow(m, a2), self.initial_delay_ms as int);
        vstd::arithmetic::mul::lemma_mul_is_commutative(self.initial_delay_ms as int, pow(m, a1));
        vstd::arithmetic::mul::lemma_mul_is_commutative(self.initial_delay_ms as int, pow(m, a2));
    }
}

} // verus!
