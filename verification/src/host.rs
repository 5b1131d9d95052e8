use vstd::prelude::*;
use vstd::arithmetic::power2::{pow2, lemma_pow2_strictly_increases, lemma_pow2_unfold, lemma2_to64};
use crate::endpoint::Endpoint;

verus! {

/// The cooldown after the first error, in milliseconds.
pub const BASE_COOLDOWN_MS: u64 = 500;

/// The largest factor by which the base cooldown is multiplied.
pub const BACKOFF_CAP: u64 = 6;

/// The factor applied to the base cooldown for a host that already has
/// `errors` consecutive errors: two to the power `errors`, capped.
pub open spec fn backoff_factor(errors: nat) -> nat {
    if pow2(errors) < BACKOFF_CAP as nat {
        pow2(errors)
    } else {
        BACKOFF_CAP as nat
    }
}

/// The instant until which a host cools down when an error is reported at
/// `now` and `errors` errors came before it. It stops at the largest instant
/// the clock can show.
pub open spec fn cooldown_deadline(now: u64, errors: nat) -> u64 {
    let until = now as nat + BASE_COOLDOWN_MS as nat * backoff_factor(errors);
    if until <= u64::MAX as nat {
        until as u64
    } else {
        u64::MAX
    }
}

/// The count of consecutive errors after one more error.
pub open spec fn errors_after(errors: u32) -> u32 {
    if errors < u32::MAX {
        (errors + 1) as u32
    } else {
        u32::MAX
    }
}

/// One upstream host with its health.
#[derive(Clone, Copy, Debug, PartialEq, Eq, Structural)]
pub struct Host {
    pub endpoint: Endpoint,
    /// The host cools down while this instant lies after the current one.
    pub cooldown_until: u64,
    pub consecutive_errors: u32,
}

impl Host {
    /// A healthy host with no error on record.
    pub fn new(endpoint: Endpoint) -> (h: Host)
        ensures
            h == (Host { endpoint, cooldown_until: 0, consecutive_errors: 0 }),
    {
        Host { endpoint, cooldown_until: 0, consecutive_errors: 0 }
    }

    /// Whether the host is cooling down at `now`.
    pub open spec fn cooling(self, now: u64) -> bool {
        self.cooldown_until > now
    }

    /// Whether the host is cooling down at `now`.
    pub fn is_cooling(&self, now: u64) -> (b: bool)
        ensures
            b == self.cooling(now),
    {
        self.cooldown_until > now
    }

    /// The host after an error reported at `now`.
    pub open spec fn errored(self, now: u64) -> Host {
        Host {
            endpoint: self.endpoint,
            cooldown_until: cooldown_deadline(now, self.consecutive_errors as nat),
            consecutive_errors: errors_after(self.consecutive_errors),
        }
    }

    /// The host after a success: healthy, with no error on record.
    pub open spec fn recovered(self) -> Host {
        Host { endpoint: self.endpoint, cooldown_until: 0, consecutive_errors: 0 }
    }

    /// Records an error at `now`: the host cools down for the base cooldown
    /// times the backoff factor of the errors before this one.
    pub fn record_error(&mut self, now: u64)
        ensures
            *final(self) == old(self).errored(now),
    {
        let factor = backoff_factor_of(self.consecutive_errors);
        let span: u64 = BASE_COOLDOWN_MS * factor;
        self.cooldown_until = now.saturating_add(span);
        self.consecutive_errors = self.consecutive_errors.saturating_add(1);
    }

    /// Records a success.
    pub fn record_success(&mut self)
        ensures
            *final(self) == old(self).recovered(),
    {
        self.cooldown_until = 0;
        self.consecutive_errors = 0;
    }
}

/// Computes the backoff factor by doubling until the cap is reached.
pub fn backoff_factor_of(errors: u32) -> (f: u64)
    ensures
        f == backoff_factor(errors as nat),
        1 <= f <= BACKOFF_CAP,
{
    let mut f: u64 = 1;
    let mut i: u32 = 0;
    proof {
        lemma2_to64();
    }
    while i < errors && f < BACKOFF_CAP
        invariant
            i <= errors,
            f == pow2(i as nat),
            1 <= f < 2 * BACKOFF_CAP,
        decreases errors - i,
    {
        proof {
            lemma_pow2_unfold((i + 1) as nat);
        }
        f = f * 2;
        i = i + 1;
    }
    if f >= BACKOFF_CAP {
        proof {
            if i < errors {
                lemma_pow2_strictly_increases(i as nat, errors as nat);
            }
        }
        BACKOFF_CAP
    } else {
        f
    }
}

} // verus!
