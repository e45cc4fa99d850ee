//! Envelopes that decay linearly with time.
//!
//! An envelope is triggered with a strength and loses it evenly over its
//! length. What share of the strength is left after a given time is a
//! fraction of whole milliseconds and is decided here; the strength itself
//! is the caller's number.

use crate::clock::{clock_elapsed, clock_now, whole_millis};
use std::time::Instant;
use vstd::prelude::*;

verus! {

/// The share of its strength that an envelope of `length` milliseconds has
/// left `elapsed` milliseconds after its trigger: `1 - elapsed / length`,
/// and nothing once the length has passed.
pub open spec fn remaining(elapsed: nat, length: nat) -> real {
    if elapsed >= length {
        0real
    } else {
        ((length - elapsed) as real) / (length as real)
    }
}

/// The value of an envelope of strength `strength`.
pub open spec fn linear_value(strength: real, elapsed: nat, length: nat) -> real {
    strength * remaining(elapsed, length)
}

/// The share that is left lies between 0 and 1 and never grows with time.
pub proof fn lemma_remaining_decays(earlier: nat, later: nat, length: nat)
    requires
        earlier <= later,
    ensures
        0real <= remaining(later, length) <= remaining(earlier, length) <= 1real,
{
    if later < length {
        let l = length as int;
        let a = (length - earlier) as int;
        let b = (length - later) as int;
        assert(0real <= (b as real) / (l as real) <= (a as real) / (l as real) <= 1real)
            by (nonlinear_arith)
            requires
                0 <= b <= a <= l,
                l > 0,
        ;
    } else if earlier < length {
        let l = length as int;
        let a = (length - earlier) as int;
        assert(0real <= (a as real) / (l as real) <= 1real) by (nonlinear_arith)
            requires
                0 <= a <= l,
                l > 0,
        ;
    }
}

/// Monotonic decay: between triggers the value of an envelope never grows
/// with time and never falls below zero.
pub proof fn lemma_value_decays(strength: real, earlier: nat, later: nat, length: nat)
    requires
        strength >= 0real,
        earlier <= later,
    ensures
        0real <= linear_value(strength, later, length) <= linear_value(strength, earlier, length),
        linear_value(strength, earlier, length) <= strength,
{
    lemma_remaining_decays(earlier, later, length);
    let r1 = remaining(earlier, length);
    let r2 = remaining(later, length);
    assert(0real <= strength * r2 <= strength * r1 <= strength) by (nonlinear_arith)
        requires
            strength >= 0real,
            0real <= r2 <= r1 <= 1real,
    ;
}

/// Linearity: at the trigger the whole strength is there, and after the
/// length none of it.
pub proof fn lemma_value_ends(strength: real, elapsed: nat, length: nat)
    ensures
        length > 0 ==> linear_value(strength, 0, length) == strength,
        elapsed >= length ==> linear_value(strength, elapsed, length) == 0real,
{
    if length > 0 {
        let l = length as int;
        assert((l as real) / (l as real) == 1real) by (nonlinear_arith)
            requires
                l > 0,
        ;
        assert(strength * 1real == strength) by (nonlinear_arith);
    }
    if elapsed >= length {
        assert(strength * 0real == 0real) by (nonlinear_arith);
    }
}

/// A share as the fraction `num / den`.
#[derive(Debug, Clone, Copy, PartialEq, Eq, Structural)]
pub struct Share {
    pub num: u128,
    pub den: u128,
}

impl Share {
    /// The share as a number.
    pub open spec fn value(self) -> real {
        (self.num as real) / (self.den as real)
    }
}

/// Computes `remaining` as a fraction.
pub fn share_after(elapsed: u128, length: u128) -> (share: Share)
    ensures
        share.den > 0,
        share.num <= share.den,
        share.value() == remaining(elapsed as nat, length as nat),
        elapsed < length ==> share == (Share { num: (length - elapsed) as u128, den: length }),
        elapsed >= length ==> share == (Share { num: 0, den: 1 }),
{
    if elapsed >= length {
        proof {
            assert((0int as real) / (1int as real) == 0real) by (nonlinear_arith);
        }
        Share { num: 0, den: 1 }
    } else {
        Share { num: length - elapsed, den: length }
    }
}

/// An envelope that loses its strength evenly within a fixed time.
#[derive(Debug)]
pub struct FixedDecay<S> {
    trigger_time: Instant,
    length: u128,
    strength: S,
}

impl<S: Copy> FixedDecay<S> {
    /// The strength of the last trigger.
    pub closed spec fn spec_strength(&self) -> S {
        self.strength
    }

    /// The length in milliseconds.
    pub closed spec fn spec_length(&self) -> u128 {
        self.length
    }

    /// An envelope of `length` milliseconds with the strength `strength`.
    pub fn init(length: u128, strength: S) -> (e: Self)
        ensures
            e.spec_strength() == strength,
            e.spec_length() == length,
    {
        FixedDecay { trigger_time: clock_now(), length, strength }
    }

    /// Starts the envelope anew with the strength `strength`.
    pub fn trigger(&mut self, strength: S)
        ensures
            final(self).spec_strength() == strength,
            final(self).spec_length() == old(self).spec_length(),
    {
        self.trigger_time = clock_now();
        self.strength = strength;
    }

    /// The strength of the last trigger.
    #[verifier::when_used_as_spec(spec_strength)]
    pub fn strength(&self) -> (s: S)
        ensures
            s == self.spec_strength(),
    {
        self.strength
    }

    /// The length in milliseconds.
    #[verifier::when_used_as_spec(spec_length)]
    pub fn length(&self) -> (l: u128)
        ensures
            l == self.spec_length(),
    {
        self.length
    }

    /// The value of the envelope `elapsed` milliseconds after its trigger,
    /// as the share of its strength that is left.
    pub fn value_at(&self, elapsed: u128) -> (share: Share)
        ensures
            share.den > 0,
            share.num <= share.den,
            share.value() == remaining(elapsed as nat, self.spec_length() as nat),
            0real <= share.value() <= 1real,
            elapsed >= self.spec_length() ==> share.num == 0,
    {
        proof {
            lemma_remaining_decays(elapsed as nat, elapsed as nat, self.spec_length() as nat);
        }
        share_after(elapsed, self.length)
    }

    /// The value of the envelope now, by the clock, as the share of its
    /// strength that is left: between 0 and 1, and what `value_at` gives for
    /// the time that has passed since the trigger.
    pub fn get_value(&self) -> (share: Share)
        ensures
            share.den > 0,
            share.num <= share.den,
            0real <= share.value() <= 1real,
            exists|elapsed: u128|
                share.value() == #[trigger] remaining(elapsed as nat, self.spec_length() as nat),
    {
        let passed = clock_elapsed(&self.trigger_time);
        let elapsed = whole_millis(&passed);
        let share = self.value_at(elapsed);
        assert(share.value() == remaining(elapsed as nat, self.spec_length() as nat));
        share
    }
}

} // verus!
