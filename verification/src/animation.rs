//! Timed animations.

use crate::clock::{clock_elapsed, clock_now, whole_millis};
use std::time::Instant;
use vstd::prelude::*;

verus! {

/// Where an animation stands `elapsed` milliseconds after its reference
/// time.
pub open spec fn position_after(
    stopped: bool,
    looping: bool,
    position: u64,
    length: u64,
    elapsed: u128,
) -> u64 {
    if stopped {
        position
    } else if looping {
        (elapsed % (length as u128)) as u64
    } else if elapsed > length {
        length
    } else {
        elapsed as u64
    }
}

/// An animation of `length` milliseconds: a function from the position in
/// the animation to a value, and the clock that moves the position.
pub struct AnimationHelper<F> {
    animator: F,
    time_ref: Instant,
    position: u64,
    length: u64,
    looping: bool,
    stopped: bool,
}

impl<T, F: Fn(u64) -> T> AnimationHelper<F> {
    /// The function that turns a position into a value.
    pub closed spec fn animator(&self) -> F {
        self.animator
    }

    /// The position at which the animation was stopped last.
    pub closed spec fn position(&self) -> u64 {
        self.position
    }

    /// Length of the animation in milliseconds.
    pub closed spec fn length(&self) -> u64 {
        self.length
    }

    /// Whether the animation starts over when it reaches its end.
    pub closed spec fn looping(&self) -> bool {
        self.looping
    }

    /// Whether the animation stands still.
    pub closed spec fn stopped(&self) -> bool {
        self.stopped
    }

    /// The reading of the clock from which the animation counts its time.
    pub closed spec fn time_ref(&self) -> Instant {
        self.time_ref
    }

    /// The animation was stopped within its length.
    pub open spec fn wf(&self) -> bool {
        self.position() <= self.length()
    }

    /// A stopped animation at position 0.
    pub fn init(animator: F, length: u64, looping: bool) -> (a: Self)
        ensures
            a.wf(),
            a.animator() == animator,
            a.position() == 0,
            a.length() == length,
            a.looping() == looping,
            a.stopped(),
    {
        AnimationHelper {
            animator,
            time_ref: clock_now(),
            position: 0,
            length,
            looping,
            stopped: true,
        }
    }

    /// The position `elapsed` milliseconds after the reference time.
    pub fn position_at(&self, elapsed: u128) -> (pos: u64)
        requires
            self.wf(),
            self.stopped() || !self.looping() || self.length() > 0,
        ensures
            pos == position_after(
                self.stopped(),
                self.looping(),
                self.position(),
                self.length(),
                elapsed,
            ),
            pos <= self.length(),
    {
        if self.stopped {
            self.position
        } else if self.looping {
            (elapsed % (self.length as u128)) as u64
        } else if elapsed > self.length as u128 {
            self.length
        } else {
            elapsed as u64
        }
    }

    /// The animation's value now: the animator applied to the position that
    /// the clock gives.
    pub fn get_value(&self) -> (value: T)
        requires
            self.wf(),
            self.stopped() || !self.looping() || self.length() > 0,
            forall|p: u64| #[trigger] call_requires(self.animator(), (p,)),
        ensures
            exists|elapsed: u128|
                call_ensures(
                    self.animator(),
                    (
                        #[trigger] position_after(
                            self.stopped(),
                            self.looping(),
                            self.position(),
                            self.length(),
                            elapsed,
                        ),
                    ),
                    value,
                ),
            self.stopped() ==> call_ensures(self.animator(), (self.position(),), value),
    {
        let passed = clock_elapsed(&self.time_ref);
        let elapsed = whole_millis(&passed);
        let pos = self.position_at(elapsed);
        assert(call_requires(self.animator(), (pos,)));
        (self.animator)(pos)
    }

    /// Stops the animation where the clock has taken it, counted from the
    /// start of the current round.
    pub fn stop(&mut self)
        requires
            old(self).length() > 0,
        ensures
            final(self).wf(),
            final(self).stopped(),
            final(self).position() < final(self).length(),
            exists|elapsed: u128|
                final(self).position() == #[trigger] (elapsed % (old(self).length() as u128)),
            final(self).animator() == old(self).animator(),
            final(self).length() == old(self).length(),
            final(self).looping() == old(self).looping(),
            final(self).time_ref() == old(self).time_ref(),
    {
        let passed = clock_elapsed(&self.time_ref);
        let elapsed = whole_millis(&passed);
        self.position = (elapsed % (self.length as u128)) as u64;
        self.stopped = true;
    }

    /// Lets the animation run. Its time still counts from the same reading
    /// of the clock.
    pub fn start(&mut self)
        requires
            old(self).wf(),
        ensures
            final(self).wf(),
            !final(self).stopped(),
            final(self).time_ref() == old(self).time_ref(),
            final(self).animator() == old(self).animator(),
            final(self).position() == old(self).position(),
            final(self).length() == old(self).length(),
            final(self).looping() == old(self).looping(),
    {
        self.stopped = false;
    }

    /// Sets whether the animation starts over at its end.
    pub fn set_looping(&mut self, looping: bool)
        requires
            old(self).wf(),
        ensures
            final(self).wf(),
            final(self).looping() == looping,
            final(self).time_ref() == old(self).time_ref(),
            final(self).animator() == old(self).animator(),
            final(self).position() == old(self).position(),
            final(self).length() == old(self).length(),
            final(self).stopped() == old(self).stopped(),
    {
        self.looping = looping;
    }
}

} // verus!
