//! Bookkeeping of the adaptive thresholds.
//!
//! A threshold looks at the recent past of a detection function. The past is
//! kept in a [`History`]; what a threshold computes from it is numeric work
//! of the caller. The decision that follows the comparison — delaying a
//! tentative onset and keeping a dead time after it — is the [`Refractory`]
//! register.

use std::collections::VecDeque;
use vstd::prelude::*;

verus! {

/// What a history of capacity `capacity` holds after `value` arrived.
pub open spec fn recorded<T>(past: Seq<T>, capacity: nat, value: T) -> Seq<T> {
    if past.len() >= capacity && past.len() > 0 {
        past.skip(1).push(value)
    } else {
        past.push(value)
    }
}

/// The most recent values of a detection function, oldest first.
pub struct History<T> {
    values: VecDeque<T>,
    capacity: usize,
}

impl<T> View for History<T> {
    type V = Seq<T>;

    closed spec fn view(&self) -> Seq<T> {
        self.values@
    }
}

impl<T> History<T> {
    /// Number of values that are kept.
    pub closed spec fn capacity(&self) -> nat {
        self.capacity as nat
    }

    /// An empty history that keeps up to `capacity` values.
    pub fn new(capacity: usize) -> (h: Self)
        ensures
            h@ == Seq::<T>::empty(),
            h.capacity() == capacity,
    {
        History { values: VecDeque::with_capacity(capacity), capacity }
    }

    /// Number of values held.
    pub fn len(&self) -> (n: usize)
        ensures
            n == self@.len(),
    {
        self.values.len()
    }

    /// The value at position `i`, counted from the oldest.
    pub fn get(&self, i: usize) -> (value: &T)
        requires
            i < self@.len(),
        ensures
            *value == self@[i as int],
    {
        &self.values[i]
    }

    /// Records `value`; a full history drops its oldest value first.
    pub fn record(&mut self, value: T)
        ensures
            final(self)@ == recorded(old(self)@, old(self).capacity(), value),
            final(self).capacity() == old(self).capacity(),
    {
        if self.values.len() >= self.capacity {
            let _ = self.values.pop_front();
        }
        self.values.push_back(value);
    }
}

impl<T: Copy> History<T> {
    /// A history of `capacity` values, all equal to `fill`.
    pub fn filled(capacity: usize, fill: T) -> (h: Self)
        ensures
            h@ == Seq::new(capacity as nat, |i: int| fill),
            h.capacity() == capacity,
    {
        let mut values: VecDeque<T> = VecDeque::with_capacity(capacity);
        let mut i: usize = 0;
        while i < capacity
            invariant
                i <= capacity,
                values@ == Seq::new(i as nat, |k: int| fill),
            decreases capacity - i,
        {
            values.push_back(fill);
            proof {
                assert(Seq::new(i as nat, |k: int| fill).push(fill) =~= Seq::new(
                    (i + 1) as nat,
                    |k: int| fill,
                ));
            }
            i += 1;
        }
        History { values, capacity }
    }
}

/// No tentative onset among the `delay` most recent slots of `register`.
pub open spec fn quiet(register: Seq<bool>, delay: nat) -> bool {
    forall|i: int| 0 <= i < delay && i < register.len() ==> !register[i]
}

/// The register after one hop: a value that exceeds its threshold becomes a
/// tentative onset unless the register is not quiet; the oldest slot leaves.
pub open spec fn advance(register: Seq<bool>, delay: nat, exceeds: bool) -> Seq<bool> {
    seq![exceeds && quiet(register, delay)] + register.take(delay as int)
}

/// The register after the hops `inputs`, newest slot first, starting from
/// `delay + 1` empty slots.
pub open spec fn settle(delay: nat, inputs: Seq<bool>) -> Seq<bool>
    decreases inputs.len(),
{
    if inputs.len() == 0 {
        Seq::new(delay + 1, |i: int| false)
    } else {
        advance(settle(delay, inputs.drop_last()), delay, inputs.last())
    }
}

/// Whether hop `t` of `inputs` was taken as a tentative onset.
pub open spec fn tentative(delay: nat, inputs: Seq<bool>, t: int) -> bool {
    0 <= t < inputs.len() && settle(delay, inputs.take(t + 1))[0]
}

/// Whether an onset is emitted at hop `t` of `inputs`.
pub open spec fn emitted(delay: nat, inputs: Seq<bool>, t: int) -> bool {
    0 <= t < inputs.len() && settle(delay, inputs.take(t + 1))[delay as int]
}

/// The register always has `delay + 1` slots, and slot `i` tells whether the
/// hop `i` steps back was tentative.
pub proof fn lemma_settle_slots(delay: nat, inputs: Seq<bool>)
    ensures
        settle(delay, inputs).len() == delay + 1,
        forall|i: int|
            0 <= i <= delay ==> #[trigger] settle(delay, inputs)[i] == tentative(
                delay,
                inputs,
                inputs.len() - 1 - i,
            ),
    decreases inputs.len(),
{
    let n = inputs.len() as int;
    if n == 0 {
    } else {
        let before = inputs.drop_last();
        lemma_settle_slots(delay, before);
        let reg = settle(delay, before);
        let now = settle(delay, inputs);
        assert(now.len() == delay + 1);
        assert(inputs.take(n) =~= inputs);
        assert forall|i: int| 0 <= i <= delay implies #[trigger] now[i] == tentative(
            delay,
            inputs,
            n - 1 - i,
        ) by {
            if i == 0 {
            } else {
                assert(now[i] == reg[i - 1]);
                let t = n - 1 - i;
                if 0 <= t {
                    assert(inputs.take(t + 1) =~= before.take(t + 1));
                }
            }
        }
    }
}

/// An onset is emitted exactly `delay` hops after the hop that was tentative.
pub proof fn lemma_emitted_is_delayed(delay: nat, inputs: Seq<bool>, t: int)
    ensures
        emitted(delay, inputs, t) == (t < inputs.len() && tentative(delay, inputs, t - delay)),
{
    if 0 <= t < inputs.len() {
        let upto = inputs.take(t + 1);
        lemma_settle_slots(delay, upto);
        assert(settle(delay, upto)[delay as int] == tentative(delay, upto, t - delay));
        if 0 <= t - delay {
            assert(upto.take(t - delay + 1) =~= inputs.take(t - delay + 1));
        }
    }
}

/// After a tentative onset the next `delay` hops cannot be tentative.
pub proof fn lemma_tentative_spacing(delay: nat, inputs: Seq<bool>, t1: int, t2: int)
    requires
        t1 < t2,
        tentative(delay, inputs, t1),
        tentative(delay, inputs, t2),
    ensures
        t2 - t1 >= delay + 1,
{
    if t2 - t1 <= delay {
        let upto = inputs.take(t2 + 1);
        let before = upto.drop_last();
        lemma_settle_slots(delay, before);
        let reg = settle(delay, before);
        let i = t2 - t1 - 1;
        assert(quiet(reg, delay));
        assert(reg[i] == tentative(delay, before, before.len() - 1 - i));
        assert(before.take(t1 + 1) =~= inputs.take(t1 + 1));
        assert(!reg[i]);
    }
}

/// Refractory law: whatever the inputs, two emitted onsets are at least
/// `delay + 1` hops apart.
pub proof fn lemma_refractory(delay: nat, inputs: Seq<bool>, t1: int, t2: int)
    requires
        t1 < t2,
        emitted(delay, inputs, t1),
        emitted(delay, inputs, t2),
    ensures
        t2 - t1 >= delay + 1,
{
    lemma_emitted_is_delayed(delay, inputs, t1);
    lemma_emitted_is_delayed(delay, inputs, t2);
    lemma_tentative_spacing(delay, inputs, t1 - delay, t2 - delay);
}

/// Shift register that emits a tentative onset `delay` hops later and lets
/// no other become tentative in between.
pub struct Refractory {
    slots: VecDeque<bool>,
    delay: usize,
    inputs: Ghost<Seq<bool>>,
}

impl Refractory {
    /// Hops between a tentative onset and its emission.
    pub closed spec fn delay(&self) -> nat {
        self.delay as nat
    }

    /// For every hop so far, whether its value exceeded the threshold.
    pub closed spec fn inputs(&self) -> Seq<bool> {
        self.inputs@
    }

    /// The slots, newest first.
    pub closed spec fn register(&self) -> Seq<bool> {
        self.slots@
    }

    /// The register is the one that the inputs so far lead to.
    pub open spec fn wf(&self) -> bool {
        self.register() == settle(self.delay(), self.inputs())
    }

    /// A register of `delay + 1` empty slots.
    pub fn new(delay: usize) -> (r: Self)
        requires
            delay < usize::MAX,
        ensures
            r.wf(),
            r.delay() == delay,
            r.inputs() == Seq::<bool>::empty(),
    {
        let mut slots: VecDeque<bool> = VecDeque::with_capacity(delay + 1);
        let mut i: usize = 0;
        while i < delay + 1
            invariant
                delay < usize::MAX,
                i <= delay + 1,
                slots@ == Seq::new(i as nat, |k: int| false),
            decreases delay + 1 - i,
        {
            slots.push_back(false);
            proof {
                assert(Seq::new(i as nat, |k: int| false).push(false) =~= Seq::new(
                    (i + 1) as nat,
                    |k: int| false,
                ));
            }
            i += 1;
        }
        Refractory { slots, delay, inputs: Ghost(Seq::empty()) }
    }

    /// Whether a value that exceeds its threshold now would become tentative.
    pub fn is_quiet(&self) -> (q: bool)
        requires
            self.wf(),
        ensures
            q == quiet(self.register(), self.delay()),
    {
        proof {
            lemma_settle_slots(self.delay(), self.inputs());
        }
        let mut i: usize = 0;
        while i < self.delay
            invariant
                i <= self.delay,
                self.slots@.len() == self.delay + 1,
                forall|k: int| 0 <= k < i ==> !self.slots@[k],
            decreases self.delay - i,
        {
            if self.slots[i] {
                return false;
            }
            i += 1;
        }
        true
    }

    /// One hop. `exceeds` says whether the hop's value exceeded its
    /// threshold; the result says whether an onset is emitted at this hop,
    /// which is so exactly when the hop `delay` steps back was tentative.
    pub fn step(&mut self, exceeds: bool) -> (onset: bool)
        requires
            old(self).wf(),
        ensures
            final(self).wf(),
            final(self).delay() == old(self).delay(),
            final(self).inputs() == old(self).inputs().push(exceeds),
            final(self).register() == advance(old(self).register(), old(self).delay(), exceeds),
            onset == emitted(
                final(self).delay(),
                final(self).inputs(),
                final(self).inputs().len() - 1,
            ),
    {
        proof {
            lemma_settle_slots(self.delay(), self.inputs());
        }
        let ghost before = self.slots@;
        let candidate = exceeds && self.is_quiet();
        let _ = self.slots.pop_back();
        self.slots.push_front(candidate);
        let onset = self.slots[self.delay];
        proof {
            let after = old(self).inputs().push(exceeds);
            assert(after.drop_last() =~= old(self).inputs());
            assert(self.slots@ =~= advance(before, self.delay(), exceeds));
            assert(after.take(after.len() as int) =~= after);
        }
        self.inputs = Ghost(self.inputs@.push(exceeds));
        onset
    }
}

} // verus!
