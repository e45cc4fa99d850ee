//! A record of the onsets of a session, ready to be written out.

use crate::onset::{Onset, OnsetKind};
use vstd::prelude::*;

verus! {

/// Whole milliseconds from one hop to the next, `hop_size * 1000 /
/// sample_rate`, as far as 32 bits hold them. Without a sample rate the
/// interval is as long as can be, unless the hop is empty.
pub open spec fn interval_millis(sample_rate: nat, hop_size: nat) -> u32 {
    if sample_rate == 0 {
        if hop_size == 0 {
            0u32
        } else {
            u32::MAX
        }
    } else if hop_size * 1000 / sample_rate > u32::MAX {
        u32::MAX
    } else {
        (hop_size * 1000 / sample_rate) as u32
    }
}

/// The entries of `entries` whose onset is of kind `kind`, in their order.
pub open spec fn of_kind<S>(entries: Seq<(u128, Onset<S>)>, kind: OnsetKind) -> Seq<
    (u128, Onset<S>),
>
    decreases entries.len(),
{
    if entries.len() == 0 {
        Seq::empty()
    } else if entries.last().1.spec_kind() == kind {
        of_kind(entries.drop_last(), kind).push(entries.last())
    } else {
        of_kind(entries.drop_last(), kind)
    }
}

/// The onsets of a session with the time at which each was found, and the
/// diagnostic values apart.
pub struct OnsetContainer<S> {
    time: u128,
    time_interval: u32,
    data: Vec<(u128, Onset<S>)>,
    raw: Vec<S>,
}

impl<S> OnsetContainer<S> {
    /// Milliseconds since the start of the session.
    pub closed spec fn time(&self) -> u128 {
        self.time
    }

    /// Milliseconds by which the time advances with every hop.
    pub closed spec fn time_interval(&self) -> u32 {
        self.time_interval
    }

    /// Every onset but the diagnostic ones, with its time, in order.
    pub closed spec fn entries(&self) -> Seq<(u128, Onset<S>)> {
        self.data@
    }

    /// The diagnostic values, in order.
    pub closed spec fn raw(&self) -> Seq<S> {
        self.raw@
    }

    /// An empty record for a stream of `sample_rate` samples per second that
    /// is analysed every `hop_size` samples.
    pub fn init(sample_rate: usize, hop_size: usize) -> (c: Self)
        ensures
            c.time() == 0,
            c.time_interval() == interval_millis(sample_rate as nat, hop_size as nat),
            c.entries() == Seq::<(u128, Onset<S>)>::empty(),
            c.raw() == Seq::<S>::empty(),
    {
        let time_interval: u32 = if sample_rate == 0 {
            if hop_size == 0 {
                0
            } else {
                u32::MAX
            }
        } else {
            let ms: u128 = (hop_size as u128 * 1000) / (sample_rate as u128);
            if ms > u32::MAX as u128 {
                u32::MAX
            } else {
                ms as u32
            }
        };
        OnsetContainer { time: 0, time_interval, data: Vec::new(), raw: Vec::new() }
    }

    /// Milliseconds by which the time advances with every hop.
    pub fn interval(&self) -> (ms: u32)
        ensures
            ms == self.time_interval(),
    {
        self.time_interval
    }

    /// Milliseconds since the start of the session.
    pub fn now(&self) -> (ms: u128)
        ensures
            ms == self.time(),
    {
        self.time
    }

    /// Records an onset: a diagnostic value goes to the raw values, every
    /// other onset to the entries, with the current time.
    pub fn process_onset(&mut self, event: Onset<S>)
        ensures
            final(self).time() == old(self).time(),
            final(self).time_interval() == old(self).time_interval(),
            match event {
                Onset::Raw(value) => {
                    &&& final(self).raw() == old(self).raw().push(value)
                    &&& final(self).entries() == old(self).entries()
                },
                _ => {
                    &&& final(self).raw() == old(self).raw()
                    &&& final(self).entries() == old(self).entries().push(
                        (old(self).time(), event),
                    )
                },
            },
    {
        match event {
            Onset::Raw(value) => {
                self.raw.push(value);
            },
            _ => {
                self.data.push((self.time, event));
            },
        }
    }

    /// Ends a hop: the time advances by the interval.
    pub fn update(&mut self)
        requires
            old(self).time() + old(self).time_interval() <= u128::MAX,
        ensures
            final(self).time() == old(self).time() + old(self).time_interval(),
            final(self).time_interval() == old(self).time_interval(),
            final(self).entries() == old(self).entries(),
            final(self).raw() == old(self).raw(),
    {
        self.time = self.time + self.time_interval as u128;
    }

    /// Number of entries.
    pub fn len(&self) -> (n: usize)
        ensures
            n == self.entries().len(),
    {
        self.data.len()
    }

    /// The diagnostic values.
    pub fn raw_values(&self) -> (values: &Vec<S>)
        ensures
            values@ == self.raw(),
    {
        &self.raw
    }
}

impl<S: Copy> OnsetContainer<S> {
    /// The entries of one kind, in order.
    pub fn entries_of(&self, kind: OnsetKind) -> (found: Vec<(u128, Onset<S>)>)
        ensures
            found@ == of_kind(self.entries(), kind),
    {
        let mut found: Vec<(u128, Onset<S>)> = Vec::new();
        let mut i: usize = 0;
        while i < self.data.len()
            invariant
                i <= self.data@.len(),
                found@ == of_kind(self.data@.subrange(0, i as int), kind),
            decreases self.data@.len() - i,
        {
            let entry = self.data[i];
            proof {
                let upto = self.data@.subrange(0, i + 1);
                assert(upto.drop_last() =~= self.data@.subrange(0, i as int));
                assert(upto.last() == self.data@[i as int]);
            }
            if entry.1.kind() == kind {
                found.push(entry);
            }
            i += 1;
        }
        proof {
            assert(self.data@.subrange(0, self.data@.len() as int) =~= self.data@);
        }
        found
    }
}

} // verus!
