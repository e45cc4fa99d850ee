//! Sliding-window frame assembly.
//!
//! A capture device hands over interleaved samples in chunks of arbitrary
//! size. The assembler queues them and cuts the stream into overlapping
//! analysis frames of a fixed length, each starting one hop after its
//! predecessor. Nothing here looks inside a sample, so the assembler is
//! generic in the sample type.

use std::collections::VecDeque;
use vstd::prelude::*;

verus! {

/// Number of complete frames in a stream of `total` samples.
pub open spec fn frames_in(total: nat, frame_len: nat, hop_len: nat) -> nat {
    if total < frame_len || hop_len == 0 {
        0
    } else {
        ((total - frame_len) / (hop_len as int) + 1) as nat
    }
}

/// The `k`-th frame of `stream`: `frame_len` samples starting at `k * hop_len`.
pub open spec fn frame_at<T>(stream: Seq<T>, k: nat, frame_len: nat, hop_len: nat) -> Seq<T> {
    stream.subrange((k * hop_len) as int, (k * hop_len + frame_len) as int)
}

/// Frame `k` lies inside a stream of `total` samples exactly when `k` is
/// smaller than `frames_in(total, ..)`.
pub proof fn lemma_frame_fits(total: nat, frame_len: nat, hop_len: nat, k: nat)
    requires
        0 < hop_len,
    ensures
        k < frames_in(total, frame_len, hop_len) <==> k * hop_len + frame_len <= total,
{
    if total >= frame_len {
        let a = (total - frame_len) as int;
        let h = hop_len as int;
        let q = a / h;
        vstd::arithmetic::div_mod::lemma_fundamental_div_mod(a, h);
        vstd::arithmetic::div_mod::lemma_mod_bound(a, h);
        assert(a == h * q + a % h);
        if (k as int) <= q {
            assert(k * h <= q * h) by (nonlinear_arith)
                requires
                    k <= q,
                    h > 0,
            ;
            assert(h * q == q * h) by (nonlinear_arith);
        } else {
            assert(k * h >= (q + 1) * h) by (nonlinear_arith)
                requires
                    k >= q + 1,
                    h > 0,
            ;
            assert((q + 1) * h == h * q + h) by (nonlinear_arith);
        }
    } else {
        assert(k * hop_len >= 0) by (nonlinear_arith);
    }
}

/// Frame alignment: a stream of `total >= frame_len` samples holds exactly
/// `(total - frame_len) / hop_len + 1` frames, every one of them has
/// `frame_len` samples, and the `k`-th starts at sample `k * hop_len`.
pub proof fn lemma_frame_alignment<T>(stream: Seq<T>, frame_len: nat, hop_len: nat, k: nat)
    requires
        0 < hop_len,
        frame_len <= stream.len(),
        k < frames_in(stream.len(), frame_len, hop_len),
    ensures
        frames_in(stream.len(), frame_len, hop_len) == (stream.len() - frame_len) / (
        hop_len as int) + 1,
        frame_at(stream, k, frame_len, hop_len).len() == frame_len,
        forall|i: int|
            0 <= i < frame_len ==> #[trigger] frame_at(stream, k, frame_len, hop_len)[i]
                == stream[k * hop_len + i],
{
    lemma_frame_fits(stream.len(), frame_len, hop_len, k);
    assert(k * hop_len >= 0) by (nonlinear_arith);
}

/// Queue of captured samples that hands out hop-aligned frames.
pub struct FrameAssembler<T> {
    queue: VecDeque<T>,
    frame_len: usize,
    hop_len: usize,
    stream: Ghost<Seq<T>>,
    delivered: Ghost<nat>,
}

impl<T> FrameAssembler<T> {
    /// Length of every frame.
    pub closed spec fn frame_len(&self) -> nat {
        self.frame_len as nat
    }

    /// Distance between the starts of two consecutive frames.
    pub closed spec fn hop_len(&self) -> nat {
        self.hop_len as nat
    }

    /// Every sample received so far, in order of arrival.
    pub closed spec fn stream(&self) -> Seq<T> {
        self.stream@
    }

    /// Number of frames handed out so far.
    pub closed spec fn delivered(&self) -> nat {
        self.delivered@
    }

    /// The samples still queued.
    pub closed spec fn pending(&self) -> Seq<T> {
        self.queue@
    }

    /// The queue holds the stream without the hops of the frames already
    /// handed out, and no frame was handed out before it was complete.
    pub open spec fn wf(&self) -> bool {
        &&& 0 < self.hop_len() <= self.frame_len()
        &&& self.delivered() * self.hop_len() <= self.stream().len()
        &&& self.pending() == self.stream().skip((self.delivered() * self.hop_len()) as int)
        &&& self.delivered() <= frames_in(self.stream().len(), self.frame_len(), self.hop_len())
    }

    /// An empty assembler for frames of `frame_len` samples, `hop_len` apart.
    pub fn new(frame_len: usize, hop_len: usize) -> (a: Self)
        requires
            0 < hop_len <= frame_len,
        ensures
            a.wf(),
            a.frame_len() == frame_len,
            a.hop_len() == hop_len,
            a.stream() == Seq::<T>::empty(),
            a.delivered() == 0,
    {
        let a = FrameAssembler {
            queue: VecDeque::new(),
            frame_len,
            hop_len,
            stream: Ghost(Seq::empty()),
            delivered: Ghost(0),
        };
        proof {
            assert(a.delivered() * a.hop_len() == 0) by (nonlinear_arith)
                requires
                    a.delivered() == 0,
            ;
            assert(a.stream().skip(0) =~= a.pending());
        }
        a
    }

    /// Number of samples waiting in the queue.
    pub fn queued(&self) -> (n: usize)
        ensures
            n == self.pending().len(),
    {
        self.queue.len()
    }

    /// Number of frames that can be taken right now.
    pub fn ready(&self) -> (n: usize)
        requires
            self.wf(),
        ensures
            n == frames_in(self.pending().len(), self.frame_len(), self.hop_len()),
            self.delivered() + n == frames_in(
                self.stream().len(),
                self.frame_len(),
                self.hop_len(),
            ),
    {
        proof {
            self.lemma_remaining();
        }
        let len = self.queue.len();
        if len < self.frame_len {
            0
        } else {
            (len - self.frame_len) / self.hop_len + 1
        }
    }

    /// What is still to come equals what the queue alone yields.
    proof fn lemma_remaining(&self)
        requires
            self.wf(),
        ensures
            self.delivered() + frames_in(self.pending().len(), self.frame_len(), self.hop_len())
                == frames_in(self.stream().len(), self.frame_len(), self.hop_len()),
    {
        let total = self.stream().len();
        let f = self.frame_len();
        let h = self.hop_len();
        let d = self.delivered();
        let rest = self.pending().len();
        assert(rest == total - d * h);
        let n = frames_in(rest, f, h);
        // d + n frames fit into the stream, d + n + 1 do not
        if n > 0 {
            lemma_frame_fits(rest, f, h, (n - 1) as nat);
            assert((d + n - 1) * h == d * h + (n - 1) * h) by (nonlinear_arith);
            lemma_frame_fits(total, f, h, (d + n - 1) as nat);
        }
        lemma_frame_fits(rest, f, h, n);
        assert((d + n) * h == d * h + n * h) by (nonlinear_arith);
        lemma_frame_fits(total, f, h, d + n);
    }
}

impl<T: Copy> FrameAssembler<T> {
    /// Appends a captured chunk to the queue.
    pub fn push(&mut self, chunk: &[T])
        requires
            old(self).wf(),
        ensures
            final(self).wf(),
            final(self).stream() == old(self).stream() + chunk@,
            final(self).delivered() == old(self).delivered(),
            final(self).frame_len() == old(self).frame_len(),
            final(self).hop_len() == old(self).hop_len(),
    {
        let ghost before = self.queue@;
        let mut i: usize = 0;
        while i < chunk.len()
            invariant
                i <= chunk.len(),
                self.queue@ == before + chunk@.subrange(0, i as int),
                self.frame_len == old(self).frame_len,
                self.hop_len == old(self).hop_len,
                self.stream == old(self).stream,
                self.delivered == old(self).delivered,
            decreases chunk.len() - i,
        {
            self.queue.push_back(chunk[i]);
            proof {
                assert(chunk@.subrange(0, i as int).push(chunk@[i as int]) =~= chunk@.subrange(
                    0,
                    i + 1,
                ));
                assert((before + chunk@.subrange(0, i as int)).push(chunk@[i as int]) =~= before
                    + chunk@.subrange(0, i + 1));
            }
            i += 1;
        }
        proof {
            assert(chunk@.subrange(0, chunk.len() as int) =~= chunk@);
            let whole = old(self).stream() + chunk@;
            let cut = (old(self).delivered() * old(self).hop_len()) as int;
            assert(whole.skip(cut) =~= old(self).stream().skip(cut) + chunk@);
            let d = old(self).delivered();
            if d > 0 {
                lemma_frame_fits(
                    old(self).stream().len(),
                    old(self).frame_len(),
                    old(self).hop_len(),
                    (d - 1) as nat,
                );
                lemma_frame_fits(
                    whole.len(),
                    old(self).frame_len(),
                    old(self).hop_len(),
                    (d - 1) as nat,
                );
            }
        }
        self.stream = Ghost(self.stream@ + chunk@);
    }

    /// Takes the next frame if the queue holds a complete one: hands out a
    /// copy of the first `frame_len` queued samples and drops the first
    /// `hop_len` of them. With less than a frame queued nothing changes.
    pub fn next_frame(&mut self) -> (r: Option<Vec<T>>)
        requires
            old(self).wf(),
        ensures
            final(self).wf(),
            final(self).stream() == old(self).stream(),
            final(self).frame_len() == old(self).frame_len(),
            final(self).hop_len() == old(self).hop_len(),
            r.is_some() <==> old(self).delivered() < frames_in(
                old(self).stream().len(),
                old(self).frame_len(),
                old(self).hop_len(),
            ),
            r.is_some() <==> old(self).pending().len() >= old(self).frame_len(),
            match r {
                Some(frame) => {
                    &&& final(self).delivered() == old(self).delivered() + 1
                    &&& frame@ == frame_at(
                        old(self).stream(),
                        old(self).delivered(),
                        old(self).frame_len(),
                        old(self).hop_len(),
                    )
                    &&& final(self).pending() == old(self).pending().skip(
                        old(self).hop_len() as int,
                    )
                },
                None => {
                    &&& final(self).delivered() == old(self).delivered()
                    &&& final(self).pending() == old(self).pending()
                },
            },
    {
        let ghost d = self.delivered@;
        let ghost h = self.hop_len as nat;
        let ghost f = self.frame_len as nat;
        let ghost stream = self.stream@;
        let ghost before = self.queue@;
        proof {
            lemma_frame_fits(stream.len(), f, h, d);
        }
        if self.queue.len() < self.frame_len {
            return None;
        }
        let mut frame: Vec<T> = Vec::with_capacity(self.frame_len);
        let mut i: usize = 0;
        while i < self.frame_len
            invariant
                i <= self.frame_len,
                self.frame_len <= self.queue@.len(),
                self.queue@ == before,
                self.frame_len == old(self).frame_len,
                self.hop_len == old(self).hop_len,
                self.stream == old(self).stream,
                self.delivered == old(self).delivered,
                frame@ == before.subrange(0, i as int),
            decreases self.frame_len - i,
        {
            frame.push(self.queue[i]);
            proof {
                assert(before.subrange(0, i as int).push(before[i as int]) =~= before.subrange(
                    0,
                    i + 1,
                ));
            }
            i += 1;
        }
        let mut j: usize = 0;
        while j < self.hop_len
            invariant
                j <= self.hop_len,
                self.hop_len <= before.len(),
                self.queue@ == before.skip(j as int),
                self.frame_len == old(self).frame_len,
                self.hop_len == old(self).hop_len,
                self.stream == old(self).stream,
                self.delivered == old(self).delivered,
            decreases self.hop_len - j,
        {
            let _ = self.queue.pop_front();
            proof {
                assert(before.skip(j as int).subrange(1, before.len() - j) =~= before.skip(
                    j + 1,
                ));
            }
            j += 1;
        }
        self.delivered = Ghost((d + 1) as nat);
        proof {
            assert((d + 1) * h == d * h + h) by (nonlinear_arith);
            assert(before.skip(h as int) =~= stream.skip(((d + 1) * h) as int));
            assert(frame@ =~= frame_at(stream, d, f, h));
        }
        Some(frame)
    }

    /// Appends a chunk and takes every frame that is complete afterwards.
    ///
    /// Whatever the sizes of the chunks, the frames handed out over time are
    /// the frames of the whole stream, each exactly once and in order: after
    /// the call all `frames_in(stream)` of them have been delivered.
    pub fn feed(&mut self, chunk: &[T]) -> (frames: Vec<Vec<T>>)
        requires
            old(self).wf(),
        ensures
            final(self).wf(),
            final(self).stream() == old(self).stream() + chunk@,
            final(self).frame_len() == old(self).frame_len(),
            final(self).hop_len() == old(self).hop_len(),
            final(self).delivered() == frames_in(
                final(self).stream().len(),
                final(self).frame_len(),
                final(self).hop_len(),
            ),
            final(self).pending().len() < final(self).frame_len(),
            frames@.len() == final(self).delivered() - old(self).delivered(),
            forall|i: int|
                0 <= i < frames@.len() ==> (#[trigger] frames@[i])@ == frame_at(
                    final(self).stream(),
                    (old(self).delivered() + i) as nat,
                    final(self).frame_len(),
                    final(self).hop_len(),
                ),
    {
        self.push(chunk);
        let ghost start = self.delivered@;
        let mut frames: Vec<Vec<T>> = Vec::new();
        loop
            invariant
                self.wf(),
                self.stream() == old(self).stream() + chunk@,
                self.frame_len() == old(self).frame_len(),
                self.hop_len() == old(self).hop_len(),
                start == old(self).delivered(),
                frames@.len() == self.delivered() - start,
                forall|i: int|
                    0 <= i < frames@.len() ==> (#[trigger] frames@[i])@ == frame_at(
                        self.stream(),
                        (start + i) as nat,
                        self.frame_len(),
                        self.hop_len(),
                    ),
            ensures
                self.delivered() == frames_in(
                    self.stream().len(),
                    self.frame_len(),
                    self.hop_len(),
                ),
                self.pending().len() < self.frame_len(),
            decreases
                frames_in(self.stream().len(), self.frame_len(), self.hop_len())
                    - self.delivered(),
        {
            match self.next_frame() {
                Some(frame) => {
                    frames.push(frame);
                },
                None => {
                    break ;
                },
            }
        }
        frames
    }
}

} // verus!
