//! The decisions of a polling loop.
//!
//! A sink with continuous output is polled at a fixed rate: at every tick
//! its state is rendered into a datagram and written to the endpoint, until
//! the sink is shut down; then the stream is closed. Waiting for ticks and
//! writing is the caller's work. What to do on each event is decided here.

use vstd::prelude::*;

verus! {

/// Something that a stream of datagrams can write to.
pub trait Writeable {
    fn write_buffer(&self, buffer: &[u8]);
}

/// Something that can be closed.
pub trait Closable {
    fn close_connection(&self);
}

/// A stream of datagrams to an endpoint.
pub trait Stream: Writeable + Closable + Send {
}

/// Writes datagrams to a stream.
pub struct Poller<T: Stream + Send + Sync> {
    pub stream: T,
}

impl<T: Stream + Send + Sync> Poller<T> {
    /// Writes the datagram `bytes` to the stream.
    pub fn poll(&self, bytes: &[u8]) {
        self.stream.write_buffer(bytes);
    }
}

/// What happens to a polling loop.
#[derive(Debug, Clone, Copy, PartialEq, Eq, Structural)]
pub enum PollEvent {
    /// The interval has passed.
    Tick,
    /// The sink is being dropped.
    Shutdown,
}

/// What a polling loop does next.
#[derive(Debug, Clone, Copy, PartialEq, Eq, Structural)]
pub enum PollAction {
    /// Render the sink's state and write the datagram.
    Write,
    /// Close the stream and end the loop.
    Close,
    /// Nothing: the loop has ended.
    Idle,
}

/// The action on `event` of a loop that is closed or not.
pub open spec fn action_on(closed: bool, event: PollEvent) -> PollAction {
    if closed {
        PollAction::Idle
    } else {
        match event {
            PollEvent::Tick => PollAction::Write,
            PollEvent::Shutdown => PollAction::Close,
        }
    }
}

/// Whether a loop has seen a shutdown among `events`.
pub open spec fn closed_after(events: Seq<PollEvent>) -> bool {
    exists|i: int| 0 <= i < events.len() && events[i] == PollEvent::Shutdown
}

/// The action that a loop takes on the event at position `at` of `events`.
pub open spec fn action_at(events: Seq<PollEvent>, at: int) -> PollAction {
    action_on(closed_after(events.take(at)), events[at])
}

/// Teardown: once a shutdown was seen, nothing is written any more, and the
/// stream is closed exactly once, at the first shutdown.
pub proof fn lemma_no_write_after_shutdown(events: Seq<PollEvent>, down: int, later: int)
    requires
        0 <= down < later < events.len(),
        events[down] == PollEvent::Shutdown,
    ensures
        action_at(events, later) == PollAction::Idle,
{
    assert(events.take(later)[down] == PollEvent::Shutdown);
}

/// Cadence: until a shutdown is seen, every tick leads to one write.
pub proof fn lemma_every_tick_writes(events: Seq<PollEvent>, at: int)
    requires
        0 <= at < events.len(),
        forall|i: int| 0 <= i <= at ==> events[i] == PollEvent::Tick,
    ensures
        action_at(events, at) == PollAction::Write,
{
}

/// The state of a polling loop.
pub struct PollingState {
    closed: bool,
    events: Ghost<Seq<PollEvent>>,
}

impl PollingState {
    /// The events handled so far.
    pub closed spec fn events(&self) -> Seq<PollEvent> {
        self.events@
    }

    /// Whether the loop has ended.
    pub closed spec fn closed(&self) -> bool {
        self.closed
    }

    /// The loop has ended exactly if it has seen a shutdown.
    pub open spec fn wf(&self) -> bool {
        self.closed() == closed_after(self.events())
    }

    /// A loop that has seen no event.
    pub fn new() -> (state: Self)
        ensures
            state.wf(),
            !state.closed(),
            state.events() == Seq::<PollEvent>::empty(),
    {
        PollingState { closed: false, events: Ghost(Seq::empty()) }
    }

    /// Whether the loop has ended.
    pub fn is_closed(&self) -> (b: bool)
        ensures
            b == self.closed(),
    {
        self.closed
    }

    /// Handles one event and says what to do.
    pub fn step(&mut self, event: PollEvent) -> (action: PollAction)
        requires
            old(self).wf(),
        ensures
            final(self).wf(),
            final(self).events() == old(self).events().push(event),
            action == action_on(old(self).closed(), event),
            action == action_at(final(self).events(), old(self).events().len() as int),
            final(self).closed() == (old(self).closed() || event == PollEvent::Shutdown),
    {
        let ghost before = self.events@;
        let ghost after = before.push(event);
        proof {
            assert(after.take(before.len() as int) =~= before);
            if closed_after(before) {
                let i = choose|i: int| 0 <= i < before.len() && before[i] == PollEvent::Shutdown;
                assert(after[i] == PollEvent::Shutdown);
            }
            if event == PollEvent::Shutdown {
                assert(after[before.len() as int] == PollEvent::Shutdown);
            }
            if closed_after(after) && !closed_after(before) {
                let i = choose|i: int| 0 <= i < after.len() && after[i] == PollEvent::Shutdown;
                if i < before.len() {
                    assert(before[i] == PollEvent::Shutdown);
                }
            }
        }
        self.events = Ghost(after);
        if self.closed {
            return PollAction::Idle;
        }
        match event {
            PollEvent::Tick => PollAction::Write,
            PollEvent::Shutdown => {
                self.closed = true;
                PollAction::Close
            },
        }
    }
}

} // verus!
