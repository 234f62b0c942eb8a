//! A plain owned event queue, drained last-in first-out and closed by a terminal event.
use vstd::prelude::*;
use crate::chunk::ChunkID;
use crate::units::{ChunkUnit, Position};

verus! {

/// An event type with a terminal event that closes every drain.
pub trait EventType: Sized + Copy {
    spec fn spec_final() -> Self;

    fn final_event() -> (r: Self)
        ensures
            r == Self::spec_final(),
    ;
}

/// Events that drive the chunk worker.
#[derive(Clone, Copy, Debug, PartialEq, Eq, Structural)]
pub enum ChunkEvents {
    /// Generate a chunk at this position and register it with the meshers.
    LoadChunk(Position<ChunkUnit>),
    /// Deregister and drop the chunk with this identifier.
    OffloadChunk(ChunkID),
    /// Mark every chunk for remeshing.
    ReloadChunks,
    /// Mark one chunk for remeshing (a reserved hook).
    ReloadChunk(ChunkID),
    /// Runs after every other event of a drain.
    EventFinal,
}

impl EventType for ChunkEvents {
    open spec fn spec_final() -> Self {
        ChunkEvents::EventFinal
    }

    fn final_event() -> (r: Self) {
        ChunkEvents::EventFinal
    }
}

/// A queue of pending events.
pub struct EventQueue<T> {
    queue: Vec<T>,
}

impl<T> View for EventQueue<T> {
    type V = Seq<T>;

    closed spec fn view(&self) -> Seq<T> {
        self.queue@
    }
}

impl<T: EventType> EventQueue<T> {
    pub fn new() -> (r: Self)
        ensures
            r@ == Seq::<T>::empty(),
    {
        EventQueue { queue: Vec::new() }
    }

    /// Number of pending events.
    pub fn event_count(&self) -> (r: usize)
        ensures
            r == self@.len(),
    {
        self.queue.len()
    }

    /// Appends one event.
    pub fn add_event(&mut self, event: T)
        ensures
            final(self)@ == old(self)@.push(event),
    {
        self.queue.push(event);
    }

    /// Appends events in the order given.
    pub fn merge_events(&mut self, events: Vec<T>)
        ensures
            final(self)@ == old(self)@ + events@,
    {
        let mut i: usize = 0;
        while i < events.len()
            invariant
                0 <= i <= events@.len(),
                self@ == old(self)@ + events@.subrange(0, i as int),
            decreases events@.len() - i,
        {
            self.add_event(events[i]);
            proof {
                assert(events@.subrange(0, i + 1) =~= events@.subrange(0, i as int).push(events@[i as int]));
            }
            i = i + 1;
        }
        proof {
            assert(events@.subrange(0, events@.len() as int) =~= events@);
        }
    }

    /// The order in which the pending events run: last added first, then the terminal
    /// event. The queue itself is left as it is.
    pub fn run_event(&self) -> (r: Vec<T>)
        ensures
            r@ == self@.reverse().push(T::spec_final()),
    {
        let mut r: Vec<T> = Vec::new();
        let mut i: usize = self.queue.len();
        while i > 0
            invariant
                0 <= i <= self@.len(),
                r@ == self@.subrange(i as int, self@.len() as int).reverse(),
            decreases i,
        {
            i = i - 1;
            r.push(self.queue[i]);
            proof {
                assert(self@.subrange(i as int, self@.len() as int).reverse() =~= self@.subrange(
                    i + 1,
                    self@.len() as int,
                ).reverse().push(self@[i as int]));
            }
        }
        proof {
            assert(self@.subrange(0, self@.len() as int) =~= self@);
        }
        r.push(T::final_event());
        r
    }

    /// Drops every pending event.
    pub fn flush_events(&mut self)
        ensures
            final(self)@ == Seq::<T>::empty(),
    {
        self.queue.clear();
    }
}

} // verus!
