//! Single-producer / single-consumer ring buffer of guest-execution events.
//!
//! Fixed capacity `N` (a power of two), no allocation. When full, a push
//! overwrites the oldest unread event: lossy but deterministic.
use vstd::prelude::*;

verus! {

/// A single record carried over the ring buffer.
#[derive(Debug, Clone, Copy, PartialEq, Eq, Structural)]
pub enum Event {
    /// A bytecode opcode was dispatched. Payload: opcode byte.
    OpcodeExecuted(u8),
    /// A method was entered.
    MethodEntered {
        /// Package identifier of the entered method.
        pkg: u8,
        /// Method index within the package.
        method: u8,
    },
    /// A method returned (the callee's package and method).
    MethodReturned {
        /// Package identifier of the returning method.
        pkg: u8,
        /// Method index within the package.
        method: u8,
    },
    /// Counter snapshot marker.
    CounterSnapshot {
        /// Running total-instructions value at the marker point.
        total_instructions: u64,
    },
    /// Placeholder for slots never written to.
    Uninitialised,
}

impl Event {
    /// Value used to initialise ring slots that were never written.
    pub const EMPTY: Event = Event::Uninitialised;
}

/// `n` is a power of two.
pub open spec fn is_power_of_two(n: nat) -> bool
    decreases n,
{
    if n == 1 {
        true
    } else if n == 0 || n % 2 == 1 {
        false
    } else {
        is_power_of_two(n / 2)
    }
}

/// Fixed-capacity event ring buffer.
#[derive(Debug, Clone)]
pub struct RingBuffer<const N: usize> {
    slots: [Event; N],
    /// Slot of the oldest unread event.
    tail: usize,
    /// Number of unread events.
    count: usize,
}

impl<const N: usize> RingBuffer<N> {
    /// Physical slot of the `k`-th unread event.
    pub closed spec fn slot_of(&self, k: int) -> int {
        if self.tail + k < N {
            self.tail + k
        } else {
            self.tail + k - N
        }
    }

    /// The unread events, oldest first.
    pub closed spec fn events(&self) -> Seq<Event> {
        Seq::new(self.count as nat, |k: int| self.slots@[self.slot_of(k)])
    }

    /// Well-formedness: indices within the capacity, at most `N` unread events.
    pub closed spec fn wf(&self) -> bool {
        &&& N > 0
        &&& self.tail < N
        &&& self.count <= N
    }

    /// Create a fresh, empty ring. The capacity must be a non-zero power of two.
    pub fn new() -> (r: Self)
        requires
            N > 0,
            is_power_of_two(N as nat),
        ensures
            r.wf(),
            r.events() == Seq::<Event>::empty(),
    {
        let r = RingBuffer { slots: [Event::Uninitialised; N], tail: 0, count: 0 };
        assert(r.events() =~= Seq::<Event>::empty());
        r
    }

    /// Capacity in slots.
    pub fn capacity(&self) -> (r: usize)
        ensures
            r == N,
    {
        N
    }

    /// Number of events currently unread (at most `capacity`).
    pub fn len(&self) -> (r: usize)
        requires
            self.wf(),
        ensures
            r == self.events().len(),
            r <= N,
    {
        self.count
    }

    /// `true` iff no events are waiting to be drained.
    pub fn is_empty(&self) -> (r: bool)
        requires
            self.wf(),
        ensures
            r == (self.events().len() == 0),
    {
        self.count == 0
    }

    /// Push an event. When the ring is full the oldest unread event is dropped.
    pub fn push(&mut self, ev: Event)
        requires
            old(self).wf(),
        ensures
            final(self).wf(),
            old(self).events().len() < N ==> final(self).events() == old(self).events().push(ev),
            old(self).events().len() == N ==> final(self).events() == old(self).events().push(
                ev,
            ).drop_first(),
    {
        let ghost before = self.events();
        let idx = if self.count < N - self.tail {
            self.tail + self.count
        } else {
            self.count - (N - self.tail)
        };
        self.slots[idx] = ev;
        if self.count < N {
            self.count = self.count + 1;
            assert(self.events() =~= before.push(ev));
        } else {
            self.tail = if self.tail < N - 1 {
                self.tail + 1
            } else {
                0
            };
            assert(self.events() =~= before.push(ev).drop_first());
        }
    }

    /// Pop the oldest event, if any.
    pub fn pop(&mut self) -> (r: Option<Event>)
        requires
            old(self).wf(),
        ensures
            final(self).wf(),
            old(self).events().len() == 0 ==> r is None && final(self).events() == old(
                self).events(),
            old(self).events().len() > 0 ==> r == Some(old(self).events()[0]) && final(
                self).events() == old(self).events().drop_first(),
    {
        if self.count == 0 {
            return None;
        }
        let ghost before = self.events();
        let ev = self.slots[self.tail];
        self.tail = if self.tail < N - 1 {
            self.tail + 1
        } else {
            0
        };
        self.count = self.count - 1;
        assert(self.events() =~= before.drop_first());
        Some(ev)
    }

    /// Drain up to `limit` events into `out`, oldest first. Returns the number drained.
    pub fn drain_into(&mut self, out: &mut [Event], limit: usize) -> (n: usize)
        requires
            old(self).wf(),
        ensures
            final(self).wf(),
            n as int == vstd::math::min(
                limit as int,
                vstd::math::min(old(out)@.len() as int, old(self).events().len() as int),
            ),
            final(self).events() == old(self).events().subrange(
                n as int,
                old(self).events().len() as int,
            ),
            final(out)@.len() == old(out)@.len(),
            final(out)@.subrange(0, n as int) == old(self).events().subrange(0, n as int),
            final(out)@.subrange(n as int, old(out)@.len() as int) == old(out)@.subrange(
                n as int,
                old(out)@.len() as int,
            ),
    {
        let avail = self.len();
        let mut n = if limit < out.len() {
            limit
        } else {
            out.len()
        };
        if avail < n {
            n = avail;
        }
        let ghost before = self.events();
        let mut i: usize = 0;
        while i < n
            invariant
                self.wf(),
                i <= n,
                n <= before.len(),
                n <= out@.len(),
                out@.len() == old(out)@.len(),
                self.events() == before.subrange(i as int, before.len() as int),
                forall|k: int| 0 <= k < i ==> #[trigger] out@[k] == before[k],
                forall|k: int| n <= k < out@.len() ==> #[trigger] out@[k] == old(out)@[k],
            decreases n - i,
        {
            let ev = self.pop();
            if let Some(e) = ev {
                out[i] = e;
            }
            assert(before.subrange(i as int, before.len() as int).drop_first() =~= before.subrange(
                i + 1,
                before.len() as int,
            ));
            i = i + 1;
        }
        assert(out@.subrange(0, n as int) =~= before.subrange(0, n as int));
        assert(out@.subrange(n as int, out@.len() as int) =~= old(out)@.subrange(
            n as int,
            old(out)@.len() as int,
        ));
        n
    }
}

} // verus!
