//! Edge event buffers: a bounded, reusable store of edge events, and a
//! borrowing iterator over one read's worth of events.

use vstd::prelude::*;
use crate::edge_event::Event;
use crate::line_request::{valid_request, Request};
use crate::sim::{LineState, Sim};
use crate::{Error, OperationType, Result, EAGAIN};

verus! {

/// Largest capacity an edge event buffer may have.
pub const MAX_BUFFER_CAPACITY: usize = 1024;

/// Capacity an edge event buffer gets when the caller asks for zero slots.
pub const DEFAULT_BUFFER_CAPACITY: usize = 64;

/// Line edge event buffer.
///
/// Each read overwrites all prior slot contents; events borrowed from the
/// buffer are invalid once the next read overwrites them, unless cloned.
#[derive(Debug, Eq, PartialEq)]
pub struct Buffer {
    pub slots: Vec<Event>,
    pub cap: usize,
}

impl Buffer {
    /// The buffer never holds more events than its capacity.
    pub open spec fn wf(&self) -> bool {
        self.slots@.len() <= self.cap
    }

    /// Create a new edge event buffer, initially empty.
    ///
    /// If capacity equals 0, it is set to a default value of 64. If
    /// capacity is larger than 1024, it is limited to 1024.
    pub fn new(capacity: usize) -> (r: Result<Self>)
        ensures
            r matches Ok(b) && b.wf() && b.slots@.len() == 0 && b.cap == (
            if capacity == 0 {
                DEFAULT_BUFFER_CAPACITY as int
            } else if capacity > MAX_BUFFER_CAPACITY {
                MAX_BUFFER_CAPACITY as int
            } else {
                capacity as int
            }),
    {
        let cap = if capacity == 0 {
            DEFAULT_BUFFER_CAPACITY
        } else if capacity > MAX_BUFFER_CAPACITY {
            MAX_BUFFER_CAPACITY
        } else {
            capacity
        };
        Ok(Buffer { slots: Vec::new(), cap })
    }

    /// Get the capacity of the event buffer.
    pub fn capacity(&self) -> (r: usize)
        ensures
            r == self.cap,
    {
        self.cap
    }

    /// Read up to `capacity` queued edge events of a request into the
    /// buffer, overwriting all prior slot contents, and return an iterator
    /// over exactly the events read, in delivered order. The request's
    /// delivered count and the drained lines' read counters advance; the
    /// TooManyEvents condition cannot arise, since never more events than
    /// the capacity are taken. Fails when no event is queued, where a
    /// blocking reader would wait.
    #[verifier::rlimit(100)]
    #[verifier::spinoff_prover]
    #[verifier::loop_isolation(false)]
    pub fn read_edge_events<'a>(&'a mut self, sim: &mut Sim, request: &Request) -> (r: Result<
        Events<'a>,
    >)
        requires
            old(self).wf(),
            old(sim).wf(),
            valid_request(*old(sim), *request),
        ensures
            final(sim).wf(),
            final(self).wf(),
            old(sim).requests@[request.id as int].queue@.len() == 0 ==> r == Err::<
                Events<'a>,
                Error,
            >(
                Error::OperationFailed(
                    OperationType::LineRequestReadEdgeEvent,
                    errno::Errno(EAGAIN),
                ),
            ) && *final(sim) == *old(sim) && *final(self) == *old(self),
            old(sim).requests@[request.id as int].queue@.len() > 0 ==> {
                let q0 = old(sim).requests@[request.id as int].queue@;
                let n = if q0.len() <= old(self).cap {
                    q0.len() as int
                } else {
                    old(self).cap as int
                };
                &&& (r matches Ok(ev) && ev.read_index == 0 && ev.len == n && ev.buffer.slots@
                    == q0.subrange(0, n))
                &&& final(self).cap == old(self).cap
                &&& final(self).slots@ == q0.subrange(0, n)
                &&& final(sim).requests@.len() == old(sim).requests@.len()
                &&& (forall|rr: int|
                    0 <= rr < old(sim).requests@.len() && rr != request.id
                        ==> #[trigger] final(sim).requests@[rr] == old(sim).requests@[rr])
                &&& final(sim).requests@[request.id as int].alive
                &&& final(sim).requests@[request.id as int].offsets == old(
                    sim,
                ).requests@[request.id as int].offsets
                &&& final(sim).requests@[request.id as int].delivered == old(
                    sim,
                ).requests@[request.id as int].delivered + n
                &&& final(sim).requests@[request.id as int].queue@ == q0.subrange(n, q0.len() as int)
                &&& final(sim).lines@.len() == old(sim).lines@.len()
                &&& (forall|o: int|
                    0 <= o < old(sim).lines@.len() ==> #[trigger] final(sim).lines@[o] == (
                    LineState {
                        line_delivered: final(sim).lines@[o].line_delivered,
                        ..old(sim).lines@[o]
                    }))
                &&& *final(sim) == (Sim {
                    lines: final(sim).lines,
                    requests: final(sim).requests,
                    ..*old(sim)
                })
            },
    {
        let rid = request.id;
        let qlen = sim.requests[rid].queue.len();
        if qlen == 0 {
            return Err(
                Error::OperationFailed(
                    OperationType::LineRequestReadEdgeEvent,
                    errno::Errno(EAGAIN),
                ),
            );
        }
        let ghost s0 = *sim;
        let ghost q0 = s0.requests@[rid as int].queue@;
        let n = if qlen <= self.cap {
            qlen
        } else {
            self.cap
        };
        self.slots.clear();
        let mut i: usize = 0;
        while i < n
            invariant
                i <= n,
                n <= q0.len(),
                n <= self.cap,
                self.cap == old(self).cap,
                sim.wf(),
                self.slots@ == q0.subrange(0, i as int),
                sim.requests@.len() == s0.requests@.len(),
                rid < sim.requests@.len(),
                forall|rr: int|
                    0 <= rr < s0.requests@.len() && rr != rid ==> #[trigger] sim.requests@[rr]
                        == s0.requests@[rr],
                sim.requests@[rid as int].alive,
                sim.requests@[rid as int].offsets == s0.requests@[rid as int].offsets,
                sim.requests@[rid as int].delivered == s0.requests@[rid as int].delivered + i,
                sim.requests@[rid as int].queue@ == q0.subrange(i as int, q0.len() as int),
                sim.lines@.len() == s0.lines@.len(),
                forall|o: int|
                    0 <= o < s0.lines@.len() ==> #[trigger] sim.lines@[o] == (LineState {
                        line_delivered: sim.lines@[o].line_delivered,
                        ..s0.lines@[o]
                    }),
                *sim == (Sim { lines: sim.lines, requests: sim.requests, ..s0 }),
            decreases n - i,
        {
            let ghost smid = *sim;
            proof {
                assert(smid.requests@[rid as int].queue@.len() == q0.len() - i);
            }
            let ev = sim.pop_event(rid);
            proof {
                assert(ev == q0.subrange(i as int, q0.len() as int)[0]);
                assert(ev == q0[i as int]);
                assert(sim.requests@[rid as int].queue@ =~= q0.subrange(
                    i + 1,
                    q0.len() as int,
                )) by {
                    assert(sim.requests@[rid as int].queue@ == q0.subrange(
                        i as int,
                        q0.len() as int,
                    ).subrange(1, q0.len() - i));
                }
            }
            self.slots.push(ev);
            proof {
                assert(self.slots@ =~= q0.subrange(0, i + 1));
                assert forall|o: int|
                    0 <= o < s0.lines@.len() implies #[trigger] sim.lines@[o] == (LineState {
                    line_delivered: sim.lines@[o].line_delivered,
                    ..s0.lines@[o]
                }) by {
                    if o != q0[i as int].line as int {
                        assert(sim.lines@[o] == smid.lines@[o]);
                    }
                }
            }
            i = i + 1;
        }
        let events = Events { buffer: &*self, read_index: 0, len: n };
        Ok(events)
    }
}

/// Line edge events: a non-restartable, borrowing iterator over the events
/// that one read call stored in a buffer, in kernel-delivered order.
pub struct Events<'a> {
    pub buffer: &'a Buffer,
    pub read_index: usize,
    pub len: usize,
}

impl<'a> Events<'a> {
    /// The iterator covers a prefix of the buffer's slots.
    pub open spec fn wf(&self) -> bool {
        self.len <= self.buffer.slots@.len()
    }

    /// Make an iterator over the first `len` events of a buffer.
    pub fn new(buffer: &'a Buffer, len: usize) -> (r: Events<'a>)
        requires
            len <= buffer.slots@.len(),
        ensures
            r.wf(),
            r.buffer == buffer,
            r.read_index == 0,
            r.len == len,
    {
        Events { buffer, read_index: 0, len }
    }

    /// Get the number of contained events in the snapshot; this does not
    /// change as events are read from the iterator.
    pub fn len(&self) -> (r: usize)
        ensures
            r == self.len,
    {
        self.len
    }

    /// Check if the snapshot holds no events.
    pub fn is_empty(&self) -> (r: bool)
        ensures
            r == (self.len == 0),
    {
        self.len == 0
    }

    /// Yield the next event of the snapshot, or nothing when all have been
    /// yielded. A fresh read call is required for more events.
    pub fn next(&mut self) -> (r: Option<Result<&'a Event>>)
        requires
            old(self).wf(),
        ensures
            final(self).wf(),
            final(self).buffer == old(self).buffer,
            final(self).len == old(self).len,
            old(self).read_index < old(self).len ==> (r matches Some(Ok(e)) && *e
                == old(self).buffer.slots@[old(self).read_index as int] && final(self).read_index
                == old(self).read_index + 1),
            old(self).read_index >= old(self).len ==> r is None && final(self).read_index == old(
                self,
            ).read_index,
    {
        if self.read_index < self.len {
            let e = &self.buffer.slots[self.read_index];
            self.read_index = self.read_index + 1;
            Some(Ok(e))
        } else {
            None
        }
    }
}

} // verus!
