//! Line requests: the exclusive grant of control over a set of offsets,
//! with value reads and writes, reconfiguration, release, and edge-event
//! waiting and reading.

use vstd::prelude::*;
use core::time::Duration;
use crate::line::{Offset, Value, ValueMap};
use crate::maps::{value_map_entries, value_map_insert, value_map_new, value_map_of};
use crate::sim::{line_logical, LineState, Sim};
use crate::line_config::{count_uapi_slots, uapi_slots, Config};
use crate::line_settings::{default_settings, Settings};
use crate::{Error, OperationType, Result, E2BIG, EINVAL};

verus! {

/// Line request operations.
///
/// A request is the client-side handle to an exclusive kernel-side grant
/// over a fixed set of offsets; interactions with the owning device go
/// through the device value the request was made on.
#[derive(Debug, Eq, PartialEq)]
pub struct Request {
    pub id: usize,
    pub offsets: Vec<Offset>,
    pub chip: String,
}

/// The handle names a live request of the device, with matching offsets.
pub open spec fn valid_request(s: Sim, req: Request) -> bool {
    &&& req.id < s.requests@.len()
    &&& s.requests@[req.id as int].alive
    &&& s.requests@[req.id as int].offsets@ == req.offsets@
}

/// What releasing a request does to one of its lines: ownership, the
/// consumer label and the per-request configuration are cleared and the
/// event counters reset; the line keeps its name, hog, pull, direction,
/// driven level and watch flag.
pub open spec fn released_line(l0: LineState, l1: LineState) -> bool {
    l1 == (LineState {
        owner: None,
        consumer: None,
        active_low: false,
        bias: None,
        drive: crate::line::Drive::PushPull,
        edge: None,
        event_clock: crate::line::EventClock::Monotonic,
        debounce_us: 0,
        line_generated: 0,
        line_delivered: 0,
        ..l0
    })
}

/// The settings carried by a config's entries, in entry order.
pub open spec fn config_settings(entries: Seq<(Offset, Settings)>) -> Seq<Settings> {
    Seq::new(entries.len(), |i: int| entries[i].1)
}

/// What reconfiguring one line with the given settings does: the entry's
/// properties are applied, with direction as-is keeping the line's current
/// direction and a pull-up or pull-down bias driving the line's pull; the
/// line keeps its owner, consumer, name, hog, watch flag and counters.
pub open spec fn reconfigured_line(l0: LineState, st: Settings, l1: LineState) -> bool {
    l1 == (LineState {
        direction: if st.direction == crate::line::Direction::AsIs {
            l0.direction
        } else {
            st.direction
        },
        active_low: st.active_low,
        bias: st.bias,
        drive: st.drive,
        edge: st.edge_detection,
        event_clock: st.event_clock,
        debounce_us: st.debounce_period_us,
        output_value: st.output_value,
        pull: match st.bias {
            Some(crate::line::Bias::PullUp) => crate::sim::Pull::Up,
            Some(crate::line::Bias::PullDown) => crate::sim::Pull::Down,
            _ => l0.pull,
        },
        ..l0
    })
}

/// A requested line was reconfigured per the config: with the entry naming
/// it when one exists, with the default settings otherwise.
pub open spec fn reconf_applied(
    l1: Seq<LineState>,
    l2: Seq<LineState>,
    entries: Seq<(Offset, Settings)>,
    o: Offset,
) -> bool {
    if exists|k: int| 0 <= k < entries.len() && (#[trigger] entries[k]).0 == o {
        forall|k: int|
            0 <= k < entries.len() && (#[trigger] entries[k]).0 == o ==> reconfigured_line(
                l1[o as int],
                entries[k].1,
                l2[o as int],
            )
    } else {
        reconfigured_line(l1[o as int], default_settings(), l2[o as int])
    }
}

/// Written output values read back: after values are stored to the lines
/// of an all-output request, as `set_values` stores them, a value read of
/// each line, as `value` and `values` compute it, returns exactly the
/// stored value.
pub proof fn lemma_set_values_round_trip(s1: Sim, s2: Sim, req: Request, vals: Seq<Value>)
    requires
        vals.len() == req.offsets@.len(),
        s2.lines@.len() == s1.lines@.len(),
        forall|i: int|
            0 <= i < req.offsets@.len() ==> (#[trigger] req.offsets@[i]) < s1.lines@.len(),
        forall|i: int|
            0 <= i < req.offsets@.len() ==> s1.lines@[(#[trigger] req.offsets@[i]) as int].direction
                == crate::line::Direction::Output,
        forall|i: int|
            0 <= i < req.offsets@.len() ==> s2.lines@[(#[trigger] req.offsets@[i]) as int] == (
            LineState { output_value: vals[i], ..s1.lines@[req.offsets@[i] as int] }),
    ensures
        forall|i: int|
            0 <= i < req.offsets@.len() ==> line_logical(
                s2.lines@[(#[trigger] req.offsets@[i]) as int],
            ) == vals[i],
{
}

impl Request {
    /// Get the name of the chip this request was made on.
    pub fn chip_name(&self) -> (r: Result<&str>)
        ensures
            r matches Ok(s) && s@ == self.chip@,
    {
        Ok(self.chip.as_str())
    }

    /// Get the number of lines in the request.
    pub fn num_lines(&self) -> (r: usize)
        ensures
            r == self.offsets@.len(),
    {
        self.offsets.len()
    }

    /// Get the offsets of the lines in the request, in request order.
    pub fn offsets(&self) -> (r: Vec<Offset>)
        ensures
            r@ == self.offsets@,
    {
        let mut out: Vec<Offset> = Vec::new();
        let mut i: usize = 0;
        while i < self.offsets.len()
            invariant
                i <= self.offsets@.len(),
                out@ == self.offsets@.take(i as int),
            decreases self.offsets@.len() - i,
        {
            out.push(self.offsets[i]);
            proof {
                assert(self.offsets@.take(i + 1).drop_last() =~= self.offsets@.take(i as int));
            }
            i = i + 1;
        }
        proof {
            assert(self.offsets@.take(self.offsets@.len() as int) =~= self.offsets@);
        }
        out
    }

    /// True when the request holds the given offset.
    #[verifier::loop_isolation(false)]
    fn holds_offset(&self, offset: Offset) -> (r: bool)
        ensures
            r == self.offsets@.contains(offset),
    {
        let mut i: usize = 0;
        while i < self.offsets.len()
            invariant
                i <= self.offsets@.len(),
                forall|k: int| 0 <= k < i ==> self.offsets@[k] != offset,
            decreases self.offsets@.len() - i,
        {
            if self.offsets[i] == offset {
                proof {
                    assert(self.offsets@[i as int] == offset);
                }
                return true;
            }
            i = i + 1;
        }
        false
    }

    /// All offsets the request holds lie within the device's line table.
    proof fn lemma_offsets_in_range(&self, sim: &Sim)
        requires
            sim.wf(),
            valid_request(*sim, *self),
        ensures
            forall|i: int|
                0 <= i < self.offsets@.len() ==> (#[trigger] self.offsets@[i])
                    < sim.lines@.len(),
            forall|i: int, j: int|
                0 <= i < j < self.offsets@.len() ==> self.offsets@[i] != self.offsets@[j],
    {
        assert(crate::sim::request_wf(sim.requests@[self.id as int], self.id as int, sim.lines@));
        reveal(crate::sim::request_wf);
        reveal(crate::sim::offsets_wf);
    }

    /// Get the logical value of a single requested line. Fails on an
    /// offset outside the request.
    pub fn value(&self, sim: &Sim, offset: Offset) -> (r: Result<Value>)
        requires
            sim.wf(),
            valid_request(*sim, *self),
        ensures
            !self.offsets@.contains(offset) ==> r == Err::<Value, Error>(
                Error::OperationFailed(OperationType::LineRequestGetVal, errno::Errno(EINVAL)),
            ),
            self.offsets@.contains(offset) ==> r == Ok::<Value, Error>(
                line_logical(sim.lines@[offset as int]),
            ),
    {
        if !self.holds_offset(offset) {
            return Err(
                Error::OperationFailed(OperationType::LineRequestGetVal, errno::Errno(EINVAL)),
            );
        }
        proof {
            self.lemma_offsets_in_range(sim);
            let i = choose|i: int|
                0 <= i < self.offsets@.len() && (#[trigger] self.offsets@[i]) == offset;
        }
        let l = &sim.lines[offset as usize];
        let logical = if matches!(l.direction, crate::line::Direction::Output) {
            l.output_value
        } else {
            let level = match l.pull {
                crate::sim::Pull::Up => Value::Active,
                crate::sim::Pull::Down => Value::InActive,
            };
            if l.active_low {
                match level {
                    Value::Active => Value::InActive,
                    Value::InActive => Value::Active,
                }
            } else {
                level
            }
        };
        Ok(logical)
    }

    /// Get the logical values of a subset of the requested lines, as a map
    /// from offset to value. Fails when any named offset lies outside the
    /// request.
    #[verifier::loop_isolation(false)]
    pub fn values_subset(&self, sim: &Sim, offsets: &[Offset]) -> (r: Result<ValueMap>)
        requires
            sim.wf(),
            valid_request(*sim, *self),
        ensures
            !(forall|i: int|
                0 <= i < offsets@.len() ==> self.offsets@.contains(#[trigger] offsets@[i])) ==> r
                == Err::<ValueMap, Error>(
                Error::OperationFailed(
                    OperationType::LineRequestGetValSubset,
                    errno::Errno(EINVAL),
                ),
            ),
            (forall|i: int|
                0 <= i < offsets@.len() ==> self.offsets@.contains(#[trigger] offsets@[i])) ==> (
            r matches Ok(m) && (forall|i: int|
                0 <= i < offsets@.len() ==> value_map_of(m).contains_key(#[trigger] offsets@[i])
                    && value_map_of(m)[offsets@[i]] == line_logical(
                    sim.lines@[offsets@[i] as int],
                )) && (forall|k: u32|
                value_map_of(m).contains_key(k) ==> offsets@.contains(k))),
    {
        let mut i: usize = 0;
        while i < offsets.len()
            invariant
                i <= offsets@.len(),
                forall|k: int| 0 <= k < i ==> self.offsets@.contains(#[trigger] offsets@[k]),
            decreases offsets@.len() - i,
        {
            if !self.holds_offset(offsets[i]) {
                return Err(
                    Error::OperationFailed(
                        OperationType::LineRequestGetValSubset,
                        errno::Errno(EINVAL),
                    ),
                );
            }
            i = i + 1;
        }
        let mut map = value_map_new();
        let mut i: usize = 0;
        while i < offsets.len()
            invariant
                i <= offsets@.len(),
                sim.wf(),
                valid_request(*sim, *self),
                forall|k: int| 0 <= k < offsets@.len() ==> self.offsets@.contains(#[trigger] offsets@[k]),
                forall|k: int|
                    0 <= k < i ==> value_map_of(map).contains_key(#[trigger] offsets@[k])
                        && value_map_of(map)[offsets@[k]] == line_logical(
                        sim.lines@[offsets@[k] as int],
                    ),
                forall|k: u32| value_map_of(map).contains_key(k) ==> offsets@.contains(k),
            decreases offsets@.len() - i,
        {
            let v = self.value(sim, offsets[i])?;
            value_map_insert(&mut map, offsets[i], v);
            proof {
                assert(offsets@.contains(offsets@[i as int]));
            }
            i = i + 1;
        }
        Ok(map)
    }

    /// Get the logical values of all requested lines, as a map from offset
    /// to value.
    pub fn values(&self, sim: &Sim) -> (r: Result<ValueMap>)
        requires
            sim.wf(),
            valid_request(*sim, *self),
        ensures
            r matches Ok(m) && (forall|i: int|
                0 <= i < self.offsets@.len() ==> value_map_of(m).contains_key(
                    #[trigger] self.offsets@[i],
                ) && value_map_of(m)[self.offsets@[i]] == line_logical(
                    sim.lines@[self.offsets@[i] as int],
                )) && (forall|k: u32|
                value_map_of(m).contains_key(k) ==> self.offsets@.contains(k)),
    {
        let offs = self.offsets();
        proof {
            assert forall|i: int|
                0 <= i < offs@.len() implies self.offsets@.contains(#[trigger] offs@[i]) by {
                assert(self.offsets@[i] == offs@[i]);
            }
        }
        self.values_subset(sim, offs.as_slice())
    }

    /// Set the driven output value of a single requested line. Fails on an
    /// offset outside the request.
    pub fn set_value(&mut self, sim: &mut Sim, offset: Offset, value: Value) -> (r: Result<()>)
        requires
            old(sim).wf(),
            valid_request(*old(sim), *old(self)),
        ensures
            *final(self) == *old(self),
            final(sim).wf(),
            !old(self).offsets@.contains(offset) ==> r == Err::<(), Error>(
                Error::OperationFailed(OperationType::LineRequestSetVal, errno::Errno(EINVAL)),
            ) && *final(sim) == *old(sim),
            old(self).offsets@.contains(offset) ==> r is Ok && final(sim).lines@ == old(
                sim,
            ).lines@.update(
                offset as int,
                (LineState { output_value: value, ..old(sim).lines@[offset as int] }),
            ) && *final(sim) == (Sim { lines: final(sim).lines, ..*old(sim) }),
    {
        if !self.holds_offset(offset) {
            return Err(
                Error::OperationFailed(OperationType::LineRequestSetVal, errno::Errno(EINVAL)),
            );
        }
        let ghost s0 = *sim;
        proof {
            self.lemma_offsets_in_range(sim);
            let i = choose|i: int|
                0 <= i < self.offsets@.len() && (#[trigger] self.offsets@[i]) == offset;
        }
        sim.lines[offset as usize].output_value = value;
        proof {
            crate::sim::lemma_wf_same_counters(s0, *sim);
        }
        Ok(())
    }

    /// Set the driven output values of all requested lines, in request
    /// order. Fails with invalid arguments when the list's length differs
    /// from the request's line count.
    pub fn set_values(&mut self, sim: &mut Sim, values: &[Value]) -> (r: Result<()>)
        requires
            old(sim).wf(),
            valid_request(*old(sim), *old(self)),
        ensures
            *final(self) == *old(self),
            final(sim).wf(),
            r is Ok <==> values@.len() == old(self).offsets@.len(),
            values@.len() != old(self).offsets@.len() ==> r == Err::<(), Error>(
                Error::InvalidArguments,
            ) && *final(sim) == *old(sim),
            values@.len() == old(self).offsets@.len() ==> {
                &&& final(sim).lines@.len() == old(sim).lines@.len()
                &&& (forall|i: int|
                    0 <= i < old(self).offsets@.len() ==> final(sim).lines@[(
                    #[trigger] old(self).offsets@[i]) as int] == (LineState {
                        output_value: values@[i],
                        ..old(sim).lines@[old(self).offsets@[i] as int]
                    }))
                &&& (forall|o: int|
                    0 <= o < old(sim).lines@.len() && !old(self).offsets@.contains(o as u32)
                        ==> #[trigger] final(sim).lines@[o] == old(sim).lines@[o])
                &&& *final(sim) == (Sim { lines: final(sim).lines, ..*old(sim) })
            },
    {
        if values.len() != self.offsets.len() {
            return Err(Error::InvalidArguments);
        }
        let ghost s0 = *sim;
        proof {
            self.lemma_offsets_in_range(sim);
        }
        let mut i: usize = 0;
        while i < self.offsets.len()
            invariant
                i <= self.offsets@.len(),
                values@.len() == self.offsets@.len(),
                sim.lines@.len() == s0.lines@.len(),
                *sim == (Sim { lines: sim.lines, ..s0 }),
                forall|k: int|
                    0 <= k < self.offsets@.len() ==> (#[trigger] self.offsets@[k])
                        < s0.lines@.len(),
                forall|k: int, j: int|
                    0 <= k < j < self.offsets@.len() ==> self.offsets@[k] != self.offsets@[j],
                forall|k: int|
                    0 <= k < i ==> sim.lines@[(#[trigger] self.offsets@[k]) as int] == (LineState {
                        output_value: values@[k],
                        ..s0.lines@[self.offsets@[k] as int]
                    }),
                forall|o: int|
                    0 <= o < s0.lines@.len() && (forall|k: int|
                        0 <= k < i ==> (#[trigger] self.offsets@[k]) != o) ==> sim.lines@[o]
                        == s0.lines@[o],
            decreases self.offsets@.len() - i,
        {
            let o = self.offsets[i];
            sim.lines[o as usize].output_value = values[i];
            i = i + 1;
        }
        proof {
            assert forall|o: int|
                0 <= o < s0.lines@.len() && !self.offsets@.contains(o as u32)
                implies #[trigger] sim.lines@[o] == s0.lines@[o] by {
                assert forall|k: int|
                    0 <= k < self.offsets@.len() implies (#[trigger] self.offsets@[k]) != o by {
                    if self.offsets@[k] == o {
                        assert(self.offsets@.contains(o as u32));
                    }
                }
            }
            assert forall|o: int|
                0 <= o < s0.lines@.len() implies crate::sim::same_counters(
                s0.lines@[o],
                #[trigger] sim.lines@[o],
            ) by {
                if exists|k: int|
                    0 <= k < self.offsets@.len() && (#[trigger] self.offsets@[k]) == o {
                    let k = choose|k: int|
                        0 <= k < self.offsets@.len() && (#[trigger] self.offsets@[k]) == o;
                    assert(sim.lines@[self.offsets@[k] as int] == (LineState {
                        output_value: values@[k],
                        ..s0.lines@[self.offsets@[k] as int]
                    }));
                } else {
                    assert(sim.lines@[o] == s0.lines@[o]);
                }
            }
            crate::sim::lemma_wf_same_counters(s0, *sim);
        }
        Ok(())
    }

    /// Set the driven output values of a subset of the requested lines,
    /// given as a map from offset to value. Fails when any key lies
    /// outside the request.
    #[verifier::loop_isolation(false)]
    pub fn set_values_subset(&mut self, sim: &mut Sim, map: ValueMap) -> (r: Result<()>)
        requires
            old(sim).wf(),
            valid_request(*old(sim), *old(self)),
        ensures
            *final(self) == *old(self),
            final(sim).wf(),
            !(forall|k: u32|
                value_map_of(map).contains_key(k) ==> old(self).offsets@.contains(k)) ==> r
                == Err::<(), Error>(
                Error::OperationFailed(
                    OperationType::LineRequestSetValSubset,
                    errno::Errno(EINVAL),
                ),
            ) && *final(sim) == *old(sim),
            (forall|k: u32|
                value_map_of(map).contains_key(k) ==> old(self).offsets@.contains(k)) ==> {
                &&& r is Ok
                &&& final(sim).lines@.len() == old(sim).lines@.len()
                &&& (forall|k: u32|
                    value_map_of(map).contains_key(k) ==> final(sim).lines@[k as int] == (
                    LineState {
                        output_value: value_map_of(map)[k],
                        ..old(sim).lines@[k as int]
                    }))
                &&& (forall|o: int|
                    0 <= o < old(sim).lines@.len() && !value_map_of(map).contains_key(o as u32)
                        ==> #[trigger] final(sim).lines@[o] == old(sim).lines@[o])
                &&& *final(sim) == (Sim { lines: final(sim).lines, ..*old(sim) })
            },
    {
        let entries = value_map_entries(&map);
        let mut i: usize = 0;
        while i < entries.len()
            invariant
                i <= entries@.len(),
                forall|k: int|
                    0 <= k < entries@.len() ==> value_map_of(map).contains_key(
                        (#[trigger] entries@[k]).0,
                    ) && value_map_of(map)[entries@[k].0] == entries@[k].1,
                forall|k: int| 0 <= k < i ==> self.offsets@.contains((#[trigger] entries@[k]).0),
            decreases entries@.len() - i,
        {
            if !self.holds_offset(entries[i].0) {
                proof {
                    assert(value_map_of(map).contains_key(entries@[i as int].0));
                }
                return Err(
                    Error::OperationFailed(
                        OperationType::LineRequestSetValSubset,
                        errno::Errno(EINVAL),
                    ),
                );
            }
            i = i + 1;
        }
        proof {
            assert forall|k: u32|
                value_map_of(map).contains_key(k) implies self.offsets@.contains(k) by {
                let j = choose|j: int| 0 <= j < entries@.len() && (#[trigger] entries@[j]).0 == k;
            }
        }
        let ghost s0 = *sim;
        proof {
            self.lemma_offsets_in_range(sim);
        }
        let mut i: usize = 0;
        while i < entries.len()
            invariant
                i <= entries@.len(),
                sim.lines@.len() == s0.lines@.len(),
                *sim == (Sim { lines: sim.lines, ..s0 }),
                forall|k: int|
                    0 <= k < entries@.len() ==> value_map_of(map).contains_key(
                        (#[trigger] entries@[k]).0,
                    ) && value_map_of(map)[entries@[k].0] == entries@[k].1,
                forall|k: int| 0 <= k < entries@.len() ==> self.offsets@.contains((#[trigger] entries@[k]).0),
                forall|k: int, j: int| 0 <= k < j < entries@.len() ==> entries@[k].0 != entries@[j].0,
                forall|k: int|
                    0 <= k < self.offsets@.len() ==> (#[trigger] self.offsets@[k])
                        < s0.lines@.len(),
                forall|k: int|
                    0 <= k < i ==> sim.lines@[(#[trigger] entries@[k]).0 as int] == (LineState {
                        output_value: entries@[k].1,
                        ..s0.lines@[entries@[k].0 as int]
                    }),
                forall|o: int|
                    0 <= o < s0.lines@.len() && (forall|k: int|
                        0 <= k < i ==> (#[trigger] entries@[k]).0 != o) ==> sim.lines@[o]
                        == s0.lines@[o],
            decreases entries@.len() - i,
        {
            let (o, v) = entries[i];
            proof {
                assert(self.offsets@.contains(entries@[i as int].0));
                let oo = entries@[i as int].0;
                let j = choose|j: int|
                    0 <= j < self.offsets@.len() && (#[trigger] self.offsets@[j]) == oo;
            }
            sim.lines[o as usize].output_value = v;
            i = i + 1;
        }
        proof {
            assert forall|k: u32| value_map_of(map).contains_key(k) implies sim.lines@[k as int]
                == (LineState { output_value: value_map_of(map)[k], ..s0.lines@[k as int] }) by {
                let j = choose|j: int| 0 <= j < entries@.len() && (#[trigger] entries@[j]).0 == k;
                assert(sim.lines@[entries@[j].0 as int] == (LineState {
                    output_value: entries@[j].1,
                    ..s0.lines@[entries@[j].0 as int]
                }));
            }
            assert forall|o: int|
                0 <= o < s0.lines@.len() && !value_map_of(map).contains_key(o as u32)
                implies #[trigger] sim.lines@[o] == s0.lines@[o] by {
                assert forall|k: int|
                    0 <= k < entries@.len() implies (#[trigger] entries@[k]).0 != o by {
                    assert(value_map_of(map).contains_key(entries@[k].0));
                }
            }
            assert forall|o: int|
                0 <= o < s0.lines@.len() implies crate::sim::same_counters(
                s0.lines@[o],
                #[trigger] sim.lines@[o],
            ) by {
                if exists|k: int| 0 <= k < entries@.len() && (#[trigger] entries@[k]).0 == o {
                    let k = choose|k: int|
                        0 <= k < entries@.len() && (#[trigger] entries@[k]).0 == o;
                    assert(sim.lines@[entries@[k].0 as int] == (LineState {
                        output_value: entries@[k].1,
                        ..s0.lines@[entries@[k].0 as int]
                    }));
                } else {
                    assert(sim.lines@[o] == s0.lines@[o]);
                }
            }
            crate::sim::lemma_wf_same_counters(s0, *sim);
        }
        Ok(())
    }

    /// Read up to the buffer's capacity of queued edge events into the
    /// buffer, overwriting all prior slot contents. Fails when no event is
    /// queued, where a blocking reader would wait.
    pub fn read_edge_events<'a>(&self, sim: &mut Sim, buffer: &'a mut crate::event_buffer::Buffer)
        -> (r: Result<crate::event_buffer::Events<'a>>)
        requires
            old(buffer).wf(),
            old(sim).wf(),
            valid_request(*old(sim), *self),
        ensures
            final(sim).wf(),
            final(buffer).wf(),
            old(sim).requests@[self.id as int].queue@.len() == 0 ==> r == Err::<
                crate::event_buffer::Events<'a>,
                Error,
            >(
                Error::OperationFailed(
                    OperationType::LineRequestReadEdgeEvent,
                    errno::Errno(crate::EAGAIN),
                ),
            ) && *final(sim) == *old(sim) && *final(buffer) == *old(buffer),
            old(sim).requests@[self.id as int].queue@.len() > 0 ==> {
                let q0 = old(sim).requests@[self.id as int].queue@;
                let n = if q0.len() <= old(buffer).cap {
                    q0.len() as int
                } else {
                    old(buffer).cap as int
                };
                &&& (r matches Ok(ev) && ev.read_index == 0 && ev.len == n && ev.buffer.slots@
                    == q0.subrange(0, n))
                &&& final(buffer).cap == old(buffer).cap
                &&& final(buffer).slots@ == q0.subrange(0, n)
                &&& final(sim).requests@.len() == old(sim).requests@.len()
                &&& (forall|rr: int|
                    0 <= rr < old(sim).requests@.len() && rr != self.id
                        ==> #[trigger] final(sim).requests@[rr] == old(sim).requests@[rr])
                &&& final(sim).requests@[self.id as int].alive
                &&& final(sim).requests@[self.id as int].offsets == old(
                    sim,
                ).requests@[self.id as int].offsets
                &&& final(sim).requests@[self.id as int].delivered == old(
                    sim,
                ).requests@[self.id as int].delivered + n
                &&& final(sim).requests@[self.id as int].queue@ == q0.subrange(n, q0.len() as int)
                &&& final(sim).lines@.len() == old(sim).lines@.len()
                &&& (forall|o: int|
                    0 <= o < old(sim).lines@.len() ==> #[trigger] final(sim).lines@[o] == (
                    LineState {
                        line_delivered: final(sim).lines@[o].line_delivered,
                        ..old(sim).lines@[o]
                    }))
                &&& *final(sim) == (Sim {
                    lines: final(sim).lines,
                    requests: final(sim).requests,
                    ..*old(sim)
                })
            },
    {
        buffer.read_edge_events(sim, self)
    }

    /// Release the request: the kernel grant ends, its lines return to
    /// their unheld state (keeping their direction and driven level), any
    /// unread edge events are dropped, and a LineReleased event is queued
    /// for each watched line of the request.
    #[verifier::rlimit(100)]
    #[verifier::spinoff_prover]
    #[verifier::loop_isolation(false)]
    pub fn release(self, sim: &mut Sim)
        requires
            old(sim).wf(),
            old(sim).can_step(),
            valid_request(*old(sim), self),
        ensures
            final(sim).wf(),
            final(sim).requests@.len() == old(sim).requests@.len(),
            (forall|rr: int|
                0 <= rr < old(sim).requests@.len() && rr != self.id ==> final(sim).requests@[rr]
                    == #[trigger] old(sim).requests@[rr]),
            !final(sim).requests@[self.id as int].alive,
            final(sim).requests@[self.id as int].queue@.len() == 0,
            final(sim).lines@.len() == old(sim).lines@.len(),
            (forall|i: int|
                0 <= i < self.offsets@.len() ==> released_line(
                    old(sim).lines@[(#[trigger] self.offsets@[i]) as int],
                    final(sim).lines@[self.offsets@[i] as int],
                )),
            (forall|o: int|
                0 <= o < old(sim).lines@.len() && !self.offsets@.contains(o as u32)
                    ==> #[trigger] final(sim).lines@[o] == old(sim).lines@[o]),
            final(sim).name == old(sim).name,
            final(sim).path == old(sim).path,
            final(sim).label == old(sim).label,
            final(sim).enabled == old(sim).enabled,
            final(sim).now_ns >= old(sim).now_ns,
            final(sim).info_queue@.len() >= old(sim).info_queue@.len(),
            (forall|k: int|
                0 <= k < old(sim).info_queue@.len() ==> #[trigger] final(sim).info_queue@[k]
                    == old(sim).info_queue@[k]),
            (forall|k: int|
                old(sim).info_queue@.len() <= k < final(sim).info_queue@.len()
                    ==> (#[trigger] final(sim).info_queue@[k]).kind
                    == crate::line::InfoChangeKind::LineReleased),
    {
        let ghost s0 = *sim;
        let rid = self.id;
        proof {
            self.lemma_offsets_in_range(sim);
            assert(self.offsets@.len() <= 64) by {
                assert(crate::sim::request_wf(s0.requests@[rid as int], rid as int, s0.lines@));
                reveal(crate::sim::request_wf);
                reveal(crate::sim::offsets_wf);
            }
        }
        sim.requests[rid].alive = false;
        sim.requests[rid].queue.clear();
        let mut i: usize = 0;
        while i < self.offsets.len()
            invariant
                i <= self.offsets@.len(),
                sim.lines@.len() == s0.lines@.len(),
                sim.requests@.len() == s0.requests@.len(),
                forall|rr: int|
                    0 <= rr < s0.requests@.len() && rr != rid ==> #[trigger] sim.requests@[rr]
                        == s0.requests@[rr],
                !sim.requests@[rid as int].alive,
                sim.requests@[rid as int].queue@.len() == 0,
                forall|k: int|
                    0 <= k < self.offsets@.len() ==> (#[trigger] self.offsets@[k])
                        < s0.lines@.len(),
                forall|k: int, j: int|
                    0 <= k < j < self.offsets@.len() ==> self.offsets@[k] != self.offsets@[j],
                forall|k: int|
                    0 <= k < i ==> released_line(
                        s0.lines@[(#[trigger] self.offsets@[k]) as int],
                        sim.lines@[self.offsets@[k] as int],
                    ),
                forall|o: int|
                    0 <= o < s0.lines@.len() && (forall|k: int|
                        0 <= k < i ==> (#[trigger] self.offsets@[k]) != o) ==> sim.lines@[o]
                        == s0.lines@[o],
                *sim == (Sim { lines: sim.lines, requests: sim.requests, ..s0 }),
            decreases self.offsets@.len() - i,
        {
            let o = self.offsets[i] as usize;
            sim.lines[o].owner = None;
            sim.lines[o].consumer = None;
            sim.lines[o].active_low = false;
            sim.lines[o].bias = None;
            sim.lines[o].drive = crate::line::Drive::PushPull;
            sim.lines[o].edge = None;
            sim.lines[o].event_clock = crate::line::EventClock::Monotonic;
            sim.lines[o].debounce_us = 0;
            sim.lines[o].line_generated = 0;
            sim.lines[o].line_delivered = 0;
            i = i + 1;
        }
        proof {
            assert forall|i: int|
                0 <= i < self.offsets@.len() implies (#[trigger] sim.lines@[self.offsets@[i] as int]).owner
                is None && sim.lines@[self.offsets@[i] as int].line_generated == 0
                && sim.lines@[self.offsets@[i] as int].line_delivered == 0 by {
                assert(released_line(
                    s0.lines@[self.offsets@[i] as int],
                    sim.lines@[self.offsets@[i] as int],
                ));
            }
            assert forall|o: int|
                0 <= o < s0.lines@.len() && !self.offsets@.contains(o as u32)
                implies #[trigger] sim.lines@[o] == s0.lines@[o] by {
                assert forall|k: int|
                    0 <= k < self.offsets@.len() implies (#[trigger] self.offsets@[k]) != o by {
                    if self.offsets@[k] == o {
                        assert(self.offsets@.contains(o as u32));
                    }
                }
            }
            crate::sim::lemma_wf_released(s0, *sim, rid as int, self.offsets@);
        }
        let ghost mid = *sim;
        let mut t: usize = 0;
        while t < self.offsets.len()
            invariant
                t <= self.offsets@.len(),
                self.offsets@.len() <= 64,
                sim.lines@.len() == mid.lines@.len(),
                forall|k: int|
                    0 <= k < self.offsets@.len() ==> (#[trigger] self.offsets@[k])
                        < mid.lines@.len(),
                *sim == (Sim { info_queue: sim.info_queue, now_ns: sim.now_ns, ..mid }),
                mid.now_ns + 64 <= u64::MAX,
                mid.info_queue@.len() + 64 <= usize::MAX,
                mid.now_ns <= sim.now_ns <= mid.now_ns + t,
                mid.info_queue@.len() <= sim.info_queue@.len() <= mid.info_queue@.len() + t,
                forall|k: int|
                    0 <= k < mid.info_queue@.len() ==> #[trigger] sim.info_queue@[k]
                        == mid.info_queue@[k],
                forall|k: int|
                    mid.info_queue@.len() <= k < sim.info_queue@.len()
                        ==> (#[trigger] sim.info_queue@[k]).kind
                        == crate::line::InfoChangeKind::LineReleased,
                sim.wf(),
            decreases self.offsets@.len() - t,
        {
            let ghost smid = *sim;
            let o = self.offsets[t];
            if sim.lines[o as usize].watched {
                sim.now_ns = sim.now_ns + 1;
                let snap = crate::chip::snapshot_line(&sim.lines[o as usize], o);
                sim.info_queue.push(
                    crate::info_event::Event {
                        kind: crate::line::InfoChangeKind::LineReleased,
                        timestamp_ns: sim.now_ns,
                        snapshot: snap,
                    },
                );
                proof {
                    crate::sim::lemma_wf_same_counters(smid, *sim);
                }
            }
            t = t + 1;
        }
    }

    /// Replace the configuration of the requested lines: each line named by
    /// the config takes that entry's settings, every other requested line
    /// returns to the default settings; direction as-is keeps a line's
    /// current direction, and a pull-up or pull-down bias drives the line's
    /// pull. Fails with the too-many-attributes condition when the config
    /// needs more per-call attribute slots than the kernel ABI carries, and
    /// with an invalid-offset condition when the config names a line
    /// outside the request or asks for edge detection on an output line.
    /// A LineConfigChanged event is queued for each watched requested line.
    #[verifier::rlimit(100)]
    #[verifier::spinoff_prover]
    #[verifier::loop_isolation(false)]
    pub fn reconfigure_lines(&mut self, sim: &mut Sim, lconfig: &Config) -> (r: Result<()>)
        requires
            old(sim).wf(),
            old(sim).can_step(),
            valid_request(*old(sim), *old(self)),
            lconfig.wf(),
        ensures
            *final(self) == *old(self),
            final(sim).wf(),
            uapi_slots(config_settings(lconfig.entries@)) > 10 ==> r == Err::<(), Error>(
                Error::OperationFailed(
                    OperationType::LineRequestReconfigLines,
                    errno::Errno(E2BIG),
                ),
            ) && *final(sim) == *old(sim),
            uapi_slots(config_settings(lconfig.entries@)) <= 10 && !(forall|k: int|
                0 <= k < lconfig.entries@.len() ==> old(self).offsets@.contains(
                    (#[trigger] lconfig.entries@[k]).0,
                ) && !((#[trigger] lconfig.entries@[k]).1.edge_detection is Some
                && lconfig.entries@[k].1.direction == crate::line::Direction::Output)) ==> r
                == Err::<(), Error>(
                Error::OperationFailed(
                    OperationType::LineRequestReconfigLines,
                    errno::Errno(EINVAL),
                ),
            ) && *final(sim) == *old(sim),
            uapi_slots(config_settings(lconfig.entries@)) <= 10 && (forall|k: int|
                0 <= k < lconfig.entries@.len() ==> old(self).offsets@.contains(
                    (#[trigger] lconfig.entries@[k]).0,
                ) && !((#[trigger] lconfig.entries@[k]).1.edge_detection is Some
                && lconfig.entries@[k].1.direction == crate::line::Direction::Output)) ==> {
                &&& r is Ok
                &&& final(sim).lines@.len() == old(sim).lines@.len()
                &&& (forall|i: int|
                    0 <= i < old(self).offsets@.len() ==> reconf_applied(
                        old(sim).lines@,
                        final(sim).lines@,
                        lconfig.entries@,
                        #[trigger] old(self).offsets@[i],
                    ))
                &&& (forall|o: int|
                    0 <= o < old(sim).lines@.len() && !old(self).offsets@.contains(o as u32)
                        ==> #[trigger] final(sim).lines@[o] == old(sim).lines@[o])
                &&& final(sim).requests@ == old(sim).requests@
                &&& final(sim).name == old(sim).name
                &&& final(sim).path == old(sim).path
                &&& final(sim).label == old(sim).label
                &&& final(sim).enabled == old(sim).enabled
                &&& final(sim).now_ns >= old(sim).now_ns
                &&& final(sim).info_queue@.len() >= old(sim).info_queue@.len()
                &&& (forall|k: int|
                    0 <= k < old(sim).info_queue@.len() ==> #[trigger] final(sim).info_queue@[k]
                        == old(sim).info_queue@[k])
                &&& (forall|k: int|
                    old(sim).info_queue@.len() <= k < final(sim).info_queue@.len()
                        ==> (#[trigger] final(sim).info_queue@[k]).kind
                        == crate::line::InfoChangeKind::LineConfigChanged)
            },
    {
        let ghost entries = lconfig.entries@;
        let mut settings_list: Vec<Settings> = Vec::new();
        let mut j: usize = 0;
        while j < lconfig.entries.len()
            invariant
                j <= entries.len(),
                settings_list@.len() == j,
                forall|k: int| 0 <= k < j ==> settings_list@[k] == (#[trigger] entries[k]).1,
            decreases entries.len() - j,
        {
            let (_, st) = lconfig.entries[j];
            settings_list.push(st);
            j = j + 1;
        }
        proof {
            assert(settings_list@ =~= config_settings(entries));
        }
        let slots = count_uapi_slots(&settings_list);
        if slots > 10 {
            return Err(
                Error::OperationFailed(
                    OperationType::LineRequestReconfigLines,
                    errno::Errno(E2BIG),
                ),
            );
        }
        let mut k: usize = 0;
        while k < lconfig.entries.len()
            invariant
                k <= entries.len(),
                forall|t: int|
                    0 <= t < k ==> self.offsets@.contains((#[trigger] entries[t]).0) && !((
                    #[trigger] entries[t]).1.edge_detection is Some && entries[t].1.direction
                        == crate::line::Direction::Output),
            decreases entries.len() - k,
        {
            let (o, st) = lconfig.entries[k];
            if !self.holds_offset(o) || (st.edge_detection.is_some() && matches!(
                st.direction,
                crate::line::Direction::Output,
            )) {
                return Err(
                    Error::OperationFailed(
                        OperationType::LineRequestReconfigLines,
                        errno::Errno(EINVAL),
                    ),
                );
            }
            k = k + 1;
        }
        let ghost s0 = *sim;
        proof {
            self.lemma_offsets_in_range(sim);
            assert(self.offsets@.len() <= 64) by {
                assert(crate::sim::request_wf(s0.requests@[self.id as int], self.id as int, s0.lines@));
                reveal(crate::sim::request_wf);
                reveal(crate::sim::offsets_wf);
            }
        }
        let mut i: usize = 0;
        while i < self.offsets.len()
            invariant
                i <= self.offsets@.len(),
                lconfig.entries@ == entries,
                crate::line_config::entries_wf(entries),
                sim.lines@.len() == s0.lines@.len(),
                *sim == (Sim { lines: sim.lines, ..s0 }),
                forall|kk: int|
                    0 <= kk < self.offsets@.len() ==> (#[trigger] self.offsets@[kk])
                        < s0.lines@.len(),
                forall|kk: int, jj: int|
                    0 <= kk < jj < self.offsets@.len() ==> self.offsets@[kk] != self.offsets@[jj],
                forall|t: int|
                    0 <= t < i ==> reconf_applied(
                        s0.lines@,
                        sim.lines@,
                        entries,
                        #[trigger] self.offsets@[t],
                    ),
                forall|o: int|
                    0 <= o < s0.lines@.len() && (forall|kk: int|
                        0 <= kk < i ==> (#[trigger] self.offsets@[kk]) != o) ==> sim.lines@[o]
                        == s0.lines@[o],
            decreases self.offsets@.len() - i,
        {
            let o = self.offsets[i];
            let mut st = Settings {
                direction: crate::line::Direction::AsIs,
                edge_detection: None,
                bias: None,
                drive: crate::line::Drive::PushPull,
                active_low: false,
                debounce_period_us: 0,
                event_clock: crate::line::EventClock::Monotonic,
                output_value: crate::line::Value::InActive,
            };
            let mut found = false;
            let mut k: usize = 0;
            while k < lconfig.entries.len()
                invariant
                    k <= entries.len(),
                    lconfig.entries@ == entries,
                    !found ==> st == default_settings() && (forall|t: int|
                        0 <= t < k ==> (#[trigger] entries[t]).0 != o),
                    found ==> exists|t: int|
                        0 <= t < k && (#[trigger] entries[t]).0 == o && st == entries[t].1,
                decreases entries.len() - k,
            {
                let (eo, est) = lconfig.entries[k];
                if eo == o {
                    st = est;
                    found = true;
                    proof {
                        assert(entries[k as int].0 == o && st == entries[k as int].1);
                    }
                }
                k = k + 1;
            }
            let ou = o as usize;
            let dir0 = sim.lines[ou].direction;
            sim.lines[ou].direction = if matches!(st.direction, crate::line::Direction::AsIs) {
                dir0
            } else {
                st.direction
            };
            sim.lines[ou].active_low = st.active_low;
            sim.lines[ou].bias = st.bias;
            sim.lines[ou].drive = st.drive;
            sim.lines[ou].edge = st.edge_detection;
            sim.lines[ou].event_clock = st.event_clock;
            sim.lines[ou].debounce_us = st.debounce_period_us;
            sim.lines[ou].output_value = st.output_value;
            let pull0 = sim.lines[ou].pull;
            sim.lines[ou].pull = match st.bias {
                Some(crate::line::Bias::PullUp) => crate::sim::Pull::Up,
                Some(crate::line::Bias::PullDown) => crate::sim::Pull::Down,
                _ => pull0,
            };
            proof {
                assert(reconfigured_line(s0.lines@[o as int], st, sim.lines@[o as int]));
                assert(reconf_applied(s0.lines@, sim.lines@, entries, o)) by {
                    if found {
                        let t = choose|t: int|
                            0 <= t < entries.len() && (#[trigger] entries[t]).0 == o && st
                                == entries[t].1;
                        assert forall|kk: int|
                            0 <= kk < entries.len() && (#[trigger] entries[kk]).0 == o
                            implies entries[kk].1 == st by {
                            assert(crate::line_config::entries_wf(entries));
                        }
                    }
                }
                assert forall|t: int|
                    0 <= t < i implies reconf_applied(
                    s0.lines@,
                    sim.lines@,
                    entries,
                    #[trigger] self.offsets@[t],
                ) by {
                    assert(self.offsets@[t] != o);
                }
            }
            i = i + 1;
        }
        proof {
            assert forall|o: int|
                0 <= o < s0.lines@.len() implies crate::sim::same_counters(
                s0.lines@[o],
                #[trigger] sim.lines@[o],
            ) by {
                if exists|kk: int|
                    0 <= kk < self.offsets@.len() && (#[trigger] self.offsets@[kk]) == o {
                    let kk = choose|kk: int|
                        0 <= kk < self.offsets@.len() && (#[trigger] self.offsets@[kk]) == o;
                    assert(reconf_applied(s0.lines@, sim.lines@, entries, self.offsets@[kk]));
                } else {
                    assert(sim.lines@[o] == s0.lines@[o]);
                }
            }
            crate::sim::lemma_wf_same_counters(s0, *sim);
            assert forall|o: int|
                0 <= o < s0.lines@.len() && !self.offsets@.contains(o as u32)
                implies #[trigger] sim.lines@[o] == s0.lines@[o] by {
                assert forall|kk: int|
                    0 <= kk < self.offsets@.len() implies (#[trigger] self.offsets@[kk]) != o by {
                    if self.offsets@[kk] == o {
                        assert(self.offsets@.contains(o as u32));
                    }
                }
            }
        }
        let ghost mid = *sim;
        let mut t: usize = 0;
        while t < self.offsets.len()
            invariant
                t <= self.offsets@.len(),
                self.offsets@.len() <= 64,
                sim.lines@.len() == mid.lines@.len(),
                forall|kk: int|
                    0 <= kk < self.offsets@.len() ==> (#[trigger] self.offsets@[kk])
                        < mid.lines@.len(),
                *sim == (Sim { info_queue: sim.info_queue, now_ns: sim.now_ns, ..mid }),
                mid.now_ns + 64 <= u64::MAX,
                mid.info_queue@.len() + 64 <= usize::MAX,
                mid.now_ns <= sim.now_ns <= mid.now_ns + t,
                mid.info_queue@.len() <= sim.info_queue@.len() <= mid.info_queue@.len() + t,
                forall|k2: int|
                    0 <= k2 < mid.info_queue@.len() ==> #[trigger] sim.info_queue@[k2]
                        == mid.info_queue@[k2],
                forall|k2: int|
                    mid.info_queue@.len() <= k2 < sim.info_queue@.len()
                        ==> (#[trigger] sim.info_queue@[k2]).kind
                        == crate::line::InfoChangeKind::LineConfigChanged,
                sim.wf(),
            decreases self.offsets@.len() - t,
        {
            let ghost smid = *sim;
            let o = self.offsets[t];
            if sim.lines[o as usize].watched {
                sim.now_ns = sim.now_ns + 1;
                let snap = crate::chip::snapshot_line(&sim.lines[o as usize], o);
                sim.info_queue.push(
                    crate::info_event::Event {
                        kind: crate::line::InfoChangeKind::LineConfigChanged,
                        timestamp_ns: sim.now_ns,
                        snapshot: snap,
                    },
                );
                proof {
                    crate::sim::lemma_wf_same_counters(smid, *sim);
                }
            }
            t = t + 1;
        }
        Ok(())
    }

    /// Wait for edge events on any of the requested lines: reports whether
    /// at least one event is queued. A timeout of `None` asks to block
    /// until one arrives; the model reports the queue state immediately
    /// either way, so a waiter that would block forever reports false.
    pub fn wait_edge_events(&self, sim: &Sim, timeout: Option<Duration>) -> (r: Result<bool>)
        requires
            valid_request(*sim, *self),
        ensures
            r == Ok::<bool, Error>(sim.requests@[self.id as int].queue@.len() > 0),
    {
        let _ = timeout;
        Ok(sim.requests[self.id].queue.len() > 0)
    }
}

} // verus!
