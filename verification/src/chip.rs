//! GPIO chips: an open handle to a device, exposing chip metadata, line
//! info snapshots and watches, the info-event stream, and line request
//! creation.

use vstd::prelude::*;
use crate::info_event;
use crate::line;
use crate::line_info::Info as LineInfo;
use crate::line_request::Request;
use crate::request_config;
use crate::sim::{LineState, Sim};
use crate::{Error, OperationType, Result, EAGAIN, EBUSY, EINVAL, ENODEV, ENOENT};

verus! {

/// GPIO chip information snapshot.
#[derive(Debug)]
pub struct Info {
    pub name: String,
    pub label: String,
    pub num_lines: usize,
}

impl Info {
    /// Get the chip name as represented in the kernel.
    pub fn name(&self) -> (r: Result<&str>)
        ensures
            r matches Ok(s) && s@ == self.name@,
    {
        Ok(self.name.as_str())
    }

    /// Get the chip label as represented in the kernel.
    pub fn label(&self) -> (r: Result<&str>)
        ensures
            r matches Ok(s) && s@ == self.label@,
    {
        Ok(self.label.as_str())
    }

    /// Get the number of lines exposed by the chip.
    pub fn num_lines(&self) -> (r: usize)
        ensures
            r == self.num_lines,
    {
        self.num_lines
    }
}

/// The line info snapshot a chip reports for one line of the device.
pub open spec fn info_of_line(l: LineState, offset: line::Offset, info: LineInfo) -> bool {
    &&& info.offset == offset
    &&& (match l.name {
        Some(n) => info.name matches Some(m) && m@ == n@,
        None => info.name is None,
    })
    &&& info.used == (l.owner is Some || l.hog is Some)
    &&& (if l.owner is Some {
        match l.consumer {
            Some(c) => info.consumer matches Some(m) && m@ == c@,
            None => info.consumer is None,
        }
    } else {
        match l.hog {
            Some(h) => info.consumer matches Some(m) && m@ == h.consumer@,
            None => info.consumer is None,
        }
    })
    &&& info.direction == l.direction
    &&& info.active_low == l.active_low
    &&& info.bias == l.bias
    &&& info.drive == l.drive
    &&& info.edge_detection == l.edge
    &&& info.event_clock == l.event_clock
    &&& info.debounce_period_us == l.debounce_us
}

/// Build the public snapshot of one line's state.
pub(crate) fn snapshot_line(l: &LineState, offset: line::Offset) -> (info: LineInfo)
    ensures
        info_of_line(*l, offset, info),
{
    let name = match &l.name {
        Some(n) => Some(n.clone()),
        None => None,
    };
    let consumer = if l.owner.is_some() {
        match &l.consumer {
            Some(c) => Some(c.clone()),
            None => None,
        }
    } else {
        match &l.hog {
            Some(h) => Some(h.consumer.clone()),
            None => None,
        }
    };
    LineInfo {
        offset,
        name,
        used: l.owner.is_some() || l.hog.is_some(),
        consumer,
        direction: l.direction,
        active_low: l.active_low,
        bias: l.bias,
        drive: l.drive,
        edge_detection: l.edge,
        event_clock: l.event_clock,
        debounce_period_us: l.debounce_us,
    }
}

/// GPIO chip.
///
/// A chip value is an open handle to a live device. It exposes basic
/// information about the chip and allows callers to retrieve information
/// about each line, watch lines for state changes and make line requests.
#[derive(Debug)]
pub struct Chip {
    pub name: String,
    pub label: String,
    pub path: String,
    pub num_lines: usize,
}

impl Chip {
    /// Open the device's chip. Fails when the device is not live, as a
    /// missing device file would.
    pub fn open(sim: &Sim) -> (r: Result<Chip>)
        ensures
            !sim.enabled ==> (r matches Err(Error::OperationFailed(
                OperationType::ChipOpen,
                e,
            )) && e == errno::Errno(ENOENT)),
            sim.enabled ==> (r matches Ok(c) && c.name@ == sim.name@ && c.label@ == sim.label@
                && c.path@ == sim.path@ && c.num_lines == sim.lines@.len()),
    {
        if !sim.enabled {
            return Err(Error::OperationFailed(OperationType::ChipOpen, errno::Errno(ENOENT)));
        }
        Ok(
            Chip {
                name: sim.name.clone(),
                label: sim.label.clone(),
                path: sim.path.clone(),
                num_lines: sim.lines.len(),
            },
        )
    }

    /// Get a snapshot of the chip's information.
    pub fn info(&self) -> (r: Result<Info>)
        ensures
            r matches Ok(i) && i.name@ == self.name@ && i.label@ == self.label@ && i.num_lines
                == self.num_lines,
    {
        Ok(Info { name: self.name.clone(), label: self.label.clone(), num_lines: self.num_lines })
    }

    /// Get the path used to find the chip.
    pub fn path(&self) -> (r: Result<&str>)
        ensures
            r matches Ok(s) && s@ == self.path@,
    {
        Ok(self.path.as_str())
    }

    /// Get a snapshot of information about one line. Fails on an offset
    /// beyond the chip's line count.
    pub fn line_info(&self, sim: &Sim, offset: line::Offset) -> (r: Result<LineInfo>)
        ensures
            offset >= sim.lines@.len() ==> r == Err::<LineInfo, Error>(
                Error::OperationFailed(OperationType::ChipGetLineInfo, errno::Errno(EINVAL)),
            ),
            offset < sim.lines@.len() ==> (r matches Ok(info) && info_of_line(
                sim.lines@[offset as int],
                offset,
                info,
            )),
    {
        if offset as usize >= sim.lines.len() {
            return Err(
                Error::OperationFailed(OperationType::ChipGetLineInfo, errno::Errno(EINVAL)),
            );
        }
        Ok(snapshot_line(&sim.lines[offset as usize], offset))
    }

    /// Get the current snapshot of information about one line and start
    /// watching it: future request, release and reconfiguration events on
    /// the line are delivered through the chip's info-event stream.
    pub fn watch_line_info(&self, sim: &mut Sim, offset: line::Offset) -> (r: Result<LineInfo>)
        requires
            old(sim).wf(),
        ensures
            final(sim).wf(),
            offset >= old(sim).lines@.len() ==> r == Err::<LineInfo, Error>(
                Error::OperationFailed(OperationType::ChipWatchLineInfo, errno::Errno(EINVAL)),
            ) && *final(sim) == *old(sim),
            offset < old(sim).lines@.len() ==> {
                &&& (r matches Ok(info) && info_of_line(old(sim).lines@[offset as int], offset, info))
                &&& final(sim).lines@ == old(sim).lines@.update(
                    offset as int,
                    (LineState { watched: true, ..old(sim).lines@[offset as int] }),
                )
                &&& *final(sim) == (Sim { lines: final(sim).lines, ..*old(sim) })
            },
    {
        if offset as usize >= sim.lines.len() {
            return Err(
                Error::OperationFailed(OperationType::ChipWatchLineInfo, errno::Errno(EINVAL)),
            );
        }
        let ghost s0 = *sim;
        let info = snapshot_line(&sim.lines[offset as usize], offset);
        sim.lines[offset as usize].watched = true;
        proof {
            crate::sim::lemma_wf_same_counters(s0, *sim);
        }
        Ok(info)
    }

    /// Stop watching a line. Does nothing for an offset beyond the chip's
    /// line count or a line not watched.
    pub fn unwatch(&self, sim: &mut Sim, offset: line::Offset)
        requires
            old(sim).wf(),
        ensures
            final(sim).wf(),
            offset >= old(sim).lines@.len() ==> *final(sim) == *old(sim),
            offset < old(sim).lines@.len() ==> final(sim).lines@ == old(sim).lines@.update(
                offset as int,
                (LineState { watched: false, ..old(sim).lines@[offset as int] }),
            ) && *final(sim) == (Sim { lines: final(sim).lines, ..*old(sim) }),
    {
        if offset as usize >= sim.lines.len() {
            return ;
        }
        let ghost s0 = *sim;
        sim.lines[offset as usize].watched = false;
        proof {
            crate::sim::lemma_wf_same_counters(s0, *sim);
        }
    }

    /// Wait for line status events on any of the watched lines of the
    /// chip: reports whether at least one event is queued. A timeout of
    /// `None` asks to block until one arrives; the model reports the queue
    /// state immediately either way, so a waiter that would block forever
    /// reports false.
    pub fn wait_info_event(&self, sim: &Sim, timeout: Option<core::time::Duration>) -> (r: Result<
        bool,
    >)
        ensures
            r == Ok::<bool, Error>(sim.info_queue@.len() > 0),
    {
        let _ = timeout;
        Ok(sim.info_queue.len() > 0)
    }

    /// Read the single oldest line status change event of the chip. Fails
    /// when no event is queued, where a blocking reader would wait.
    pub fn read_info_event(&self, sim: &mut Sim) -> (r: Result<info_event::Event>)
        requires
            old(sim).wf(),
        ensures
            final(sim).wf(),
            old(sim).info_queue@.len() == 0 ==> r == Err::<info_event::Event, Error>(
                Error::OperationFailed(OperationType::ChipReadInfoEvent, errno::Errno(EAGAIN)),
            ) && *final(sim) == *old(sim),
            old(sim).info_queue@.len() > 0 ==> (r matches Ok(ev) && ev == old(
                sim,
            ).info_queue@[0] && final(sim).info_queue@ == old(sim).info_queue@.subrange(
                1,
                old(sim).info_queue@.len() as int,
            ) && *final(sim) == (Sim { info_queue: final(sim).info_queue, ..*old(sim) })),
    {
        if sim.info_queue.len() == 0 {
            return Err(
                Error::OperationFailed(OperationType::ChipReadInfoEvent, errno::Errno(EAGAIN)),
            );
        }
        let ghost s0 = *sim;
        let ev = sim.info_queue.remove(0);
        proof {
            assert(sim.info_queue@ =~= s0.info_queue@.subrange(1, s0.info_queue@.len() as int));
            crate::sim::lemma_wf_same_counters(s0, *sim);
        }
        Ok(ev)
    }

    /// Map a line's name to its offset within the chip: the lowest offset
    /// whose line carries that name. A name holding a NUL byte cannot cross
    /// the kernel ABI and is rejected; otherwise fails when no line carries
    /// the name.
    #[verifier::loop_isolation(false)]
    pub fn line_offset_from_name(&self, sim: &Sim, name: &str) -> (r: Result<line::Offset>)
        requires
            sim.lines@.len() <= u32::MAX,
        ensures
            !crate::sim::str_has_no_nul(name) ==> r == Err::<line::Offset, Error>(
                Error::InvalidString,
            ),
            crate::sim::str_has_no_nul(name) ==> match r {
                Ok(o) => 0 <= o < sim.lines@.len() && (sim.lines@[o as int].name matches Some(n)
                    && n@ == name@) && (forall|k: int|
                    0 <= k < o ==> !((#[trigger] sim.lines@[k]).name matches Some(m) && m@
                        == name@)),
                Err(e) => e == Error::OperationFailed(
                    OperationType::ChipGetLineOffsetFromName,
                    errno::Errno(ENOENT),
                ) && (forall|k: int|
                    0 <= k < sim.lines@.len() ==> !((#[trigger] sim.lines@[k]).name matches Some(m)
                        && m@ == name@)),
            },
    {
        if crate::sim::has_nul(name) {
            return Err(Error::InvalidString);
        }
        let name_owned = name.to_owned();
        let mut i: usize = 0;
        while i < sim.lines.len()
            invariant
                i <= sim.lines@.len(),
                name_owned@ == name@,
                forall|k: int|
                    0 <= k < i ==> !((#[trigger] sim.lines@[k]).name matches Some(m) && m@
                        == name@),
            decreases sim.lines@.len() - i,
        {
            let matched = match &sim.lines[i].name {
                Some(n) => *n == name_owned,
                None => false,
            };
            if matched {
                return Ok(i as u32);
            }
            i = i + 1;
        }
        Err(Error::OperationFailed(OperationType::ChipGetLineOffsetFromName, errno::Errno(ENOENT)))
    }


    /// Request a set of lines for exclusive usage, configured per the line
    /// config, labelled per the request config. Fails when the config holds
    /// no offsets, more than the kernel accepts per request, an offset
    /// beyond the chip's line count, edge detection on an output line, or a
    /// line already in use; on success every requested line is configured,
    /// owned and labelled, and a LineRequested event is queued for each
    /// watched line of the request.
    #[verifier::rlimit(100)]
    #[verifier::spinoff_prover]
    #[verifier::loop_isolation(false)]
    pub fn request_lines(
        &self,
        sim: &mut Sim,
        rconfig: Option<&request_config::Config>,
        lconfig: &line::Config,
    ) -> (r: Result<Request>)
        requires
            old(sim).wf(),
            old(sim).can_step(),
            lconfig.wf(),
        ensures
            final(sim).wf(),
            r is Err ==> *final(sim) == *old(sim),
            r is Ok <==> request_acceptable(*old(sim), lconfig.entries@),
            old(sim).enabled && lconfig.entries@.len() == 0 ==> r == Err::<Request, Error>(
                Error::OperationFailed(OperationType::ChipRequestLines, errno::Errno(EINVAL)),
            ),
            old(sim).enabled && 1 <= lconfig.entries@.len() <= 64 && !(forall|i: int|
                0 <= i < lconfig.entries@.len() ==> entry_valid(
                    *old(sim),
                    #[trigger] lconfig.entries@[i],
                )) ==> r == Err::<Request, Error>(
                Error::OperationFailed(OperationType::ChipRequestLines, errno::Errno(EINVAL)),
            ),
            old(sim).enabled && 1 <= lconfig.entries@.len() <= 64 && (forall|i: int|
                0 <= i < lconfig.entries@.len() ==> entry_valid(
                    *old(sim),
                    #[trigger] lconfig.entries@[i],
                )) && !(forall|i: int|
                0 <= i < lconfig.entries@.len() ==> entry_free(
                    *old(sim),
                    #[trigger] lconfig.entries@[i],
                )) ==> r == Err::<Request, Error>(
                Error::OperationFailed(OperationType::ChipRequestLines, errno::Errno(EBUSY)),
            ),
            r matches Ok(req) ==> request_granted(
                *old(sim),
                *final(sim),
                lconfig.entries@,
                req,
                requested_consumer(rconfig),
            ) && req.chip@ == self.name@,
    {
        let ghost s0 = *sim;
        let ghost entries = lconfig.entries@;
        if !sim.enabled {
            return Err(
                Error::OperationFailed(OperationType::ChipRequestLines, errno::Errno(ENODEV)),
            );
        }
        let count = lconfig.entries.len();
        if count == 0 || count > 64 {
            return Err(
                Error::OperationFailed(OperationType::ChipRequestLines, errno::Errno(EINVAL)),
            );
        }
        let mut i: usize = 0;
        while i < count
            invariant
                i <= count,
                forall|k: int| 0 <= k < i ==> entry_valid(s0, #[trigger] entries[k]),
            decreases count - i,
        {
            let (o, st) = lconfig.entries[i];
            if o as usize >= sim.lines.len() || (st.edge_detection.is_some() && matches!(
                st.direction,
                line::Direction::Output,
            )) {
                return Err(
                    Error::OperationFailed(OperationType::ChipRequestLines, errno::Errno(EINVAL)),
                );
            }
            i = i + 1;
        }
        let mut i: usize = 0;
        while i < count
            invariant
                i <= count,
                forall|k: int| 0 <= k < count ==> entry_valid(s0, #[trigger] entries[k]),
                forall|k: int| 0 <= k < i ==> entry_free(s0, #[trigger] entries[k]),
            decreases count - i,
        {
            let (o, _) = lconfig.entries[i];
            let l = &sim.lines[o as usize];
            if l.owner.is_some() || l.hog.is_some() {
                return Err(
                    Error::OperationFailed(OperationType::ChipRequestLines, errno::Errno(EBUSY)),
                );
            }
            i = i + 1;
        }
        let consumer_name: String = match rconfig {
            Some(c) => match &c.consumer_name {
                Some(cs) => cs.clone(),
                None => "?".to_owned(),
            },
            None => "?".to_owned(),
        };
        let ghost consumer = requested_consumer(rconfig);
        let rid = sim.requests.len();
        let mut offsets: Vec<line::Offset> = Vec::new();
        let mut offsets2: Vec<line::Offset> = Vec::new();
        let mut j: usize = 0;
        while j < count
            invariant
                j <= count,
                offsets@.len() == j,
                offsets2@ == offsets@,
                forall|k: int| 0 <= k < j ==> offsets@[k] == (#[trigger] entries[k]).0,
            decreases count - j,
        {
            let (o, _) = lconfig.entries[j];
            offsets.push(o);
            offsets2.push(o);
            j = j + 1;
        }
        let mut j: usize = 0;
        while j < count
            invariant
                j <= count,
                consumer_name@ == consumer,
                sim.lines@.len() == s0.lines@.len(),
                *sim == (Sim { lines: sim.lines, ..s0 }),
                forall|k: int|
                    0 <= k < j ==> applied_line(
                        s0.lines@[(#[trigger] entries[k]).0 as int],
                        entries[k].1,
                        rid,
                        consumer,
                        sim.lines@[entries[k].0 as int],
                    ),
                forall|o: int|
                    0 <= o < s0.lines@.len() && (forall|k: int|
                        0 <= k < j ==> (#[trigger] entries[k]).0 != o) ==> sim.lines@[o]
                        == s0.lines@[o],
            decreases count - j,
        {
            let (o, st) = lconfig.entries[j];
            let ou = o as usize;
            sim.lines[ou].owner = Some(rid);
            sim.lines[ou].consumer = Some(consumer_name.clone());
            let dir0 = sim.lines[ou].direction;
            sim.lines[ou].direction = if matches!(st.direction, line::Direction::AsIs) {
                dir0
            } else {
                st.direction
            };
            sim.lines[ou].active_low = st.active_low;
            sim.lines[ou].bias = st.bias;
            sim.lines[ou].drive = st.drive;
            sim.lines[ou].edge = st.edge_detection;
            sim.lines[ou].event_clock = st.event_clock;
            sim.lines[ou].debounce_us = st.debounce_period_us;
            sim.lines[ou].output_value = st.output_value;
            let pull0 = sim.lines[ou].pull;
            sim.lines[ou].pull = match st.bias {
                Some(line::Bias::PullUp) => crate::sim::Pull::Up,
                Some(line::Bias::PullDown) => crate::sim::Pull::Down,
                _ => pull0,
            };
            proof {
                assert(entry_free(s0, entries[j as int]));
                assert(crate::sim::line_wf(s0.lines@, o as int, s0.requests@));
                assert forall|k: int|
                    0 <= k < j implies (#[trigger] entries[k]).0 != entries[j as int].0 by {
                    assert(crate::line_config::entries_wf(entries));
                }
            }
            j = j + 1;
        }
        sim.requests.push(
            crate::sim::RequestState {
                alive: true,
                offsets: offsets2,
                delivered: 0,
                queue: Vec::new(),
            },
        );
        proof {
            let l1 = s0.lines@;
            let l2 = sim.lines@;
            let reqs2 = sim.requests@;
            assert forall|rr: int| 0 <= rr < reqs2.len() implies crate::sim::request_wf(
                #[trigger] reqs2[rr],
                rr,
                l2,
            ) by {
                if rr < s0.requests@.len() {
                    assert(reqs2[rr] == s0.requests@[rr]);
                    assert(crate::sim::request_wf(s0.requests@[rr], rr, l1));
                    assert(reqs2.len() <= usize::MAX) by {
                        assert(reqs2.len() == sim.requests.len());
                    }
                    assert forall|o: int|
                        0 <= o < l1.len() && l1[o].owner == Some(rr as usize)
                            implies crate::sim::same_counters(l1[o], #[trigger] l2[o]) by {
                        if exists|k: int| 0 <= k < entries.len() && (#[trigger] entries[k]).0 == o {
                            let k = choose|k: int|
                                0 <= k < entries.len() && (#[trigger] entries[k]).0 == o;
                            assert(entry_free(s0, entries[k]));
                        } else {
                            assert(l2[o] == l1[o]);
                        }
                    }
                    crate::sim::lemma_owner_lines_untouched(reqs2[rr], rr, l1, l2);
                } else {
                    let rq = reqs2[rr];
                    assert(rq.queue@.len() == 0);
                    crate::sim::lemma_queue_preds_empty(rq.queue@, l2);
                    assert(crate::sim::offsets_wf(rq.offsets@, rr, l2)) by {
                        reveal(crate::sim::offsets_wf);
                        assert forall|k: int|
                            0 <= k < rq.offsets@.len() implies (#[trigger] rq.offsets@[k])
                            < l2.len() && l2[rq.offsets@[k] as int].owner == Some(rid) by {
                            assert(rq.offsets@[k] == entries[k].0);
                            assert(applied_line(
                                l1[entries[k].0 as int],
                                entries[k].1,
                                rid,
                                consumer,
                                l2[entries[k].0 as int],
                            ));
                        }
                        assert forall|a: int, b: int|
                            0 <= a < b < rq.offsets@.len() implies rq.offsets@[a]
                            != rq.offsets@[b] by {
                            assert(crate::line_config::entries_wf(entries));
                            assert(rq.offsets@[a] == entries[a].0);
                            assert(rq.offsets@[b] == entries[b].0);
                        }
                    }
                    assert(crate::sim::quiet_lines_settled(rq.offsets@, rq.queue@, l2)) by {
                        reveal(crate::sim::quiet_lines_settled);
                        assert forall|k: int|
                            0 <= k < rq.offsets@.len() implies l2[(
                        #[trigger] rq.offsets@[k]) as int].line_generated == l2[rq.offsets@[k] as int].line_delivered by {
                            assert(applied_line(
                                l1[entries[k].0 as int],
                                entries[k].1,
                                rid,
                                consumer,
                                l2[entries[k].0 as int],
                            ));
                        }
                    }
                    assert(crate::sim::line_delivered_bounded(rq.offsets@, l2, rq.delivered)) by {
                        reveal(crate::sim::line_delivered_bounded);
                        assert forall|k: int|
                            0 <= k < rq.offsets@.len() implies l2[(
                        #[trigger] rq.offsets@[k]) as int].line_delivered <= rq.delivered by {
                            assert(applied_line(
                                l1[entries[k].0 as int],
                                entries[k].1,
                                rid,
                                consumer,
                                l2[entries[k].0 as int],
                            ));
                        }
                    }
                    assert(crate::sim::request_wf(rq, rr, l2)) by {
                        reveal(crate::sim::request_wf);
                    }
                }
            }
            assert forall|o: int| 0 <= o < l2.len() implies crate::sim::line_wf(l2, o, reqs2) by {
                assert(crate::sim::line_wf(l1, o, s0.requests@));
                if exists|k: int| 0 <= k < entries.len() && (#[trigger] entries[k]).0 == o {
                    let k = choose|k: int|
                        0 <= k < entries.len() && (#[trigger] entries[k]).0 == o;
                    assert(applied_line(
                        l1[entries[k].0 as int],
                        entries[k].1,
                        rid,
                        consumer,
                        l2[entries[k].0 as int],
                    ));
                    assert(reqs2[rid as int].offsets@[k] == entries[k].0);
                    assert(reqs2[rid as int].offsets@.contains(o as u32));
                } else {
                    assert(l2[o] == l1[o]);
                    if l1[o].owner is Some {
                        let rw = l1[o].owner->0 as int;
                        assert(reqs2[rw] == s0.requests@[rw]);
                    }
                }
            }
            assert(sim.wf());
        }
        let ghost mid = *sim;
        let mut t: usize = 0;
        while t < offsets.len()
            invariant
                t <= offsets@.len(),
                offsets@.len() <= 64,
                offsets@.len() == entries.len(),
                sim.lines@.len() == s0.lines@.len(),
                forall|k: int| 0 <= k < offsets@.len() ==> offsets@[k] == (#[trigger] entries[k]).0,
                forall|k: int| 0 <= k < entries.len() ==> entry_valid(s0, #[trigger] entries[k]),
                *sim == (Sim { info_queue: sim.info_queue, now_ns: sim.now_ns, ..mid }),
                mid.now_ns + 64 <= u64::MAX,
                mid.info_queue@.len() + 64 <= usize::MAX,
                mid.now_ns <= sim.now_ns <= mid.now_ns + t,
                mid.info_queue@.len() <= sim.info_queue@.len() <= mid.info_queue@.len() + t,
                forall|k: int|
                    0 <= k < mid.info_queue@.len() ==> #[trigger] sim.info_queue@[k]
                        == mid.info_queue@[k],
                forall|k: int|
                    mid.info_queue@.len() <= k < sim.info_queue@.len()
                        ==> (#[trigger] sim.info_queue@[k]).kind
                        == line::InfoChangeKind::LineRequested,
                sim.wf(),
            decreases offsets@.len() - t,
        {
            let ghost smid = *sim;
            let o = offsets[t];
            proof {
                assert(offsets@[t as int] == entries[t as int].0);
                assert(entry_valid(s0, entries[t as int]));
            }
            if sim.lines[o as usize].watched {
                sim.now_ns = sim.now_ns + 1;
                let snap = snapshot_line(&sim.lines[o as usize], o);
                sim.info_queue.push(
                    info_event::Event {
                        kind: line::InfoChangeKind::LineRequested,
                        timestamp_ns: sim.now_ns,
                        snapshot: snap,
                    },
                );
                proof {
                    crate::sim::lemma_wf_same_counters(smid, *sim);
                }
            }
            t = t + 1;
        }
        Ok(Request { id: rid, offsets, chip: self.name.clone() })
    }
}

/// A config entry names a line of the chip and asks nothing contradictory:
/// edge detection is not combined with output direction.
pub open spec fn entry_valid(s: Sim, e: (line::Offset, line::Settings)) -> bool {
    &&& e.0 < s.lines@.len()
    &&& !(e.1.edge_detection is Some && e.1.direction == line::Direction::Output)
}

/// The line a config entry names is free: neither requested nor hogged.
pub open spec fn entry_free(s: Sim, e: (line::Offset, line::Settings)) -> bool {
    e.0 < s.lines@.len() && s.lines@[e.0 as int].owner is None && s.lines@[e.0 as int].hog is None
}

/// The whole line config can be granted on the device.
pub open spec fn request_acceptable(s: Sim, entries: Seq<(line::Offset, line::Settings)>) -> bool {
    &&& s.enabled
    &&& 1 <= entries.len() <= 64
    &&& (forall|i: int| 0 <= i < entries.len() ==> entry_valid(s, #[trigger] entries[i]))
    &&& (forall|i: int| 0 <= i < entries.len() ==> entry_free(s, #[trigger] entries[i]))
}

/// The consumer label a request carries: the request config's name, or a
/// question mark when none was set.
pub open spec fn requested_consumer(rconfig: Option<&request_config::Config>) -> Seq<char> {
    match rconfig {
        Some(c) => match c.consumer_name {
            Some(cs) => cs@,
            None => "?"@,
        },
        None => "?"@,
    }
}

/// What granting a request does to one line: ownership, the consumer label,
/// and the entry's settings are applied; direction as-is keeps the line's
/// previous direction; a pull-up or pull-down bias drives the line's pull.
pub open spec fn applied_line(
    l0: LineState,
    st: line::Settings,
    rid: usize,
    consumer: Seq<char>,
    l1: LineState,
) -> bool {
    &&& l1.owner == Some(rid)
    &&& (l1.consumer matches Some(c) && c@ == consumer)
    &&& l1.direction == (if st.direction == line::Direction::AsIs {
        l0.direction
    } else {
        st.direction
    })
    &&& l1.active_low == st.active_low
    &&& l1.bias == st.bias
    &&& l1.drive == st.drive
    &&& l1.edge == st.edge_detection
    &&& l1.event_clock == st.event_clock
    &&& l1.debounce_us == st.debounce_period_us
    &&& l1.output_value == st.output_value
    &&& l1.pull == (match st.bias {
        Some(line::Bias::PullUp) => crate::sim::Pull::Up,
        Some(line::Bias::PullDown) => crate::sim::Pull::Down,
        _ => l0.pull,
    })
    &&& l1.name == l0.name
    &&& l1.hog == l0.hog
    &&& l1.watched == l0.watched
    &&& l1.line_generated == 0
    &&& l1.line_delivered == 0
}

/// What a granted request did to the device: a fresh live request with the
/// config's offsets in order, every named line configured and owned, all
/// other lines and requests untouched, and a LineRequested event appended
/// for each watched line of the request.
pub open spec fn request_granted(
    s0: Sim,
    s1: Sim,
    entries: Seq<(line::Offset, line::Settings)>,
    req: Request,
    consumer: Seq<char>,
) -> bool {
    let n = s0.requests@.len() as int;
    &&& req.id == n
    &&& req.offsets@.len() == entries.len()
    &&& (forall|i: int| 0 <= i < entries.len() ==> req.offsets@[i] == (#[trigger] entries[i]).0)
    &&& s1.requests@.len() == n + 1
    &&& (forall|rr: int| 0 <= rr < n ==> s1.requests@[rr] == s0.requests@[rr])
    &&& s1.requests@[n].alive
    &&& s1.requests@[n].delivered == 0
    &&& s1.requests@[n].queue@.len() == 0
    &&& s1.requests@[n].offsets@ == req.offsets@
    &&& s1.lines@.len() == s0.lines@.len()
    &&& (forall|i: int|
        0 <= i < entries.len() ==> applied_line(
            s0.lines@[(#[trigger] entries[i]).0 as int],
            entries[i].1,
            req.id,
            consumer,
            s1.lines@[entries[i].0 as int],
        ))
    &&& (forall|o: int|
        0 <= o < s0.lines@.len() && (forall|i: int| 0 <= i < entries.len() ==> (#[trigger] entries[i]).0 != o)
            ==> #[trigger] s1.lines@[o] == s0.lines@[o])
    &&& s1.name == s0.name
    &&& s1.path == s0.path
    &&& s1.label == s0.label
    &&& s1.enabled == s0.enabled
    &&& s1.now_ns >= s0.now_ns
    &&& s1.info_queue@.len() >= s0.info_queue@.len()
    &&& (forall|k: int|
        0 <= k < s0.info_queue@.len() ==> #[trigger] s1.info_queue@[k] == s0.info_queue@[k])
    &&& (forall|k: int|
        s0.info_queue@.len() <= k < s1.info_queue@.len() ==> (#[trigger] s1.info_queue@[k]).kind
            == line::InfoChangeKind::LineRequested)
}

} // verus!
