//! The in-memory GPIO device: fabricates a chip with a given line count
//! and label, and holds the kernel-side state — line table, watches, line
//! requests, event queues and a monotonic clock — that chips and line
//! requests operate on.

use vstd::prelude::*;
use vstd::string::StringSliceAdditionalSpecFns;
use crate::edge_event;
use crate::info_event;
use crate::line;
use crate::{Error, OperationType, Result, EBUSY, EINVAL, ENODEV};

verus! {

/// Internal pull settings of a simulated line.
#[derive(Copy, Clone, Debug, Eq, PartialEq, Structural)]
pub enum Pull {
    /// The internal pull-up is enabled.
    Up,
    /// The internal pull-down is enabled.
    Down,
}

/// Direction settings of a hogged line.
#[derive(Copy, Clone, Debug, Eq, PartialEq, Structural)]
pub enum Direction {
    /// Direction is input - for reading the value of an externally driven line.
    Input,
    /// Direction is output - for driving the line, value is high.
    OutputHigh,
    /// Direction is output - for driving the line, value is low.
    OutputLow,
}

/// Value settings of a simulated line.
#[derive(Copy, Clone, Debug, Eq, PartialEq, Structural)]
pub enum Value {
    /// Active
    Active,
    /// Inactive
    InActive,
}

impl Value {
    /// Map a raw simulated line value to a `Value`.
    pub(crate) fn new(val: i32) -> (r: Result<Self>)
        ensures
            val == 0 ==> r == Ok::<Value, Error>(Value::InActive),
            val == 1 ==> r == Ok::<Value, Error>(Value::Active),
            val == -1 ==> (r matches Err(Error::OperationFailed(
                OperationType::SimBankGetVal,
                _,
            ))),
            !(val == 0 || val == 1 || val == -1) ==> (r matches Err(Error::InvalidEnumValue(_, v))
                && v == val),
    {
        if val == 0 {
            Ok(Value::InActive)
        } else if val == 1 {
            Ok(Value::Active)
        } else if val == -1 {
            Err(Error::OperationFailed(OperationType::SimBankGetVal, crate::current_errno()))
        } else {
            Err(Error::InvalidEnumValue("Value", val))
        }
    }
}

/// A kernel hog on a line: a consumer label and a fixed direction.
#[derive(Debug, Eq, PartialEq)]
pub struct Hog {
    pub consumer: String,
    pub direction: Direction,
}

/// The kernel-side state of one line.
#[derive(Debug, Eq, PartialEq)]
pub struct LineState {
    /// The line's name, if any.
    pub name: Option<String>,
    /// The kernel hog on the line, if any.
    pub hog: Option<Hog>,
    /// The external pull driving the line while it is an input.
    pub pull: Pull,
    /// The id of the request holding the line, if any.
    pub owner: Option<usize>,
    /// The consumer label of the holding request.
    pub consumer: Option<String>,
    /// The line's direction as configured.
    pub direction: line::Direction,
    /// Whether reads and writes of the line are inverted.
    pub active_low: bool,
    /// The bias as configured by the holder.
    pub bias: Option<line::Bias>,
    /// The drive as configured by the holder.
    pub drive: line::Drive,
    /// The edge detection as configured by the holder.
    pub edge: Option<line::Edge>,
    /// The event clock as configured by the holder.
    pub event_clock: line::EventClock,
    /// The debounce period, in microseconds; zero when not debounced.
    pub debounce_us: u64,
    /// The logical value driven while the line is an output.
    pub output_value: line::Value,
    /// How many edge events the line has produced under its current request.
    pub line_generated: u64,
    /// How many of those events have been read.
    pub line_delivered: u64,
    /// Whether the chip's info-watch covers this line.
    pub watched: bool,
}

/// The kernel-side state of one line request.
#[derive(Debug, Eq, PartialEq)]
pub struct RequestState {
    /// False once the request has been released.
    pub alive: bool,
    /// The requested offsets, in request order.
    pub offsets: Vec<line::Offset>,
    /// How many edge events have been read from the request.
    pub delivered: u64,
    /// The edge events produced and not yet read, oldest first.
    pub queue: Vec<edge_event::Event>,
}

/// The level an external pull drives.
pub open spec fn pull_level(p: Pull) -> line::Value {
    if p is Up {
        line::Value::Active
    } else {
        line::Value::InActive
    }
}

/// The opposite logic value.
pub open spec fn flip(v: line::Value) -> line::Value {
    if v is Active {
        line::Value::InActive
    } else {
        line::Value::Active
    }
}

/// The logical reading of a physical level under an active-low setting.
pub open spec fn logical_of(level: line::Value, active_low: bool) -> line::Value {
    if active_low {
        flip(level)
    } else {
        level
    }
}

/// The logical value a read of the line returns: the driven value for an
/// output, the pulled level (under active-low inversion) for an input.
pub open spec fn line_logical(l: LineState) -> line::Value {
    if l.direction is Output {
        l.output_value
    } else {
        logical_of(pull_level(l.pull), l.active_low)
    }
}

/// The physical level observable on the line from outside.
pub open spec fn line_physical(l: LineState) -> line::Value {
    if l.direction is Output {
        logical_of(l.output_value, l.active_low)
    } else {
        pull_level(l.pull)
    }
}

/// Whether an edge detection setting reports a transition of the given
/// polarity.
pub open spec fn edge_fires(edge: Option<line::Edge>, rising: bool) -> bool {
    match edge {
        None => false,
        Some(line::Edge::Rising) => rising,
        Some(line::Edge::Falling) => !rising,
        Some(line::Edge::Both) => true,
    }
}

/// The edge event kind, if any, that changing the line's pull to `pull`
/// produces: the line must be held, an input, and detect edges of the
/// polarity of the logical transition.
pub open spec fn pull_event(l: LineState, pull: Pull) -> Option<line::EdgeKind> {
    if l.owner is None || !(l.direction is Input) {
        None
    } else {
        let v0 = logical_of(pull_level(l.pull), l.active_low);
        let v1 = logical_of(pull_level(pull), l.active_low);
        if v0 == v1 {
            None
        } else {
            let rising = v1 is Active;
            if edge_fires(l.edge, rising) {
                if rising {
                    Some(line::EdgeKind::Rising)
                } else {
                    Some(line::EdgeKind::Falling)
                }
            } else {
                None
            }
        }
    }
}

/// The in-memory GPIO device.
#[derive(Debug, Eq, PartialEq)]
pub struct Sim {
    /// The chip name the device reports.
    pub name: String,
    /// The device path the chip appears under.
    pub path: String,
    /// The chip label the device reports.
    pub label: String,
    /// Whether the device is live: chips open and lines react only then.
    pub enabled: bool,
    /// The per-line kernel state.
    pub lines: Vec<LineState>,
    /// The kernel state of every request made on the device, by id.
    pub requests: Vec<RequestState>,
    /// Queued line status change events for watched lines, oldest first.
    pub info_queue: Vec<info_event::Event>,
    /// The device's monotonic clock, in nanoseconds.
    pub now_ns: u64,
}

/// Well-formedness of one request's event queue and counters against the
/// line table.
/// The requested offsets are few, in range, distinct, and owned by this
/// request.
#[verifier::opaque]
pub open spec fn offsets_wf(offs: Seq<u32>, rid: int, lines: Seq<LineState>) -> bool {
    &&& 1 <= offs.len() <= 64
    &&& (forall|i: int| 0 <= i < offs.len() ==> (#[trigger] offs[i]) < lines.len())
    &&& (forall|i: int, j: int| 0 <= i < j < offs.len() ==> offs[i] != offs[j])
    &&& (forall|i: int|
        0 <= i < offs.len() ==> lines[#[trigger] offs[i] as int].owner == Some(rid as usize))
}

/// A line with no queued event has produced exactly as many events as
/// were read from it.
#[verifier::opaque]
pub open spec fn quiet_lines_settled(
    offs: Seq<u32>,
    q: Seq<edge_event::Event>,
    lines: Seq<LineState>,
) -> bool {
    forall|i: int|
        0 <= i < offs.len() && (forall|k: int| 0 <= k < q.len() ==> (#[trigger] q[k]).line != offs[i])
            ==> lines[(#[trigger] offs[i]) as int].line_generated == lines[offs[i] as int].line_delivered
}

/// No line has had more events read than the whole request.
#[verifier::opaque]
pub open spec fn line_delivered_bounded(offs: Seq<u32>, lines: Seq<LineState>, del: u64) -> bool {
    forall|i: int| 0 <= i < offs.len() ==> lines[(#[trigger] offs[i]) as int].line_delivered <= del
}

/// Queued events carry consecutive global sequence numbers continuing the
/// delivered count.
#[verifier::opaque]
pub open spec fn queue_globals_ok(q: Seq<edge_event::Event>, del: u64) -> bool {
    forall|i: int| 0 <= i < q.len() ==> (#[trigger] q[i]).global_seq == del + 1 + i
}

/// Queued events come from requested lines.
#[verifier::opaque]
pub open spec fn queue_lines_ok(q: Seq<edge_event::Event>, offs: Seq<u32>) -> bool {
    forall|i: int| 0 <= i < q.len() ==> offs.contains((#[trigger] q[i]).line)
}

/// Queued events' line sequence numbers lie between their line's read and
/// produced counters.
#[verifier::opaque]
pub open spec fn queue_bounds_ok(q: Seq<edge_event::Event>, lines: Seq<LineState>) -> bool {
    forall|i: int|
        0 <= i < q.len() ==> lines[(#[trigger] q[i]).line as int].line_delivered < q[i].line_seq
            <= lines[q[i].line as int].line_generated
}

/// Line sequence numbers strictly increase along each line's queued events.
#[verifier::opaque]
pub open spec fn queue_strict_ok(q: Seq<edge_event::Event>) -> bool {
    forall|i: int, j: int|
        0 <= i < j < q.len() && (#[trigger] q[i]).line == (#[trigger] q[j]).line ==> q[i].line_seq
            < q[j].line_seq
}

/// The first queued event of each line continues that line's read counter.
#[verifier::opaque]
pub open spec fn queue_first_ok(q: Seq<edge_event::Event>, lines: Seq<LineState>) -> bool {
    forall|i: int|
        0 <= i < q.len() && (forall|k: int| 0 <= k < i ==> (#[trigger] q[k]).line != q[i].line)
            ==> (#[trigger] q[i]).line_seq == lines[q[i].line as int].line_delivered + 1
}

/// The last queued event of each line reaches that line's produced counter.
#[verifier::opaque]
pub open spec fn queue_last_ok(q: Seq<edge_event::Event>, lines: Seq<LineState>) -> bool {
    forall|i: int|
        0 <= i < q.len() && (forall|k: int|
            i < k < q.len() ==> (#[trigger] q[k]).line != q[i].line) ==> (
        #[trigger] q[i]).line_seq == lines[q[i].line as int].line_generated
}

/// No event strictly between positions `i` and `j` of the queue comes
/// from line `o`.
#[verifier::opaque]
pub open spec fn no_line_between(q: Seq<edge_event::Event>, o: u32, i: int, j: int) -> bool {
    forall|k: int| i < k < j ==> (#[trigger] q[k]).line != o
}

/// Consecutive queued events of one line carry consecutive line sequence
/// numbers.
#[verifier::opaque]
pub open spec fn queue_contiguous_ok(q: Seq<edge_event::Event>) -> bool {
    forall|i: int, j: int|
        0 <= i < j < q.len() && (#[trigger] q[i]).line == (#[trigger] q[j]).line && no_line_between(
            q,
            q[i].line,
            i,
            j,
        ) ==> q[j].line_seq == q[i].line_seq + 1
}

/// No event's line sequence number exceeds its global sequence number.
#[verifier::opaque]
pub open spec fn queue_lineseq_le_global(q: Seq<edge_event::Event>) -> bool {
    forall|i: int| 0 <= i < q.len() ==> (#[trigger] q[i]).line_seq <= q[i].global_seq
}

/// Well-formedness of one request's event queue and counters against the
/// line table.
#[verifier::opaque]
pub open spec fn request_wf(r: RequestState, rid: int, lines: Seq<LineState>) -> bool {
    let q = r.queue@;
    let offs = r.offsets@;
    &&& (!r.alive ==> q.len() == 0)
    &&& (r.alive ==> {
        &&& offsets_wf(offs, rid, lines)
        &&& quiet_lines_settled(offs, q, lines)
        &&& line_delivered_bounded(offs, lines, r.delivered)
    })
    &&& queue_globals_ok(q, r.delivered)
    &&& queue_lines_ok(q, offs)
    &&& queue_bounds_ok(q, lines)
    &&& queue_strict_ok(q)
    &&& queue_first_ok(q, lines)
    &&& queue_last_ok(q, lines)
    &&& queue_contiguous_ok(q)
    &&& queue_lineseq_le_global(q)
}

/// Well-formedness of one line's ownership and counters.
pub open spec fn line_wf(lines: Seq<LineState>, o: int, requests: Seq<RequestState>) -> bool {
    let l = lines[o];
    &&& l.line_delivered <= l.line_generated
    &&& (l.owner matches Some(rid) ==> rid < requests.len() && requests[rid as int].alive
        && requests[rid as int].offsets@.contains(o as u32))
    &&& (l.owner is None ==> l.line_generated == 0 && l.line_delivered == 0)
}

impl Sim {
    /// The device's state is well formed: queues, counters and ownership
    /// agree.
    pub open spec fn wf(&self) -> bool {
        &&& self.lines@.len() <= u32::MAX
        &&& (forall|r: int|
            0 <= r < self.requests@.len() ==> request_wf(
                #[trigger] self.requests@[r],
                r,
                self.lines@,
            ))
        &&& (forall|o: int|
            0 <= o < self.lines@.len() ==> line_wf(self.lines@, o, self.requests@))
    }

    /// The device's clock, counters and queues have room for at least one
    /// more burst of events.
    pub open spec fn can_step(&self) -> bool {
        &&& self.now_ns + 64 <= u64::MAX
        &&& self.info_queue@.len() + 64 <= usize::MAX
        &&& (forall|r: int|
            0 <= r < self.requests@.len() ==> (#[trigger] self.requests@[r]).delivered
                + self.requests@[r].queue@.len() + 64 <= u64::MAX && self.requests@[r].queue@.len()
                + 64 <= usize::MAX)
        &&& (forall|o: int|
            0 <= o < self.lines@.len() ==> (#[trigger] self.lines@[o]).line_generated + 64
                <= u64::MAX)
    }

    /// No request is currently held on the device.
    pub open spec fn no_live_requests(&self) -> bool {
        forall|r: int| 0 <= r < self.requests@.len() ==> !(#[trigger] self.requests@[r]).alive
    }
}

/// A fresh, unrequested, unwatched line with the given name, hog, pull and
/// direction state.
pub open spec fn fresh_line(l: LineState) -> bool {
    &&& l.owner is None
    &&& l.consumer is None
    &&& l.active_low == false
    &&& l.bias is None
    &&& l.drive == line::Drive::PushPull
    &&& l.edge is None
    &&& l.event_clock == line::EventClock::Monotonic
    &&& l.debounce_us == 0
    &&& l.line_generated == 0
    &&& l.line_delivered == 0
    &&& l.watched == false
}

/// A brand-new line: fresh, unnamed, unhogged, pulled down, input,
/// driving inactive.
pub open spec fn default_line(l: LineState) -> bool {
    &&& fresh_line(l)
    &&& l.name is None
    &&& l.hog is None
    &&& l.pull == Pull::Down
    &&& l.direction == line::Direction::Input
    &&& l.output_value == line::Value::InActive
}

/// Build a brand-new line state.
fn new_line() -> (l: LineState)
    ensures
        default_line(l),
{
    LineState {
        name: None,
        hog: None,
        pull: Pull::Down,
        owner: None,
        consumer: None,
        direction: line::Direction::Input,
        active_low: false,
        bias: None,
        drive: line::Drive::PushPull,
        edge: None,
        event_clock: line::EventClock::Monotonic,
        debounce_us: 0,
        output_value: line::Value::InActive,
        line_generated: 0,
        line_delivered: 0,
        watched: false,
    }
}

/// Largest number of lines a simulated chip may expose.
pub const MAX_SIM_LINES: usize = 1024;

/// No byte of the string is NUL: such strings cross the kernel ABI whole.
pub open spec fn str_has_no_nul(s: &str) -> bool {
    forall|i: int| 0 <= i < s.spec_bytes().len() ==> s.spec_bytes()[i] != 0
}

/// True when some byte of the string is NUL, which the kernel ABI cannot
/// carry.
pub(crate) fn has_nul(s: &str) -> (r: bool)
    ensures
        r == !str_has_no_nul(s),
{
    let bytes = s.as_bytes();
    let mut i: usize = 0;
    while i < bytes.len()
        invariant
            bytes@ == s.spec_bytes(),
            i <= bytes@.len(),
            forall|k: int| 0 <= k < i ==> bytes@[k] != 0,
        decreases bytes@.len() - i,
    {
        if bytes[i] == 0 {
            return true;
        }
        i = i + 1;
    }
    false
}

impl Sim {
    /// Fabricate a device with the given line count (1 when absent) and
    /// label (empty when absent), enabling it when asked. A line count of
    /// zero or more than the supported maximum is rejected.
    pub fn new(ngpio: Option<usize>, label: Option<&str>, enable: bool) -> (r: Result<Sim>)
        ensures
            match r {
                Ok(s) => {
                    &&& s.wf()
                    &&& s.can_step()
                    &&& s.enabled == enable
                    &&& s.lines@.len() == (match ngpio {
                        Some(n) => n as int,
                        None => 1int,
                    })
                    &&& (forall|o: int| 0 <= o < s.lines@.len() ==> default_line(#[trigger] s.lines@[o]))
                    &&& (match label {
                        Some(l) => s.label@ == l@,
                        None => s.label@.len() == 0,
                    })
                    &&& s.requests@.len() == 0
                    &&& s.info_queue@.len() == 0
                    &&& s.now_ns == 0
                },
                Err(e) => {
                    ||| (e == Error::OperationFailed(
                        OperationType::SimBankSetNumLines,
                        errno::Errno(EINVAL),
                    ) && (ngpio matches Some(n) && (n == 0 || n > MAX_SIM_LINES)))
                    ||| (e == Error::InvalidString && (label matches Some(l) && !str_has_no_nul(
                        l,
                    )) && (ngpio matches Some(n) ==> 0 < n <= MAX_SIM_LINES))
                },
            },
            (ngpio matches Some(n) ==> 0 < n <= MAX_SIM_LINES) && (label matches Some(l)
                ==> str_has_no_nul(l)) ==> r is Ok,
    {
        let num = match ngpio {
            Some(n) => {
                if n == 0 || n > MAX_SIM_LINES {
                    return Err(
                        Error::OperationFailed(
                            OperationType::SimBankSetNumLines,
                            errno::Errno(EINVAL),
                        ),
                    );
                }
                n
            },
            None => 1,
        };
        let lab = match label {
            Some(l) => {
                if has_nul(l) {
                    return Err(Error::InvalidString);
                }
                l.to_owned()
            },
            None => String::new(),
        };
        let mut lines: Vec<LineState> = Vec::new();
        let mut i: usize = 0;
        while i < num
            invariant
                i <= num,
                lines@.len() == i,
                forall|o: int| 0 <= o < i ==> default_line(#[trigger] lines@[o]),
            decreases num - i,
        {
            lines.push(new_line());
            i = i + 1;
        }
        let name = "gpiosim0".to_owned();
        let path = "/dev/gpiosim0".to_owned();
        Ok(
            Sim {
                name,
                path,
                label: lab,
                enabled: enable,
                lines,
                requests: Vec::new(),
                info_queue: Vec::new(),
                now_ns: 0,
            },
        )
    }

    /// Get the name of the fabricated chip.
    pub fn chip_name(&self) -> (r: &str)
        ensures
            r@ == self.name@,
    {
        self.name.as_str()
    }

    /// Get the path of the fabricated chip's device.
    pub fn dev_path(&self) -> (r: String)
        ensures
            r@ == self.path@,
    {
        self.path.clone()
    }

    /// Read the physical level of a line as seen from outside the chip:
    /// the driven level for outputs, the pulled level for inputs.
    pub fn val(&self, offset: line::Offset) -> (r: Result<Value>)
        ensures
            !self.enabled ==> r == Err::<Value, Error>(
                Error::OperationFailed(OperationType::SimBankGetVal, errno::Errno(ENODEV)),
            ),
            self.enabled && offset >= self.lines@.len() ==> r == Err::<Value, Error>(
                Error::OperationFailed(OperationType::SimBankGetVal, errno::Errno(EINVAL)),
            ),
            self.enabled && offset < self.lines@.len() ==> r == Ok::<Value, Error>(
                if line_physical(self.lines@[offset as int]) is Active {
                    Value::Active
                } else {
                    Value::InActive
                },
            ),
    {
        if !self.enabled {
            return Err(Error::OperationFailed(OperationType::SimBankGetVal, errno::Errno(ENODEV)));
        }
        if offset as usize >= self.lines.len() {
            return Err(Error::OperationFailed(OperationType::SimBankGetVal, errno::Errno(EINVAL)));
        }
        let l = &self.lines[offset as usize];
        let phys = if matches!(l.direction, line::Direction::Output) {
            if l.active_low {
                match l.output_value {
                    line::Value::Active => line::Value::InActive,
                    line::Value::InActive => line::Value::Active,
                }
            } else {
                l.output_value
            }
        } else {
            match l.pull {
                Pull::Up => line::Value::Active,
                Pull::Down => line::Value::InActive,
            }
        };
        Ok(
            match phys {
                line::Value::Active => Value::Active,
                line::Value::InActive => Value::InActive,
            },
        )
    }
}

/// The two lines agree on everything the event machinery reads: the
/// owner and the event counters.
pub open spec fn same_counters(l1: LineState, l2: LineState) -> bool {
    &&& l1.owner == l2.owner
    &&& l1.line_generated == l2.line_generated
    &&& l1.line_delivered == l2.line_delivered
}

/// Transfer of `offsets_wf` to a line table that agrees on owners and
/// counters.
proof fn lemma_offsets_wf_transfer(offs: Seq<u32>, rid: int, l1: Seq<LineState>, l2: Seq<LineState>)
    requires
        offsets_wf(offs, rid, l1),
        l2.len() == l1.len(),
        forall|i: int|
            0 <= i < offs.len() ==> same_counters(
                l1[#[trigger] offs[i] as int],
                l2[offs[i] as int],
            ),
    ensures
        offsets_wf(offs, rid, l2),
{
    reveal(offsets_wf);
    assert forall|i: int| 0 <= i < offs.len() implies l2[#[trigger] offs[i] as int].owner == Some(
        rid as usize,
    ) by {
        assert(same_counters(l1[offs[i] as int], l2[offs[i] as int]));
    }
}

/// Transfer of `quiet_lines_settled` to a line table that agrees on owners
/// and counters.
proof fn lemma_quiet_transfer(
    offs: Seq<u32>,
    rid: int,
    q: Seq<edge_event::Event>,
    l1: Seq<LineState>,
    l2: Seq<LineState>,
)
    requires
        offsets_wf(offs, rid, l1),
        quiet_lines_settled(offs, q, l1),
        l2.len() == l1.len(),
        forall|i: int|
            0 <= i < offs.len() ==> same_counters(
                l1[#[trigger] offs[i] as int],
                l2[offs[i] as int],
            ),
    ensures
        quiet_lines_settled(offs, q, l2),
{
    reveal(offsets_wf);
    reveal(quiet_lines_settled);
    assert forall|i: int|
        0 <= i < offs.len() && (forall|k: int|
            0 <= k < q.len() ==> (#[trigger] q[k]).line != offs[i]) implies l2[(
    #[trigger] offs[i]) as int].line_generated == l2[offs[i] as int].line_delivered by {
        assert(same_counters(l1[offs[i] as int], l2[offs[i] as int]));
    }
}

/// Transfer of `line_delivered_bounded` to a line table that agrees on
/// owners and counters.
proof fn lemma_del_bounded_transfer(
    offs: Seq<u32>,
    rid: int,
    del: u64,
    l1: Seq<LineState>,
    l2: Seq<LineState>,
)
    requires
        offsets_wf(offs, rid, l1),
        line_delivered_bounded(offs, l1, del),
        l2.len() == l1.len(),
        forall|i: int|
            0 <= i < offs.len() ==> same_counters(
                l1[#[trigger] offs[i] as int],
                l2[offs[i] as int],
            ),
    ensures
        line_delivered_bounded(offs, l2, del),
{
    reveal(offsets_wf);
    reveal(line_delivered_bounded);
    assert forall|i: int| 0 <= i < offs.len() implies l2[(
    #[trigger] offs[i]) as int].line_delivered <= del by {
        assert(same_counters(l1[offs[i] as int], l2[offs[i] as int]));
    }
}

/// Every queued event's line is in range of the line table.
proof fn lemma_queue_lines_in_range(
    q: Seq<edge_event::Event>,
    offs: Seq<u32>,
    rid: int,
    l1: Seq<LineState>,
)
    requires
        queue_lines_ok(q, offs),
        offsets_wf(offs, rid, l1),
    ensures
        forall|i: int| 0 <= i < q.len() ==> 0 <= (#[trigger] q[i]).line < l1.len(),
{
    reveal(queue_lines_ok);
    reveal(offsets_wf);
    assert forall|i: int| 0 <= i < q.len() implies 0 <= (#[trigger] q[i]).line < l1.len() by {
        assert(offs.contains(q[i].line));
        let j = choose|j: int| 0 <= j < offs.len() && offs[j] == q[i].line;
        assert(l1[offs[j] as int].owner == Some(rid as usize));
    }
}

/// Transfer of `queue_bounds_ok` to a line table that agrees on owners and
/// counters.
proof fn lemma_queue_bounds_transfer(
    q: Seq<edge_event::Event>,
    offs: Seq<u32>,
    rid: int,
    l1: Seq<LineState>,
    l2: Seq<LineState>,
)
    requires
        queue_bounds_ok(q, l1),
        queue_lines_ok(q, offs),
        offsets_wf(offs, rid, l1),
        l2.len() == l1.len(),
        forall|i: int|
            0 <= i < offs.len() ==> same_counters(
                l1[#[trigger] offs[i] as int],
                l2[offs[i] as int],
            ),
    ensures
        queue_bounds_ok(q, l2),
{
    lemma_queue_lines_in_range(q, offs, rid, l1);
    reveal(queue_bounds_ok);
    reveal(queue_lines_ok);
    assert forall|i: int|
        0 <= i < q.len() implies l2[(#[trigger] q[i]).line as int].line_delivered < q[i].line_seq
        <= l2[q[i].line as int].line_generated by {
        assert(offs.contains(q[i].line));
        let j = choose|j: int| 0 <= j < offs.len() && offs[j] == q[i].line;
        assert(same_counters(l1[offs[j] as int], l2[offs[j] as int]));
    }
}

/// Transfer of `queue_first_ok` to a line table that agrees on owners and
/// counters.
proof fn lemma_queue_first_transfer(
    q: Seq<edge_event::Event>,
    offs: Seq<u32>,
    rid: int,
    l1: Seq<LineState>,
    l2: Seq<LineState>,
)
    requires
        queue_first_ok(q, l1),
        queue_lines_ok(q, offs),
        offsets_wf(offs, rid, l1),
        l2.len() == l1.len(),
        forall|i: int|
            0 <= i < offs.len() ==> same_counters(
                l1[#[trigger] offs[i] as int],
                l2[offs[i] as int],
            ),
    ensures
        queue_first_ok(q, l2),
{
    lemma_queue_lines_in_range(q, offs, rid, l1);
    reveal(queue_first_ok);
    reveal(queue_lines_ok);
    assert forall|i: int|
        0 <= i < q.len() && (forall|k: int|
            0 <= k < i ==> (#[trigger] q[k]).line != q[i].line) implies (
    #[trigger] q[i]).line_seq == l2[q[i].line as int].line_delivered + 1 by {
        assert(q[i].line_seq == l1[q[i].line as int].line_delivered + 1);
        assert(offs.contains(q[i].line));
        let j = choose|j: int| 0 <= j < offs.len() && offs[j] == q[i].line;
        assert(same_counters(l1[offs[j] as int], l2[offs[j] as int]));
    }
}

/// Transfer of `queue_last_ok` to a line table that agrees on owners and
/// counters.
proof fn lemma_queue_last_transfer(
    q: Seq<edge_event::Event>,
    offs: Seq<u32>,
    rid: int,
    l1: Seq<LineState>,
    l2: Seq<LineState>,
)
    requires
        queue_last_ok(q, l1),
        queue_lines_ok(q, offs),
        offsets_wf(offs, rid, l1),
        l2.len() == l1.len(),
        forall|i: int|
            0 <= i < offs.len() ==> same_counters(
                l1[#[trigger] offs[i] as int],
                l2[offs[i] as int],
            ),
    ensures
        queue_last_ok(q, l2),
{
    lemma_queue_lines_in_range(q, offs, rid, l1);
    reveal(queue_last_ok);
    reveal(queue_lines_ok);
    assert forall|i: int|
        0 <= i < q.len() && (forall|k: int|
            i < k < q.len() ==> (#[trigger] q[k]).line != q[i].line) implies (
    #[trigger] q[i]).line_seq == l2[q[i].line as int].line_generated by {
        assert(q[i].line_seq == l1[q[i].line as int].line_generated);
        assert(offs.contains(q[i].line));
        let j = choose|j: int| 0 <= j < offs.len() && offs[j] == q[i].line;
        assert(same_counters(l1[offs[j] as int], l2[offs[j] as int]));
    }
}

/// The queue-shape predicates hold of an empty queue over any line table,
/// any delivered count and any offsets.
pub(crate) proof fn lemma_queue_preds_empty(q: Seq<edge_event::Event>, l: Seq<LineState>)
    requires
        q.len() == 0,
    ensures
        queue_bounds_ok(q, l),
        queue_first_ok(q, l),
        queue_last_ok(q, l),
        queue_strict_ok(q),
        queue_contiguous_ok(q),
        queue_lineseq_le_global(q),
        forall|del: u64| #[trigger] queue_globals_ok(q, del),
        forall|offs: Seq<u32>| #[trigger] queue_lines_ok(q, offs),
{
    reveal(queue_bounds_ok);
    reveal(queue_first_ok);
    reveal(queue_last_ok);
    reveal(queue_strict_ok);
    reveal(queue_contiguous_ok);
    reveal(queue_lineseq_le_global);
    assert forall|del: u64| #[trigger] queue_globals_ok(q, del) by {
        reveal(queue_globals_ok);
    }
    assert forall|offs: Seq<u32>| #[trigger] queue_lines_ok(q, offs) by {
        reveal(queue_lines_ok);
    }
}

/// A device whose requests are all released stays well formed under any
/// reshaping of its line table into kept and brand-new lines.
proof fn lemma_wf_resized(s0: Sim, s2: Sim)
    requires
        s0.wf(),
        s0.no_live_requests(),
        s2.lines@.len() <= u32::MAX,
        s2.requests@ == s0.requests@,
        forall|o: int|
            0 <= o < s2.lines@.len() ==> ((0 <= o < s0.lines@.len() && #[trigger] s2.lines@[o]
                == s0.lines@[o]) || default_line(s2.lines@[o])),
    ensures
        s2.wf(),
{
    reveal(request_wf);
    assert forall|rr: int| 0 <= rr < s2.requests@.len() implies request_wf(
        #[trigger] s2.requests@[rr],
        rr,
        s2.lines@,
    ) by {
        assert(request_wf(s0.requests@[rr], rr, s0.lines@));
        assert(!s2.requests@[rr].alive);
        assert(s2.requests@[rr].queue@.len() == 0);
        lemma_queue_preds_empty(s2.requests@[rr].queue@, s2.lines@);
    }
    assert forall|o: int| 0 <= o < s2.lines@.len() implies line_wf(s2.lines@, o, s2.requests@) by {
        if 0 <= o < s0.lines@.len() && s2.lines@[o] == s0.lines@[o] {
            assert(line_wf(s0.lines@, o, s0.requests@));
            if s0.lines@[o].owner is Some {
                let rid = s0.lines@[o].owner->0;
                assert(s0.requests@[rid as int].alive);
                assert(!s0.requests@[rid as int].alive);
            }
        } else {
            assert(default_line(s2.lines@[o]));
        }
    }
}

/// Well-formedness does not depend on line fields outside the owner and
/// the event counters.
pub(crate) proof fn lemma_wf_same_counters(s1: Sim, s2: Sim)
    requires
        s1.wf(),
        s2.requests@ == s1.requests@,
        s2.lines@.len() == s1.lines@.len(),
        forall|o: int|
            0 <= o < s1.lines@.len() ==> same_counters(s1.lines@[o], #[trigger] s2.lines@[o]),
    ensures
        s2.wf(),
{
    let l1 = s1.lines@;
    let l2 = s2.lines@;
    assert forall|r: int| 0 <= r < s2.requests@.len() implies request_wf(
        #[trigger] s2.requests@[r],
        r,
        l2,
    ) by {
        let rq = s2.requests@[r];
        let q = rq.queue@;
        let offs = rq.offsets@;
        assert(request_wf(rq, r, l1));
        reveal(request_wf);
        if rq.alive {
            assert(offsets_wf(offs, r, l1));
            assert forall|i: int| 0 <= i < offs.len() implies same_counters(
                l1[#[trigger] offs[i] as int],
                l2[offs[i] as int],
            ) by {
                reveal(offsets_wf);
                assert(offs[i] < l1.len());
            }
            lemma_offsets_wf_transfer(offs, r, l1, l2);
            lemma_quiet_transfer(offs, r, q, l1, l2);
            lemma_del_bounded_transfer(offs, r, rq.delivered, l1, l2);
            lemma_queue_bounds_transfer(q, offs, r, l1, l2);
            lemma_queue_first_transfer(q, offs, r, l1, l2);
            lemma_queue_last_transfer(q, offs, r, l1, l2);
        } else {
            lemma_queue_preds_empty(q, l2);
        }
    }
    assert forall|o: int| 0 <= o < l2.len() implies line_wf(l2, o, s2.requests@) by {
        assert(line_wf(l1, o, s1.requests@));
        assert(same_counters(l1[o], l2[o]));
    }
}

impl Sim {
    /// Set the label of the fabricated chip. The device must not be live,
    /// and a label holding a NUL byte is rejected.
    pub fn set_label(&mut self, label: &str) -> (r: Result<()>)
        requires
            old(self).wf(),
        ensures
            final(self).wf(),
            old(self).enabled ==> r == Err::<(), Error>(
                Error::OperationFailed(OperationType::SimBankSetLabel, errno::Errno(EBUSY)),
            ) && *final(self) == *old(self),
            !old(self).enabled && !str_has_no_nul(label) ==> r == Err::<(), Error>(
                Error::InvalidString,
            ) && *final(self) == *old(self),
            !old(self).enabled && str_has_no_nul(label) ==> r is Ok && *final(self) == (Sim {
                label: final(self).label,
                ..*old(self)
            }) && final(self).label@ == label@,
    {
        if self.enabled {
            return Err(Error::OperationFailed(OperationType::SimBankSetLabel, errno::Errno(EBUSY)));
        }
        if has_nul(label) {
            return Err(Error::InvalidString);
        }
        self.label = label.to_owned();
        Ok(())
    }

    /// Set the number of lines of the fabricated chip, keeping the state
    /// of lines that remain. The device must not be live and must hold no
    /// request; a count of zero or above the supported maximum is rejected.
    pub fn set_num_lines(&mut self, num: usize) -> (r: Result<()>)
        requires
            old(self).wf(),
        ensures
            final(self).wf(),
            old(self).enabled || !old(self).no_live_requests() ==> r == Err::<(), Error>(
                Error::OperationFailed(OperationType::SimBankSetNumLines, errno::Errno(EBUSY)),
            ) && *final(self) == *old(self),
            !old(self).enabled && old(self).no_live_requests() && (num == 0 || num > MAX_SIM_LINES)
                ==> r == Err::<(), Error>(
                Error::OperationFailed(OperationType::SimBankSetNumLines, errno::Errno(EINVAL)),
            ) && *final(self) == *old(self),
            !old(self).enabled && old(self).no_live_requests() && 0 < num <= MAX_SIM_LINES ==> {
                &&& r is Ok
                &&& final(self).lines@.len() == num
                &&& (forall|o: int|
                    0 <= o < num && o < old(self).lines@.len() ==> final(self).lines@[o] == old(
                        self,
                    ).lines@[o])
                &&& (forall|o: int|
                    old(self).lines@.len() <= o < num ==> default_line(
                        #[trigger] final(self).lines@[o],
                    ))
                &&& *final(self) == (Sim { lines: final(self).lines, ..*old(self) })
            },
    {
        if self.enabled {
            return Err(
                Error::OperationFailed(OperationType::SimBankSetNumLines, errno::Errno(EBUSY)),
            );
        }
        let mut any_alive = false;
        let mut r: usize = 0;
        while r < self.requests.len()
            invariant
                r <= self.requests@.len(),
                any_alive == !(forall|k: int|
                    0 <= k < r ==> !(#[trigger] self.requests@[k]).alive),
            decreases self.requests@.len() - r,
        {
            if self.requests[r].alive {
                any_alive = true;
            }
            r = r + 1;
        }
        if any_alive {
            return Err(
                Error::OperationFailed(OperationType::SimBankSetNumLines, errno::Errno(EBUSY)),
            );
        }
        if num == 0 || num > MAX_SIM_LINES {
            return Err(
                Error::OperationFailed(OperationType::SimBankSetNumLines, errno::Errno(EINVAL)),
            );
        }
        let ghost s0 = *self;
        self.lines.truncate(num);
        while self.lines.len() < num
            invariant
                self.lines@.len() <= num,
                s0.lines@.len() > num ==> self.lines@.len() == num,
                s0.lines@.len() <= num ==> self.lines@.len() >= s0.lines@.len(),
                forall|o: int|
                    0 <= o < self.lines@.len() && o < s0.lines@.len() ==> self.lines@[o]
                        == s0.lines@[o],
                forall|o: int|
                    s0.lines@.len() <= o < self.lines@.len() ==> default_line(
                        #[trigger] self.lines@[o],
                    ),
                *self == (Sim { lines: self.lines, ..s0 }),
            decreases num - self.lines@.len(),
        {
            self.lines.push(new_line());
        }
        proof {
            lemma_wf_resized(s0, *self);
        }
        Ok(())
    }

    /// Name a line. The device must not be live; a name holding a NUL byte
    /// is rejected, and so is an offset beyond the line count.
    pub fn set_line_name(&mut self, offset: line::Offset, name: &str) -> (r: Result<()>)
        requires
            old(self).wf(),
        ensures
            final(self).wf(),
            old(self).enabled ==> r == Err::<(), Error>(
                Error::OperationFailed(OperationType::SimBankSetLineName, errno::Errno(EBUSY)),
            ) && *final(self) == *old(self),
            !old(self).enabled && offset >= old(self).lines@.len() ==> r == Err::<(), Error>(
                Error::OperationFailed(OperationType::SimBankSetLineName, errno::Errno(EINVAL)),
            ) && *final(self) == *old(self),
            !old(self).enabled && offset < old(self).lines@.len() && !str_has_no_nul(name) ==> r
                == Err::<(), Error>(Error::InvalidString) && *final(self) == *old(self),
            !old(self).enabled && offset < old(self).lines@.len() && str_has_no_nul(name) ==> {
                &&& r is Ok
                &&& final(self).lines@[offset as int] matches LineState { name: Some(n), .. }
                    && n@ == name@
                &&& final(self).lines@[offset as int] == (LineState {
                    name: final(self).lines@[offset as int].name,
                    ..old(self).lines@[offset as int]
                })
                &&& final(self).lines@ == old(self).lines@.update(
                    offset as int,
                    final(self).lines@[offset as int],
                )
                &&& *final(self) == (Sim { lines: final(self).lines, ..*old(self) })
            },
    {
        if self.enabled {
            return Err(
                Error::OperationFailed(OperationType::SimBankSetLineName, errno::Errno(EBUSY)),
            );
        }
        if offset as usize >= self.lines.len() {
            return Err(
                Error::OperationFailed(OperationType::SimBankSetLineName, errno::Errno(EINVAL)),
            );
        }
        if has_nul(name) {
            return Err(Error::InvalidString);
        }
        let ghost s0 = *self;
        self.lines[offset as usize].name = Some(name.to_owned());
        proof {
            lemma_wf_same_counters(s0, *self);
        }
        Ok(())
    }

    /// Hog a line: mark it used by the kernel under the given consumer
    /// name, with a fixed direction (and driven level for outputs). The
    /// device must not be live.
    pub fn hog_line(&mut self, offset: line::Offset, name: &str, dir: Direction) -> (r: Result<()>)
        requires
            old(self).wf(),
        ensures
            final(self).wf(),
            old(self).enabled ==> r == Err::<(), Error>(
                Error::OperationFailed(OperationType::SimBankHogLine, errno::Errno(EBUSY)),
            ) && *final(self) == *old(self),
            !old(self).enabled && offset >= old(self).lines@.len() ==> r == Err::<(), Error>(
                Error::OperationFailed(OperationType::SimBankHogLine, errno::Errno(EINVAL)),
            ) && *final(self) == *old(self),
            !old(self).enabled && offset < old(self).lines@.len() && !str_has_no_nul(name) ==> r
                == Err::<(), Error>(Error::InvalidString) && *final(self) == *old(self),
            !old(self).enabled && offset < old(self).lines@.len() && str_has_no_nul(name) ==> {
                &&& r is Ok
                &&& final(self).lines@[offset as int] matches LineState {
                    hog: Some(h),
                    direction: d,
                    output_value: v,
                    ..
                } && h.consumer@ == name@ && h.direction == dir && d == (
                if dir is Input {
                    line::Direction::Input
                } else {
                    line::Direction::Output
                }) && v == (
                if dir is OutputHigh {
                    line::Value::Active
                } else {
                    line::Value::InActive
                })
                &&& final(self).lines@[offset as int] == (LineState {
                    hog: final(self).lines@[offset as int].hog,
                    direction: final(self).lines@[offset as int].direction,
                    output_value: final(self).lines@[offset as int].output_value,
                    ..old(self).lines@[offset as int]
                })
                &&& final(self).lines@ == old(self).lines@.update(
                    offset as int,
                    final(self).lines@[offset as int],
                )
                &&& *final(self) == (Sim { lines: final(self).lines, ..*old(self) })
            },
    {
        if self.enabled {
            return Err(Error::OperationFailed(OperationType::SimBankHogLine, errno::Errno(EBUSY)));
        }
        if offset as usize >= self.lines.len() {
            return Err(Error::OperationFailed(OperationType::SimBankHogLine, errno::Errno(EINVAL)));
        }
        if has_nul(name) {
            return Err(Error::InvalidString);
        }
        let ghost s0 = *self;
        let o = offset as usize;
        self.lines[o].hog = Some(Hog { consumer: name.to_owned(), direction: dir });
        self.lines[o].direction = match dir {
            Direction::Input => line::Direction::Input,
            Direction::OutputHigh => line::Direction::Output,
            Direction::OutputLow => line::Direction::Output,
        };
        self.lines[o].output_value = match dir {
            Direction::OutputHigh => line::Value::Active,
            _ => line::Value::InActive,
        };
        proof {
            lemma_wf_same_counters(s0, *self);
        }
        Ok(())
    }

    /// Make the device live: the chip appears and its lines react.
    pub fn enable(&mut self) -> (r: Result<()>)
        requires
            old(self).wf(),
        ensures
            final(self).wf(),
            r is Ok,
            *final(self) == (Sim { enabled: true, ..*old(self) }),
    {
        self.enabled = true;
        Ok(())
    }

    /// Take the device down: the chip disappears.
    pub fn disable(&mut self) -> (r: Result<()>)
        requires
            old(self).wf(),
        ensures
            final(self).wf(),
            r is Ok,
            *final(self) == (Sim { enabled: false, ..*old(self) }),
    {
        self.enabled = false;
        Ok(())
    }
}


/// Appending an event with the next global number keeps the numbering
/// consecutive.
proof fn lemma_push_globals(q: Seq<edge_event::Event>, del: u64, ev: edge_event::Event)
    requires
        queue_globals_ok(q, del),
        ev.global_seq == del + 1 + q.len(),
    ensures
        queue_globals_ok(q.push(ev), del),
{
    reveal(queue_globals_ok);
    assert forall|i: int| 0 <= i < q.push(ev).len() implies (#[trigger] q.push(ev)[i]).global_seq
        == del + 1 + i by {
        if i < q.len() {
            assert(q.push(ev)[i] == q[i]);
        }
    }
}

/// Appending an event from a requested line keeps all queued events on
/// requested lines.
proof fn lemma_push_lines_ok(q: Seq<edge_event::Event>, offs: Seq<u32>, ev: edge_event::Event)
    requires
        queue_lines_ok(q, offs),
        offs.contains(ev.line),
    ensures
        queue_lines_ok(q.push(ev), offs),
{
    reveal(queue_lines_ok);
    assert forall|i: int| 0 <= i < q.push(ev).len() implies offs.contains(
        (#[trigger] q.push(ev)[i]).line,
    ) by {
        if i < q.len() {
            assert(q.push(ev)[i] == q[i]);
        }
    }
}

/// Lines of queued events stay within a table of unchanged length.
proof fn lemma_push_bounds(
    q: Seq<edge_event::Event>,
    l1: Seq<LineState>,
    l2: Seq<LineState>,
    off: u32,
    ev: edge_event::Event,
)
    requires
        queue_bounds_ok(q, l1),
        forall|i: int| 0 <= i < q.len() ==> 0 <= (#[trigger] q[i]).line < l1.len(),
        l2.len() == l1.len(),
        forall|o: int| 0 <= o < l1.len() && o != off ==> same_counters(l1[o], #[trigger] l2[o]),
        0 <= off < l1.len(),
        l2[off as int].line_delivered == l1[off as int].line_delivered,
        l2[off as int].line_generated == l1[off as int].line_generated + 1,
        l1[off as int].line_delivered <= l1[off as int].line_generated,
        ev.line == off,
        ev.line_seq == l1[off as int].line_generated + 1,
    ensures
        queue_bounds_ok(q.push(ev), l2),
{
    reveal(queue_bounds_ok);
    let q1 = q.push(ev);
    assert forall|i: int| 0 <= i < q1.len() implies l2[(#[trigger] q1[i]).line as int].line_delivered
        < q1[i].line_seq <= l2[q1[i].line as int].line_generated by {
        if i < q.len() {
            assert(q1[i] == q[i]);
            if q[i].line != off {
                assert(same_counters(l1[q[i].line as int], l2[q[i].line as int]));
            }
        }
    }
}

/// Appending an event with a fresh line number keeps line numbers strictly
/// increasing per line.
proof fn lemma_push_strict(
    q: Seq<edge_event::Event>,
    l1: Seq<LineState>,
    off: u32,
    ev: edge_event::Event,
)
    requires
        queue_strict_ok(q),
        queue_bounds_ok(q, l1),
        0 <= off < l1.len(),
        ev.line == off,
        ev.line_seq == l1[off as int].line_generated + 1,
    ensures
        queue_strict_ok(q.push(ev)),
{
    reveal(queue_strict_ok);
    reveal(queue_bounds_ok);
    let q1 = q.push(ev);
    assert forall|i: int, j: int|
        0 <= i < j < q1.len() && (#[trigger] q1[i]).line == (#[trigger] q1[j]).line implies q1[i].line_seq
        < q1[j].line_seq by {
        if j < q.len() {
            assert(q1[i] == q[i]);
            assert(q1[j] == q[j]);
        } else {
            assert(q1[i] == q[i]);
            assert(q1[j] == ev);
            if q[i].line == off {
                assert(q[i].line_seq <= l1[off as int].line_generated);
            }
        }
    }
}

/// Appending an event whose line had no queued event, to a settled line,
/// keeps each line's first queued event right after its read counter.
proof fn lemma_push_first(
    q: Seq<edge_event::Event>,
    offs: Seq<u32>,
    l1: Seq<LineState>,
    l2: Seq<LineState>,
    off: u32,
    ev: edge_event::Event,
)
    requires
        queue_first_ok(q, l1),
        quiet_lines_settled(offs, q, l1),
        forall|i: int| 0 <= i < q.len() ==> 0 <= (#[trigger] q[i]).line < l1.len(),
        l2.len() == l1.len(),
        forall|o: int| 0 <= o < l1.len() && o != off ==> same_counters(l1[o], #[trigger] l2[o]),
        0 <= off < l1.len(),
        l2[off as int].line_delivered == l1[off as int].line_delivered,
        offs.contains(off),
        ev.line == off,
        ev.line_seq == l1[off as int].line_generated + 1,
    ensures
        queue_first_ok(q.push(ev), l2),
{
    reveal(queue_first_ok);
    reveal(quiet_lines_settled);
    let q1 = q.push(ev);
    assert forall|i: int|
        0 <= i < q1.len() && (forall|k: int| 0 <= k < i ==> (#[trigger] q1[k]).line != q1[i].line)
        implies (#[trigger] q1[i]).line_seq == l2[q1[i].line as int].line_delivered + 1 by {
        if i < q.len() {
            assert(q1[i] == q[i]);
            assert forall|k: int| 0 <= k < i implies (#[trigger] q[k]).line != q[i].line by {
                assert(q1[k] == q[k]);
            }
            assert(q[i].line_seq == l1[q[i].line as int].line_delivered + 1);
            if q[i].line != off {
                assert(same_counters(l1[q[i].line as int], l2[q[i].line as int]));
            }
        } else {
            assert(q1[i] == ev);
            assert forall|k: int| 0 <= k < q.len() implies (#[trigger] q[k]).line != off by {
                assert(q1[k] == q[k]);
            }
            let j = choose|j: int| 0 <= j < offs.len() && offs[j] == off;
            assert(l1[off as int].line_generated == l1[off as int].line_delivered);
        }
    }
}

/// The appended event reaches its line's new produced counter, and stays
/// behind every other line's.
proof fn lemma_push_last(
    q: Seq<edge_event::Event>,
    l1: Seq<LineState>,
    l2: Seq<LineState>,
    off: u32,
    ev: edge_event::Event,
)
    requires
        queue_last_ok(q, l1),
        forall|i: int| 0 <= i < q.len() ==> 0 <= (#[trigger] q[i]).line < l1.len(),
        l2.len() == l1.len(),
        forall|o: int| 0 <= o < l1.len() && o != off ==> same_counters(l1[o], #[trigger] l2[o]),
        0 <= off < l1.len(),
        l2[off as int].line_generated == l1[off as int].line_generated + 1,
        ev.line == off,
        ev.line_seq == l1[off as int].line_generated + 1,
    ensures
        queue_last_ok(q.push(ev), l2),
{
    reveal(queue_last_ok);
    let q1 = q.push(ev);
    assert forall|i: int|
        0 <= i < q1.len() && (forall|k: int|
            i < k < q1.len() ==> (#[trigger] q1[k]).line != q1[i].line) implies (
    #[trigger] q1[i]).line_seq == l2[q1[i].line as int].line_generated by {
        if i < q.len() {
            assert(q1[i] == q[i]);
            assert(q1[q.len() as int] == ev);
            assert(q[i].line != off);
            assert forall|k: int| i < k < q.len() implies (#[trigger] q[k]).line != q[i].line by {
                assert(q1[k] == q[k]);
            }
            assert(q[i].line_seq == l1[q[i].line as int].line_generated);
            assert(same_counters(l1[q[i].line as int], l2[q[i].line as int]));
        } else {
            assert(q1[i] == ev);
        }
    }
}

/// Appending the next event of a line continues that line's numbering
/// contiguously.
#[verifier::rlimit(100)]
#[verifier::spinoff_prover]
proof fn lemma_push_contig(
    q: Seq<edge_event::Event>,
    l1: Seq<LineState>,
    off: u32,
    ev: edge_event::Event,
)
    requires
        queue_contiguous_ok(q),
        queue_last_ok(q, l1),
        0 <= off < l1.len(),
        ev.line == off,
        ev.line_seq == l1[off as int].line_generated + 1,
    ensures
        queue_contiguous_ok(q.push(ev)),
{
    let q1 = q.push(ev);
    assert forall|i: int, j: int|
        0 <= i < j < q1.len() && (#[trigger] q1[i]).line == (#[trigger] q1[j]).line
            && no_line_between(q1, q1[i].line, i, j) implies q1[j].line_seq == q1[i].line_seq
        + 1 by {
        assert(q1[i] == q[i]);
        if j < q.len() {
            assert(q1[j] == q[j]);
            assert(no_line_between(q, q[i].line, i, j)) by {
                reveal(no_line_between);
                assert forall|k: int| i < k < j implies (#[trigger] q[k]).line != q[i].line by {
                    assert(q1[k] == q[k]);
                }
            }
            assert(q[j].line_seq == q[i].line_seq + 1) by {
                reveal(queue_contiguous_ok);
            }
        } else {
            assert(q1[j] == ev);
            assert forall|k: int| i < k < q.len() implies (#[trigger] q[k]).line != q[i].line by {
                reveal(no_line_between);
                assert(q1[k] == q[k]);
            }
            assert(q[i].line_seq == l1[q[i].line as int].line_generated) by {
                reveal(queue_last_ok);
            }
        }
    }
    assert(queue_contiguous_ok(q1)) by {
        reveal(queue_contiguous_ok);
    }
}

/// There is a last queued event of any line that has one.
#[verifier::spinoff_prover]
proof fn lemma_last_occurrence(q: Seq<edge_event::Event>, o: u32)
    requires
        exists|i: int| 0 <= i < q.len() && (#[trigger] q[i]).line == o,
    ensures
        exists|i: int|
            0 <= i < q.len() && (#[trigger] q[i]).line == o && (forall|k: int|
                i < k < q.len() ==> q[k].line != o),
    decreases q.len(),
{
    if q.last().line == o {
        let w = q.len() - 1;
        assert(0 <= w < q.len() && q[w].line == o && (forall|k: int|
            w < k < q.len() ==> q[k].line != o));
    } else {
        let q0 = q.drop_last();
        let i0 = choose|i: int| 0 <= i < q.len() && (#[trigger] q[i]).line == o;
        assert(i0 < q0.len() && q0[i0] == q[i0]);
        lemma_last_occurrence(q0, o);
        let w = choose|i: int|
            0 <= i < q0.len() && (#[trigger] q0[i]).line == o && (forall|k: int|
                i < k < q0.len() ==> q0[k].line != o);
        assert(q[w] == q0[w]);
        assert forall|k: int| w < k < q.len() implies (#[trigger] q[k]).line != o by {
            if k < q0.len() {
                assert(q[k] == q0[k]);
            }
        }
        assert(0 <= w < q.len() && q[w].line == o && (forall|k: int|
            w < k < q.len() ==> q[k].line != o));
    }
}

/// A line's produced counter never runs ahead of the request's delivered
/// count plus its queue length.
#[verifier::spinoff_prover]
proof fn lemma_generated_bounded(
    q: Seq<edge_event::Event>,
    offs: Seq<u32>,
    l1: Seq<LineState>,
    del: u64,
    off: u32,
)
    requires
        queue_globals_ok(q, del),
        queue_last_ok(q, l1),
        queue_lineseq_le_global(q),
        quiet_lines_settled(offs, q, l1),
        line_delivered_bounded(offs, l1, del),
        offs.contains(off),
        0 <= off < l1.len(),
    ensures
        l1[off as int].line_generated <= del + q.len(),
{
    let j = choose|j: int| 0 <= j < offs.len() && offs[j] == off;
    if exists|k: int| 0 <= k < q.len() && (#[trigger] q[k]).line == off {
        lemma_last_occurrence(q, off);
        let w = choose|w: int|
            0 <= w < q.len() && (#[trigger] q[w]).line == off && (forall|k: int|
                w < k < q.len() ==> q[k].line != off);
        assert(q[w].line_seq == l1[off as int].line_generated) by {
            reveal(queue_last_ok);
        }
        assert(q[w].line_seq <= q[w].global_seq) by {
            reveal(queue_lineseq_le_global);
        }
        assert(q[w].global_seq == del + 1 + w) by {
            reveal(queue_globals_ok);
        }
    } else {
        assert(l1[off as int].line_generated == l1[off as int].line_delivered) by {
            reveal(quiet_lines_settled);
        }
        assert(l1[off as int].line_delivered <= del) by {
            reveal(line_delivered_bounded);
        }
    }
}

/// Appending an event whose line number stays behind its global number
/// keeps that bound over the queue.
proof fn lemma_push_lineseq(q: Seq<edge_event::Event>, ev: edge_event::Event)
    requires
        queue_lineseq_le_global(q),
        ev.line_seq <= ev.global_seq,
    ensures
        queue_lineseq_le_global(q.push(ev)),
{
    reveal(queue_lineseq_le_global);
    let q1 = q.push(ev);
    assert forall|i: int| 0 <= i < q1.len() implies (#[trigger] q1[i]).line_seq
        <= q1[i].global_seq by {
        if i < q.len() {
            assert(q1[i] == q[i]);
        } else {
            assert(q1[i] == ev);
        }
    }
}

impl Sim {
    /// Set the external pull of a line. When the pull flips the logical
    /// level of a held input line whose edge detection covers the
    /// transition's polarity, one edge event is produced for the holding
    /// request, timestamped by the device clock.
    #[verifier::rlimit(100)]
    #[verifier::spinoff_prover]
    pub fn set_pull(&mut self, offset: line::Offset, pull: Pull) -> (r: Result<()>)
        requires
            old(self).wf(),
            old(self).can_step(),
        ensures
            final(self).wf(),
            !old(self).enabled ==> r == Err::<(), Error>(
                Error::OperationFailed(OperationType::SimBankSetPull, errno::Errno(ENODEV)),
            ) && *final(self) == *old(self),
            old(self).enabled && offset >= old(self).lines@.len() ==> r == Err::<(), Error>(
                Error::OperationFailed(OperationType::SimBankSetPull, errno::Errno(EINVAL)),
            ) && *final(self) == *old(self),
            old(self).enabled && offset < old(self).lines@.len() ==> r is Ok && set_pull_rel(
                *old(self),
                *final(self),
                offset,
                pull,
            ),
    {
        if !self.enabled {
            return Err(Error::OperationFailed(OperationType::SimBankSetPull, errno::Errno(ENODEV)));
        }
        if offset as usize >= self.lines.len() {
            return Err(Error::OperationFailed(OperationType::SimBankSetPull, errno::Errno(EINVAL)));
        }
        let ghost s0 = *self;
        let o = offset as usize;
        let fires: Option<line::EdgeKind> = {
            let l = &self.lines[o];
            if l.owner.is_some() && matches!(l.direction, line::Direction::Input) {
                let v0: bool = matches!(l.pull, Pull::Up) != l.active_low;
                let v1: bool = matches!(pull, Pull::Up) != l.active_low;
                if v0 == v1 {
                    None
                } else {
                    let rising = v1;
                    match l.edge {
                        None => None,
                        Some(line::Edge::Rising) => if rising {
                            Some(line::EdgeKind::Rising)
                        } else {
                            None
                        },
                        Some(line::Edge::Falling) => if !rising {
                            Some(line::EdgeKind::Falling)
                        } else {
                            None
                        },
                        Some(line::Edge::Both) => if rising {
                            Some(line::EdgeKind::Rising)
                        } else {
                            Some(line::EdgeKind::Falling)
                        },
                    }
                }
            } else {
                None
            }
        };
        proof {
            assert(fires == pull_event(s0.lines@[o as int], pull));
        }
        match fires {
            None => {
                self.lines[o].pull = pull;
                proof {
                    lemma_wf_same_counters(s0, *self);
                }
                Ok(())
            },
            Some(kind) => {
                let rid = self.lines[o].owner.unwrap();
                proof {
                    assert(line_wf(s0.lines@, o as int, s0.requests@));
                }
                self.now_ns = self.now_ns + 1;
                let delivered = self.requests[rid].delivered;
                let qlen = self.requests[rid].queue.len();
                proof {
                    assert(s0.requests@[rid as int].delivered + s0.requests@[rid as int].queue@.len()
                        + 64 <= u64::MAX);
                }
                let gseq: u64 = delivered + (qlen as u64) + 1;
                let lseq: u64 = self.lines[o].line_generated + 1;
                self.lines[o].pull = pull;
                self.lines[o].line_generated = lseq;
                let ev = edge_event::Event {
                    kind,
                    timestamp_ns: self.now_ns,
                    line: offset,
                    global_seq: gseq,
                    line_seq: lseq,
                };
                proof {
                    let l1 = s0.lines@;
                    let l2 = self.lines@;
                    let rq = s0.requests@[rid as int];
                    assert(request_wf(rq, rid as int, l1));
                    reveal(request_wf);
                    assert(rq.offsets@.contains(offset));
                    lemma_queue_lines_in_range(rq.queue@, rq.offsets@, rid as int, l1);
                }
                self.requests[rid].queue.push(ev);
                proof {
                    let l1 = s0.lines@;
                    let l2 = self.lines@;
                    let rq = s0.requests@[rid as int];
                    let q = rq.queue@;
                    let offs = rq.offsets@;
                    reveal(request_wf);
                    assert(l1[offset as int].owner == Some(rid));
                    assert(l2.len() == l1.len());
                    assert forall|oo: int|
                        0 <= oo < l1.len() && oo != offset implies same_counters(
                        l1[oo],
                        #[trigger] l2[oo],
                    ) by {
                        assert(l2[oo] == l1[oo]);
                    }
                    assert forall|rr: int| 0 <= rr < self.requests@.len() implies request_wf(
                        #[trigger] self.requests@[rr],
                        rr,
                        l2,
                    ) by {
                        assert(request_wf(s0.requests@[rr], rr, l1));
                        if rr != rid as int {
                            let rq2 = self.requests@[rr];
                            assert(rq2 == s0.requests@[rr]);
                            assert(self.requests@.len() <= usize::MAX) by {
                                assert(self.requests@.len() == self.requests.len());
                            }
                            lemma_other_request_preserved(rq2, rr, rid as int, l1, l2, offset);
                        } else {
                            let rq1 = self.requests@[rr];
                            assert(rq1.queue@ == q.push(ev));
                            assert(rq1.offsets@ == offs && rq1.delivered == rq.delivered
                                && rq1.alive == rq.alive);
                            assert(rq.alive);
                            reveal(offsets_wf);
                            assert forall|ii: int|
                                0 <= ii < offs.len() && offs[ii] != offset implies same_counters(
                                l1[#[trigger] offs[ii] as int],
                                l2[offs[ii] as int],
                            ) by {}
                            assert(offsets_wf(offs, rr, l2)) by {
                                assert forall|ii: int|
                                    0 <= ii < offs.len() implies l2[#[trigger] offs[ii] as int].owner
                                    == Some(rr as usize) by {
                                    assert(l1[offs[ii] as int].owner == Some(rr as usize));
                                }
                            }
                            assert(quiet_lines_settled(offs, rq1.queue@, l2)) by {
                                reveal(quiet_lines_settled);
                                assert forall|ii: int|
                                    0 <= ii < offs.len() && (forall|k: int|
                                        0 <= k < rq1.queue@.len() ==> (#[trigger] rq1.queue@[k]).line
                                            != offs[ii]) implies l2[(
                                #[trigger] offs[ii]) as int].line_generated == l2[offs[ii] as int].line_delivered by {
                                    assert(rq1.queue@[q.len() as int] == ev);
                                    assert(offs[ii] != offset);
                                    assert forall|k: int|
                                        0 <= k < q.len() implies (#[trigger] q[k]).line != offs[ii] by {
                                        assert(rq1.queue@[k] == q[k]);
                                    }
                                }
                            }
                            assert(line_delivered_bounded(offs, l2, rq1.delivered)) by {
                                reveal(line_delivered_bounded);
                                assert forall|ii: int| 0 <= ii < offs.len() implies l2[(
                                #[trigger] offs[ii]) as int].line_delivered <= rq1.delivered by {
                                    assert(l1[offs[ii] as int].line_delivered <= rq.delivered);
                                    assert(l2[offs[ii] as int].line_delivered == l1[offs[ii] as int].line_delivered);
                                }
                            }
                            lemma_queue_lines_in_range(q, offs, rr, l1);
                            lemma_push_globals(q, rq.delivered, ev);
                            lemma_push_lines_ok(q, offs, ev);
                            lemma_push_bounds(q, l1, l2, offset, ev);
                            lemma_push_strict(q, l1, offset, ev);
                            lemma_push_first(q, offs, l1, l2, offset, ev);
                            lemma_push_last(q, l1, l2, offset, ev);
                            lemma_push_contig(q, l1, offset, ev);
                            lemma_generated_bounded(q, offs, l1, rq.delivered, offset);
                            lemma_push_lineseq(q, ev);
                        }
                    }
                    assert forall|oo: int| 0 <= oo < l2.len() implies line_wf(
                        l2,
                        oo,
                        self.requests@,
                    ) by {
                        assert(line_wf(l1, oo, s0.requests@));
                        if oo != o as int {
                            assert(l2[oo] == l1[oo]);
                        }
                        if l2[oo].owner is Some {
                            let rw = l2[oo].owner->0 as int;
                            assert(self.requests@[rw].alive == s0.requests@[rw].alive);
                            assert(self.requests@[rw].offsets@ == s0.requests@[rw].offsets@);
                        }
                    }
                    assert(self.wf());
                }
                Ok(())
            },
        }
    }
}

/// Transfer of one request's well-formedness to a line table that agrees
/// on owners and counters at that request's offsets.
proof fn lemma_wf_transfer_one(rq: RequestState, rid: int, l1: Seq<LineState>, l2: Seq<LineState>)
    requires
        request_wf(rq, rid, l1),
        rq.alive,
        l2.len() == l1.len(),
        forall|i: int|
            0 <= i < rq.offsets@.len() ==> same_counters(
                l1[#[trigger] rq.offsets@[i] as int],
                l2[rq.offsets@[i] as int],
            ),
    ensures
        request_wf(rq, rid, l2),
{
    reveal(request_wf);
    let q = rq.queue@;
    let offs = rq.offsets@;
    lemma_offsets_wf_transfer(offs, rid, l1, l2);
    lemma_quiet_transfer(offs, rid, q, l1, l2);
    lemma_del_bounded_transfer(offs, rid, rq.delivered, l1, l2);
    lemma_queue_bounds_transfer(q, offs, rid, l1, l2);
    lemma_queue_first_transfer(q, offs, rid, l1, l2);
    lemma_queue_last_transfer(q, offs, rid, l1, l2);
}

/// A request other than the one holding the changed line is untouched by
/// a change of that line's counters.
proof fn lemma_other_request_preserved(
    rq2: RequestState,
    rr: int,
    rid: int,
    l1: Seq<LineState>,
    l2: Seq<LineState>,
    off: u32,
)
    requires
        request_wf(rq2, rr, l1),
        rr != rid,
        0 <= rr <= usize::MAX,
        0 <= rid <= usize::MAX,
        l2.len() == l1.len(),
        forall|o: int| 0 <= o < l1.len() && o != off ==> same_counters(l1[o], #[trigger] l2[o]),
        0 <= off < l1.len(),
        l1[off as int].owner == Some(rid as usize),
    ensures
        request_wf(rq2, rr, l2),
{
    if rq2.alive {
        assert(offsets_wf(rq2.offsets@, rr, l1)) by {
            reveal(request_wf);
        }
        assert forall|i: int|
            0 <= i < rq2.offsets@.len() implies same_counters(
            l1[#[trigger] rq2.offsets@[i] as int],
            l2[rq2.offsets@[i] as int],
        ) by {
            reveal(offsets_wf);
            assert(l1[rq2.offsets@[i] as int].owner == Some(rr as usize));
            assert(rq2.offsets@[i] != off);
        }
        lemma_wf_transfer_one(rq2, rr, l1, l2);
    } else {
        reveal(request_wf);
        lemma_queue_preds_empty(rq2.queue@, l2);
    }
}

/// What one pull change does to the device: the line records the new pull,
/// and when the change makes a detected logical transition on a held input
/// line, the holding request's queue gains one event carrying the next
/// global and per-line sequence numbers and a fresh timestamp.
pub open spec fn set_pull_rel(s0: Sim, s1: Sim, offset: u32, pull: Pull) -> bool {
    let l0 = s0.lines@[offset as int];
    &&& s1.name == s0.name
    &&& s1.path == s0.path
    &&& s1.label == s0.label
    &&& s1.enabled == s0.enabled
    &&& s1.info_queue == s0.info_queue
    &&& s1.lines@.len() == s0.lines@.len()
    &&& (forall|o: int|
        0 <= o < s0.lines@.len() && o != offset ==> s1.lines@[o] == s0.lines@[o])
    &&& match pull_event(l0, pull) {
        None => {
            &&& s1.now_ns == s0.now_ns
            &&& s1.requests@ == s0.requests@
            &&& s1.lines@[offset as int] == (LineState { pull, ..l0 })
        },
        Some(kind) => {
            let rid = l0.owner->0 as int;
            let rq0 = s0.requests@[rid];
            let ev = edge_event::Event {
                kind,
                timestamp_ns: (s0.now_ns + 1) as u64,
                line: offset,
                global_seq: (rq0.delivered + rq0.queue@.len() + 1) as u64,
                line_seq: (l0.line_generated + 1) as u64,
            };
            &&& s1.now_ns == s0.now_ns + 1
            &&& s1.lines@[offset as int] == (LineState {
                pull,
                line_generated: (l0.line_generated + 1) as u64,
                ..l0
            })
            &&& s1.requests@.len() == s0.requests@.len()
            &&& (forall|r: int|
                0 <= r < s0.requests@.len() && r != rid ==> s1.requests@[r] == s0.requests@[r])
            &&& s1.requests@[rid].alive == rq0.alive
            &&& s1.requests@[rid].offsets == rq0.offsets
            &&& s1.requests@[rid].delivered == rq0.delivered
            &&& s1.requests@[rid].queue@ == rq0.queue@.push(ev)
        },
    }
}


/// A request whose owned lines are untouched keeps its well-formedness
/// under any change of other lines.
pub(crate) proof fn lemma_owner_lines_untouched(
    rq2: RequestState,
    rr: int,
    l1: Seq<LineState>,
    l2: Seq<LineState>,
)
    requires
        request_wf(rq2, rr, l1),
        0 <= rr <= usize::MAX,
        l2.len() == l1.len(),
        forall|o: int|
            0 <= o < l1.len() && l1[o].owner == Some(rr as usize) ==> same_counters(
                l1[o],
                #[trigger] l2[o],
            ),
    ensures
        request_wf(rq2, rr, l2),
{
    if rq2.alive {
        assert(offsets_wf(rq2.offsets@, rr, l1)) by {
            reveal(request_wf);
        }
        assert forall|i: int|
            0 <= i < rq2.offsets@.len() implies same_counters(
            l1[#[trigger] rq2.offsets@[i] as int],
            l2[rq2.offsets@[i] as int],
        ) by {
            reveal(offsets_wf);
            assert(l1[rq2.offsets@[i] as int].owner == Some(rr as usize));
        }
        lemma_wf_transfer_one(rq2, rr, l1, l2);
    } else {
        reveal(request_wf);
        lemma_queue_preds_empty(rq2.queue@, l2);
    }
}

/// Dropping the front event renumbers the remaining globals consecutively
/// from one more delivered.
proof fn lemma_pop_globals(q: Seq<edge_event::Event>, del: u64, del1: u64)
    requires
        queue_globals_ok(q, del),
        q.len() > 0,
        del1 == del + 1,
    ensures
        queue_globals_ok(q.subrange(1, q.len() as int), del1),
{
    reveal(queue_globals_ok);
    let q1 = q.subrange(1, q.len() as int);
    assert forall|i: int| 0 <= i < q1.len() implies (#[trigger] q1[i]).global_seq == del1 + 1
        + i by {
        assert(q1[i] == q[i + 1]);
    }
}

/// The remaining events still come from requested lines.
proof fn lemma_pop_lines_ok(q: Seq<edge_event::Event>, offs: Seq<u32>)
    requires
        queue_lines_ok(q, offs),
        q.len() > 0,
    ensures
        queue_lines_ok(q.subrange(1, q.len() as int), offs),
{
    reveal(queue_lines_ok);
    let q1 = q.subrange(1, q.len() as int);
    assert forall|i: int| 0 <= i < q1.len() implies offs.contains((#[trigger] q1[i]).line) by {
        assert(q1[i] == q[i + 1]);
    }
}

/// Dropped-front queues keep each event's line numbers between its line's
/// read and produced counters, once the front line's read counter advances.
#[verifier::spinoff_prover]
proof fn lemma_pop_bounds(q: Seq<edge_event::Event>, l1: Seq<LineState>, l2: Seq<LineState>)
    requires
        queue_bounds_ok(q, l1),
        queue_strict_ok(q),
        q.len() > 0,
        forall|i: int| 0 <= i < q.len() ==> 0 <= (#[trigger] q[i]).line < l1.len(),
        l2.len() == l1.len(),
        forall|o: int| 0 <= o < l1.len() && o != q[0].line ==> #[trigger] l2[o] == l1[o],
        0 <= q[0].line < l1.len(),
        l2[q[0].line as int] == (LineState {
            line_delivered: q[0].line_seq,
            ..l1[q[0].line as int]
        }),
    ensures
        queue_bounds_ok(q.subrange(1, q.len() as int), l2),
{
    reveal(queue_bounds_ok);
    reveal(queue_strict_ok);
    let e = q[0];
    let q1 = q.subrange(1, q.len() as int);
    assert forall|i: int|
        0 <= i < q1.len() implies l2[(#[trigger] q1[i]).line as int].line_delivered
        < q1[i].line_seq <= l2[q1[i].line as int].line_generated by {
        assert(q1[i] == q[i + 1]);
        if q[i + 1].line == e.line {
            assert(e.line_seq < q[i + 1].line_seq);
        }
    }
}

/// Dropped-front queues keep strictly increasing per-line numbering.
proof fn lemma_pop_strict(q: Seq<edge_event::Event>)
    requires
        queue_strict_ok(q),
        q.len() > 0,
    ensures
        queue_strict_ok(q.subrange(1, q.len() as int)),
{
    reveal(queue_strict_ok);
    let q1 = q.subrange(1, q.len() as int);
    assert forall|i: int, j: int|
        0 <= i < j < q1.len() && (#[trigger] q1[i]).line == (#[trigger] q1[j]).line
        implies q1[i].line_seq < q1[j].line_seq by {
        assert(q1[i] == q[i + 1]);
        assert(q1[j] == q[j + 1]);
    }
}

/// After the front event leaves and its line's read counter advances to
/// its number, each line's first remaining event still continues its
/// line's read counter.
#[verifier::rlimit(100)]
#[verifier::spinoff_prover]
proof fn lemma_pop_first(q: Seq<edge_event::Event>, l1: Seq<LineState>, l2: Seq<LineState>)
    requires
        queue_first_ok(q, l1),
        queue_contiguous_ok(q),
        q.len() > 0,
        forall|i: int| 0 <= i < q.len() ==> 0 <= (#[trigger] q[i]).line < l1.len(),
        l2.len() == l1.len(),
        forall|o: int| 0 <= o < l1.len() && o != q[0].line ==> #[trigger] l2[o] == l1[o],
        0 <= q[0].line < l1.len(),
        l2[q[0].line as int] == (LineState {
            line_delivered: q[0].line_seq,
            ..l1[q[0].line as int]
        }),
    ensures
        queue_first_ok(q.subrange(1, q.len() as int), l2),
{
    let e = q[0];
    let q1 = q.subrange(1, q.len() as int);
    assert forall|i: int|
        0 <= i < q1.len() && (forall|k: int| 0 <= k < i ==> (#[trigger] q1[k]).line != q1[i].line)
        implies (#[trigger] q1[i]).line_seq == l2[q1[i].line as int].line_delivered + 1 by {
        assert(q1[i] == q[i + 1]);
        assert forall|k: int| 1 <= k < i + 1 implies (#[trigger] q[k]).line != q[i + 1].line by {
            assert(q1[k - 1] == q[k]);
        }
        if q[i + 1].line == e.line {
            assert(no_line_between(q, q[0].line, 0, i + 1)) by {
                reveal(no_line_between);
            }
            assert(q[i + 1].line_seq == q[0].line_seq + 1) by {
                reveal(queue_contiguous_ok);
            }
        } else {
            assert forall|k: int| 0 <= k < i + 1 implies (#[trigger] q[k]).line != q[i
                + 1].line by {
                if k >= 1 {
                    assert(q1[k - 1] == q[k]);
                }
            }
            assert(q[i + 1].line_seq == l1[q[i + 1].line as int].line_delivered + 1) by {
                reveal(queue_first_ok);
            }
        }
    }
    assert(queue_first_ok(q1, l2)) by {
        reveal(queue_first_ok);
    }
}

/// Dropped-front queues keep each line's last event at its produced
/// counter.
#[verifier::spinoff_prover]
proof fn lemma_pop_last(q: Seq<edge_event::Event>, l1: Seq<LineState>, l2: Seq<LineState>)
    requires
        queue_last_ok(q, l1),
        q.len() > 0,
        forall|i: int| 0 <= i < q.len() ==> 0 <= (#[trigger] q[i]).line < l1.len(),
        l2.len() == l1.len(),
        forall|o: int| 0 <= o < l1.len() && o != q[0].line ==> #[trigger] l2[o] == l1[o],
        0 <= q[0].line < l1.len(),
        l2[q[0].line as int].line_generated == l1[q[0].line as int].line_generated,
    ensures
        queue_last_ok(q.subrange(1, q.len() as int), l2),
{
    reveal(queue_last_ok);
    let q1 = q.subrange(1, q.len() as int);
    assert forall|i: int|
        0 <= i < q1.len() && (forall|k: int|
            i < k < q1.len() ==> (#[trigger] q1[k]).line != q1[i].line) implies (
    #[trigger] q1[i]).line_seq == l2[q1[i].line as int].line_generated by {
        assert(q1[i] == q[i + 1]);
        assert forall|k: int| i + 1 < k < q.len() implies (#[trigger] q[k]).line != q[i
            + 1].line by {
            assert(q1[k - 1] == q[k]);
        }
        assert(q[i + 1].line_seq == l1[q[i + 1].line as int].line_generated);
    }
}

/// Dropped-front queues keep consecutive per-line numbering.
#[verifier::rlimit(100)]
#[verifier::spinoff_prover]
proof fn lemma_pop_contig(q: Seq<edge_event::Event>)
    requires
        queue_contiguous_ok(q),
        q.len() > 0,
    ensures
        queue_contiguous_ok(q.subrange(1, q.len() as int)),
{
    let q1 = q.subrange(1, q.len() as int);
    assert forall|i: int, j: int|
        0 <= i < j < q1.len() && (#[trigger] q1[i]).line == (#[trigger] q1[j]).line
            && no_line_between(q1, q1[i].line, i, j) implies q1[j].line_seq == q1[i].line_seq
        + 1 by {
        assert(q1[i] == q[i + 1]);
        assert(q1[j] == q[j + 1]);
        assert(no_line_between(q, q[i + 1].line, i + 1, j + 1)) by {
            reveal(no_line_between);
            assert forall|k: int| i + 1 < k < j + 1 implies (#[trigger] q[k]).line != q[i
                + 1].line by {
                assert(q1[k - 1] == q[k]);
            }
        }
        assert(q[j + 1].line_seq == q[i + 1].line_seq + 1) by {
            reveal(queue_contiguous_ok);
        }
    }
    assert(queue_contiguous_ok(q1)) by {
        reveal(queue_contiguous_ok);
    }
}

/// Dropped-front queues keep line numbers behind global numbers.
proof fn lemma_pop_lineseq(q: Seq<edge_event::Event>)
    requires
        queue_lineseq_le_global(q),
        q.len() > 0,
    ensures
        queue_lineseq_le_global(q.subrange(1, q.len() as int)),
{
    reveal(queue_lineseq_le_global);
    let q1 = q.subrange(1, q.len() as int);
    assert forall|i: int| 0 <= i < q1.len() implies (#[trigger] q1[i]).line_seq
        <= q1[i].global_seq by {
        assert(q1[i] == q[i + 1]);
    }
}

/// The settled-lines and read-bound predicates survive dropping the front
/// event.
#[verifier::spinoff_prover]
proof fn lemma_pop_offsets(
    q: Seq<edge_event::Event>,
    offs: Seq<u32>,
    l1: Seq<LineState>,
    l2: Seq<LineState>,
    del: u64,
    del1: u64,
    rid: int,
)
    requires
        offsets_wf(offs, rid, l1),
        quiet_lines_settled(offs, q, l1),
        line_delivered_bounded(offs, l1, del),
        queue_globals_ok(q, del),
        queue_last_ok(q, l1),
        queue_lineseq_le_global(q),
        q.len() > 0,
        del1 == del + 1,
        l2.len() == l1.len(),
        forall|o: int|
            0 <= o < l1.len() && o != q[0].line ==> #[trigger] l2[o] == l1[o],
        0 <= q[0].line < l1.len(),
        l2[q[0].line as int] == (LineState {
            line_delivered: q[0].line_seq,
            ..l1[q[0].line as int]
        }),
    ensures
        offsets_wf(offs, rid, l2),
        quiet_lines_settled(offs, q.subrange(1, q.len() as int), l2),
        line_delivered_bounded(offs, l2, del1),
{
    let e = q[0];
    let q1 = q.subrange(1, q.len() as int);
    assert(offsets_wf(offs, rid, l2)) by {
        reveal(offsets_wf);
        assert forall|i: int| 0 <= i < offs.len() implies l2[#[trigger] offs[i] as int].owner
            == Some(rid as usize) by {
            assert(l1[offs[i] as int].owner == Some(rid as usize));
        }
    }
    assert(quiet_lines_settled(offs, q1, l2)) by {
        reveal(quiet_lines_settled);
        reveal(queue_last_ok);
        assert forall|i: int|
            0 <= i < offs.len() && (forall|k: int|
                0 <= k < q1.len() ==> (#[trigger] q1[k]).line != offs[i]) implies l2[(
        #[trigger] offs[i]) as int].line_generated == l2[offs[i] as int].line_delivered by {
            assert(0 <= offs[i] < l1.len()) by {
                reveal(offsets_wf);
            }
            if offs[i] == e.line {
                assert forall|k: int| 0 < k < q.len() implies (#[trigger] q[k]).line
                    != e.line by {
                    assert(q1[k - 1] == q[k]);
                }
                assert(e.line_seq == l1[e.line as int].line_generated);
            } else {
                assert forall|k: int| 0 <= k < q.len() implies (#[trigger] q[k]).line
                    != offs[i] by {
                    if k >= 1 {
                        assert(q1[k - 1] == q[k]);
                    }
                }
                assert(l1[offs[i] as int].line_generated == l1[offs[i] as int].line_delivered);
            }
        }
    }
    assert(line_delivered_bounded(offs, l2, del1)) by {
        reveal(line_delivered_bounded);
        reveal(queue_globals_ok);
        reveal(queue_lineseq_le_global);
        assert forall|i: int| 0 <= i < offs.len() implies l2[(
        #[trigger] offs[i]) as int].line_delivered <= del1 by {
            assert(0 <= offs[i] < l1.len()) by {
                reveal(offsets_wf);
            }
            if offs[i] == e.line {
                assert(e.line_seq <= e.global_seq);
                assert(e.global_seq == del + 1);
            } else {
                assert(l2[offs[i] as int] == l1[offs[i] as int]);
                assert(l1[offs[i] as int].line_delivered <= del);
            }
        }
    }
}

impl Sim {
    /// Take the oldest queued edge event off a request, advancing the
    /// request's delivered count and the event's line's read counter.
    #[verifier::rlimit(100)]
    #[verifier::spinoff_prover]
    pub(crate) fn pop_event(&mut self, rid: usize) -> (ev: edge_event::Event)
        requires
            old(self).wf(),
            rid < old(self).requests@.len(),
            old(self).requests@[rid as int].queue@.len() > 0,
        ensures
            final(self).wf(),
            ev == old(self).requests@[rid as int].queue@[0],
            0 <= ev.line < old(self).lines@.len(),
            final(self).requests@.len() == old(self).requests@.len(),
            (forall|rr: int|
                0 <= rr < old(self).requests@.len() && rr != rid ==> final(self).requests@[rr]
                    == old(self).requests@[rr]),
            final(self).requests@[rid as int].alive == old(self).requests@[rid as int].alive,
            final(self).requests@[rid as int].offsets == old(self).requests@[rid as int].offsets,
            final(self).requests@[rid as int].delivered == old(self).requests@[rid as int].delivered
                + 1,
            final(self).requests@[rid as int].queue@ == old(self).requests@[rid as int].queue@.subrange(
                1,
                old(self).requests@[rid as int].queue@.len() as int,
            ),
            final(self).lines@ == old(self).lines@.update(
                ev.line as int,
                (LineState { line_delivered: ev.line_seq, ..old(self).lines@[ev.line as int] }),
            ),
            *final(self) == (Sim {
                lines: final(self).lines,
                requests: final(self).requests,
                ..*old(self)
            }),
    {
        let ghost s0 = *self;
        let ghost rq = s0.requests@[rid as int];
        let ghost q = rq.queue@;
        proof {
            assert(request_wf(rq, rid as int, s0.lines@));
            reveal(request_wf);
            assert(rq.alive);
            lemma_queue_lines_in_range(q, rq.offsets@, rid as int, s0.lines@);
            reveal(queue_globals_ok);
            assert(q[0].global_seq == rq.delivered + 1);
        }
        let ev = self.requests[rid].queue.remove(0);
        let del = self.requests[rid].delivered;
        self.requests[rid].delivered = del + 1;
        self.lines[ev.line as usize].line_delivered = ev.line_seq;
        proof {
            let l1 = s0.lines@;
            let l2 = self.lines@;
            let q1 = q.subrange(1, q.len() as int);
            assert(self.requests@[rid as int].queue@ =~= q1);
            assert(l2 == l1.update(ev.line as int, (LineState {
                line_delivered: ev.line_seq,
                ..l1[ev.line as int]
            })));
            assert forall|rr: int| 0 <= rr < self.requests@.len() implies request_wf(
                #[trigger] self.requests@[rr],
                rr,
                l2,
            ) by {
                assert(request_wf(s0.requests@[rr], rr, l1));
                if rr != rid as int {
                    assert(self.requests@.len() <= usize::MAX) by {
                        assert(self.requests@.len() == self.requests.len());
                    }
                    assert(l1[ev.line as int].owner == Some(rid)) by {
                        reveal(request_wf);
                        reveal(queue_lines_ok);
                        reveal(offsets_wf);
                        assert(rq.offsets@.contains(q[0].line));
                        let j = choose|j: int|
                            0 <= j < rq.offsets@.len() && (#[trigger] rq.offsets@[j]) == q[0].line;
                    }
                    lemma_other_request_preserved(
                        self.requests@[rr],
                        rr,
                        rid as int,
                        l1,
                        l2,
                        ev.line,
                    );
                } else {
                    reveal(request_wf);
                    lemma_pop_globals(q, rq.delivered, (rq.delivered + 1) as u64);
                    lemma_pop_lines_ok(q, rq.offsets@);
                    lemma_pop_bounds(q, l1, l2);
                    lemma_pop_strict(q);
                    lemma_pop_first(q, l1, l2);
                    lemma_pop_last(q, l1, l2);
                    lemma_pop_contig(q);
                    lemma_pop_lineseq(q);
                    lemma_pop_offsets(
                        q,
                        rq.offsets@,
                        l1,
                        l2,
                        rq.delivered,
                        (rq.delivered + 1) as u64,
                        rid as int,
                    );
                }
            }
            assert forall|o: int| 0 <= o < l2.len() implies line_wf(l2, o, self.requests@) by {
                assert(line_wf(l1, o, s0.requests@));
                if o == ev.line as int {
                    assert(queue_bounds_ok(q, l1)) by {
                        reveal(request_wf);
                    }
                    assert(ev.line_seq <= l1[o].line_generated) by {
                        reveal(queue_bounds_ok);
                    }
                }
                if l2[o].owner is Some {
                    let rw = l2[o].owner->0 as int;
                    assert(self.requests@[rw].alive == s0.requests@[rw].alive);
                    assert(self.requests@[rw].offsets@ == s0.requests@[rw].offsets@);
                }
            }
            assert(self.wf());
        }
        ev
    }
}

/// A device stays well formed when one request is released: the request
/// dies with an empty queue and each of its lines returns to an unowned
/// state with cleared counters.
#[verifier::rlimit(100)]
#[verifier::spinoff_prover]
pub(crate) proof fn lemma_wf_released(s0: Sim, s2: Sim, rid: int, offs: Seq<u32>)
    requires
        s0.wf(),
        0 <= rid < s0.requests@.len(),
        s0.requests@[rid].alive,
        s0.requests@[rid].offsets@ == offs,
        s2.lines@.len() == s0.lines@.len(),
        s2.requests@.len() == s0.requests@.len(),
        forall|rr: int|
            0 <= rr < s0.requests@.len() && rr != rid ==> s2.requests@[rr] == #[trigger] s0.requests@[rr],
        !s2.requests@[rid].alive,
        s2.requests@[rid].queue@.len() == 0,
        forall|o: int|
            0 <= o < s0.lines@.len() && !offs.contains(o as u32) ==> #[trigger] s2.lines@[o]
                == s0.lines@[o],
        forall|i: int|
            0 <= i < offs.len() ==> (#[trigger] s2.lines@[offs[i] as int]).owner is None
                && s2.lines@[offs[i] as int].line_generated == 0
                && s2.lines@[offs[i] as int].line_delivered == 0,
    ensures
        s2.wf(),
{
    let l1 = s0.lines@;
    let l2 = s2.lines@;
    assert forall|rr: int| 0 <= rr < s2.requests@.len() implies request_wf(
        #[trigger] s2.requests@[rr],
        rr,
        l2,
    ) by {
        assert(request_wf(s0.requests@[rr], rr, l1));
        assert(s0.requests@.len() <= usize::MAX) by {
            assert(s0.requests@.len() == s0.requests.len());
        }
        if rr != rid {
            assert forall|o: int|
                0 <= o < l1.len() && l1[o].owner == Some(rr as usize) implies same_counters(
                l1[o],
                #[trigger] l2[o],
            ) by {
                if offs.contains(o as u32) {
                    let k = choose|k: int| 0 <= k < offs.len() && (#[trigger] offs[k]) == o as u32;
                    assert(l1[offs[k] as int].owner == Some(rid as usize)) by {
                        assert(request_wf(s0.requests@[rid], rid, l1));
                        reveal(request_wf);
                        reveal(offsets_wf);
                    }
                    assert(offs[k] == o);
                } else {
                    assert(l2[o] == l1[o]);
                }
            }
            lemma_owner_lines_untouched(s2.requests@[rr], rr, l1, l2);
        } else {
            lemma_queue_preds_empty(s2.requests@[rr].queue@, l2);
            assert(request_wf(s2.requests@[rr], rr, l2)) by {
                reveal(request_wf);
            }
        }
    }
    assert forall|o: int| 0 <= o < l2.len() implies line_wf(l2, o, s2.requests@) by {
        assert(line_wf(l1, o, s0.requests@));
        if offs.contains(o as u32) {
            let k = choose|k: int| 0 <= k < offs.len() && (#[trigger] offs[k]) == o as u32;
            assert(l1[offs[k] as int].owner == Some(rid as usize)) by {
                reveal(request_wf);
                reveal(offsets_wf);
                assert(request_wf(s0.requests@[rid], rid, l1));
            }
            assert(offs[k] < l1.len()) by {
                reveal(request_wf);
                reveal(offsets_wf);
                assert(request_wf(s0.requests@[rid], rid, l1));
            }
        } else {
            assert(l2[o] == l1[o]);
            if l2[o].owner is Some {
                let rw = l2[o].owner->0 as int;
                if rw == rid {
                    assert(s0.requests@[rid].offsets@.contains(o as u32));
                } else {
                    assert(s2.requests@[rw] == s0.requests@[rw]);
                }
            }
        }
    }
}

/// Global sequence numbers strictly increase along the queue.
pub open spec fn strictly_increasing_globals(q: Seq<edge_event::Event>) -> bool {
    forall|i: int, j: int|
        0 <= i < j < q.len() ==> (#[trigger] q[i]).global_seq < (#[trigger] q[j]).global_seq
}

/// Line sequence numbers strictly increase along each line's events.
pub open spec fn strictly_increasing_line_seqs(q: Seq<edge_event::Event>) -> bool {
    forall|i: int, j: int|
        0 <= i < j < q.len() && (#[trigger] q[i]).line == (#[trigger] q[j]).line ==> q[i].line_seq
            < q[j].line_seq
}

/// The queue's global sequence numbers are exactly 1, 2, 3, ...
pub open spec fn globals_start_at_one(q: Seq<edge_event::Event>) -> bool {
    forall|i: int| 0 <= i < q.len() ==> (#[trigger] q[i]).global_seq == 1 + i
}

/// Each line's first queued event carries line sequence number 1.
pub open spec fn line_seqs_start_at_one(q: Seq<edge_event::Event>) -> bool {
    forall|i: int|
        0 <= i < q.len() && (forall|k: int| 0 <= k < i ==> (#[trigger] q[k]).line != q[i].line)
            ==> (#[trigger] q[i]).line_seq == 1
}

/// Consecutive global numbering makes the globals strictly increasing, and
/// when nothing has been read they are exactly 1, 2, 3, ...
proof fn lemma_globals_strict(q: Seq<edge_event::Event>, del: u64)
    requires
        queue_globals_ok(q, del),
    ensures
        strictly_increasing_globals(q),
        del == 0 ==> globals_start_at_one(q),
{
    reveal(queue_globals_ok);
    assert forall|i: int, j: int| 0 <= i < j < q.len() implies (#[trigger] q[i]).global_seq < (
    #[trigger] q[j]).global_seq by {
        assert(q[i].global_seq == del + 1 + i);
        assert(q[j].global_seq == del + 1 + j);
    }
}

/// With nothing read from the request, no line has a nonzero read counter.
#[verifier::spinoff_prover]
proof fn lemma_line_delivered_zero(
    q: Seq<edge_event::Event>,
    offs: Seq<u32>,
    lines: Seq<LineState>,
    del: u64,
)
    requires
        queue_lines_ok(q, offs),
        line_delivered_bounded(offs, lines, del),
        del == 0,
    ensures
        forall|i: int|
            0 <= i < q.len() ==> lines[(#[trigger] q[i]).line as int].line_delivered == 0,
{
    reveal(queue_lines_ok);
    reveal(line_delivered_bounded);
    assert forall|i: int| 0 <= i < q.len() implies lines[(
    #[trigger] q[i]).line as int].line_delivered == 0 by {
        assert(offs.contains(q[i].line));
        let j = choose|j: int| 0 <= j < offs.len() && offs[j] == q[i].line;
        assert(lines[offs[j] as int].line_delivered <= del);
    }
}

/// Lines whose read counters are all zero have their first queued events at
/// line number 1.
#[verifier::spinoff_prover]
proof fn lemma_first_at_one(
    q: Seq<edge_event::Event>,
    lines: Seq<LineState>,
)
    requires
        queue_first_ok(q, lines),
        forall|i: int|
            0 <= i < q.len() ==> lines[(#[trigger] q[i]).line as int].line_delivered == 0,
    ensures
        line_seqs_start_at_one(q),
{
    reveal(queue_first_ok);
}

/// Edge-event sequencing: in a well-formed device, the events queued for a
/// request carry strictly increasing global sequence numbers, and strictly
/// increasing per-line sequence numbers on each line; for a fresh request,
/// from which nothing has been read, the global numbers are exactly
/// 1, 2, 3, ... and the first event of each line carries line number 1.
pub proof fn lemma_edge_event_sequencing(s: Sim, rid: int)
    requires
        s.wf(),
        0 <= rid < s.requests@.len(),
    ensures
        strictly_increasing_globals(s.requests@[rid].queue@),
        strictly_increasing_line_seqs(s.requests@[rid].queue@),
        s.requests@[rid].delivered == 0 ==> globals_start_at_one(s.requests@[rid].queue@),
        s.requests@[rid].delivered == 0 ==> line_seqs_start_at_one(s.requests@[rid].queue@),
{
    let rq = s.requests@[rid];
    let q = rq.queue@;
    assert(request_wf(rq, rid, s.lines@));
    assert(queue_globals_ok(q, rq.delivered) && queue_strict_ok(q) && (q.len() > 0 ==> rq.alive))
        by {
        reveal(request_wf);
    }
    lemma_globals_strict(q, rq.delivered);
    assert(strictly_increasing_line_seqs(q)) by {
        reveal(queue_strict_ok);
    }
    if rq.delivered == 0 {
        if q.len() > 0 {
            assert(queue_first_ok(q, s.lines@) && queue_lines_ok(q, rq.offsets@)
                && line_delivered_bounded(rq.offsets@, s.lines@, rq.delivered)) by {
                reveal(request_wf);
            }
            lemma_line_delivered_zero(q, rq.offsets@, s.lines@, rq.delivered);
            lemma_first_at_one(q, s.lines@);
        } else {
            assert(line_seqs_start_at_one(q));
        }
    }
}

} // verus!
