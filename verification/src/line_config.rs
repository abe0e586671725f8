//! Line configuration: an ordered mapping from offsets to line settings,
//! plus an output-value override list.

use vstd::prelude::*;
use intmap::IntMap;
use crate::line::{Direction, Offset, Value};
use crate::line_settings::Settings;
use crate::maps::{settings_map_insert, settings_map_new, settings_map_of};
use crate::{Error, OperationType, Result, EINVAL};

verus! {

/// Maps offsets to settings.
pub type SettingsMap = IntMap<Offset, Settings>;

/// One per-offset configuration entry.
pub type ConfigEntry = (Offset, Settings);

/// The position of the entry for offset `o`, or -1 when `o` has no entry.
pub open spec fn key_index(entries: Seq<ConfigEntry>, o: Offset) -> int
    decreases entries.len(),
{
    if entries.len() == 0 {
        -1
    } else if entries[0].0 == o {
        0
    } else {
        let rest = key_index(entries.drop_first(), o);
        if rest == -1 {
            -1
        } else {
            rest + 1
        }
    }
}

/// The entries after settings `s` are assigned to offset `o`: an existing
/// entry keeps its position and gets the new settings; a new offset is
/// appended.
pub open spec fn assign_one(entries: Seq<ConfigEntry>, o: Offset, s: Settings) -> Seq<ConfigEntry> {
    let i = key_index(entries, o);
    if i >= 0 {
        entries.update(i, (o, s))
    } else {
        entries.push((o, s))
    }
}

/// The entries after settings `s` are assigned to each offset of `offsets`,
/// in order.
pub open spec fn assign_many(entries: Seq<ConfigEntry>, offsets: Seq<Offset>, s: Settings) -> Seq<
    ConfigEntry,
>
    decreases offsets.len(),
{
    if offsets.len() == 0 {
        entries
    } else {
        assign_one(assign_many(entries, offsets.drop_last(), s), offsets.last(), s)
    }
}

/// The offset-to-settings mapping that a sequence of entries denotes.
pub open spec fn config_map(entries: Seq<ConfigEntry>) -> Map<Offset, Settings>
    decreases entries.len(),
{
    if entries.len() == 0 {
        Map::<Offset, Settings>::empty()
    } else {
        config_map(entries.drop_last()).insert(entries.last().0, entries.last().1)
    }
}

/// How many entries carry output direction.
pub open spec fn output_count(entries: Seq<ConfigEntry>) -> int
    decreases entries.len(),
{
    if entries.len() == 0 {
        0int
    } else {
        output_count(entries.drop_last()) + if entries.last().1.direction == Direction::Output {
            1int
        } else {
            0int
        }
    }
}

/// The entries after the output-value override list `values` is applied:
/// the k-th output-direction entry receives output value `values[k]`.
pub open spec fn apply_output_values(
    entries: Seq<ConfigEntry>,
    values: Seq<Value>,
) -> Seq<ConfigEntry> {
    Seq::new(
        entries.len(),
        |i: int|
            if entries[i].1.direction == Direction::Output {
                (
                    entries[i].0,
                    Settings { output_value: values[output_count(entries.take(i))], ..entries[i].1 },
                )
            } else {
                entries[i]
            },
    )
}

/// Keys of distinct entries differ.
pub open spec fn entries_wf(entries: Seq<ConfigEntry>) -> bool {
    forall|i: int, j: int| 0 <= i < j < entries.len() ==> entries[i].0 != entries[j].0
}

/// When `j` is the first position whose entry configures `o`, `key_index`
/// finds it.
proof fn lemma_key_index_first(entries: Seq<ConfigEntry>, o: Offset, j: int)
    requires
        0 <= j < entries.len(),
        entries[j].0 == o,
        forall|k: int| 0 <= k < j ==> (#[trigger] entries[k]).0 != o,
    ensures
        key_index(entries, o) == j,
    decreases j,
{
    if j > 0 {
        lemma_key_index_first(entries.drop_first(), o, j - 1);
    }
}

/// When no entry configures `o`, `key_index` reports -1.
proof fn lemma_key_index_none(entries: Seq<ConfigEntry>, o: Offset)
    requires
        forall|k: int| 0 <= k < entries.len() ==> (#[trigger] entries[k]).0 != o,
    ensures
        key_index(entries, o) == -1,
    decreases entries.len(),
{
    if entries.len() > 0 {
        lemma_key_index_none(entries.drop_first(), o);
    }
}

/// Line configuration objects.
///
/// The config object holds one entry per configured offset, in the order
/// the offsets were first assigned settings; assigning settings again to a
/// configured offset replaces its settings in place. A new config is empty;
/// using an empty config in a request fails at request time.
#[derive(Debug, Eq, PartialEq)]
pub struct Config {
    pub entries: Vec<ConfigEntry>,
}

impl Config {
    /// Distinct entries configure distinct offsets.
    pub open spec fn wf(&self) -> bool {
        entries_wf(self.entries@)
    }

    /// Create a new, empty line config object.
    pub fn new() -> (r: Result<Self>)
        ensures
            r matches Ok(c) && c.entries@ =~= Seq::<ConfigEntry>::empty() && c.wf(),
    {
        Ok(Config { entries: Vec::new() })
    }

    /// Reset the entire configuration stored in the object.
    pub fn reset(&mut self)
        ensures
            final(self).entries@ =~= Seq::<ConfigEntry>::empty() && final(self).wf(),
    {
        self.entries = Vec::new();
    }

    /// Assign `settings` to offset `o`.
    #[verifier::loop_isolation(false)]
    fn assign(&mut self, o: Offset, settings: Settings)
        requires
            old(self).wf(),
        ensures
            final(self).wf(),
            final(self).entries@ == assign_one(old(self).entries@, o, settings),
    {
        let ghost entries0 = self.entries@;
        let n = self.entries.len();
        let mut j: usize = 0;
        while j < n
            invariant
                n == entries0.len(),
                self.entries@ == entries0,
                entries_wf(entries0),
                j <= n,
                forall|k: int| 0 <= k < j ==> (#[trigger] entries0[k]).0 != o,
            decreases n - j,
        {
            if self.entries[j].0 == o {
                proof {
                    lemma_key_index_first(entries0, o, j as int);
                }
                self.entries.set(j, (o, settings));
                proof {
                    assert(entries_wf(self.entries@)) by {
                        assert(forall|k: int|
                            0 <= k < entries0.len() ==> (#[trigger] self.entries@[k]).0
                                == entries0[k].0);
                    }
                }
                return ;
            }
            j = j + 1;
        }
        proof {
            lemma_key_index_none(entries0, o);
        }
        self.entries.push((o, settings));
    }

    /// Add line settings for a set of offsets.
    pub fn add_line_settings(&mut self, offsets: &[Offset], settings: Settings) -> (r: Result<()>)
        requires
            old(self).wf(),
        ensures
            r is Ok,
            final(self).wf(),
            final(self).entries@ == assign_many(old(self).entries@, offsets@, settings),
    {
        let ghost entries0 = self.entries@;
        let mut i: usize = 0;
        while i < offsets.len()
            invariant
                i <= offsets@.len(),
                self.wf(),
                self.entries@ == assign_many(entries0, offsets@.take(i as int), settings),
            decreases offsets@.len() - i,
        {
            self.assign(offsets[i], settings);
            proof {
                assert(offsets@.take(i + 1).drop_last() =~= offsets@.take(i as int));
                assert(offsets@.take(i + 1).last() == offsets@[i as int]);
            }
            i = i + 1;
        }
        proof {
            assert(offsets@.take(offsets@.len() as int) =~= offsets@);
        }
        Ok(())
    }

    /// Set output values for the configured output-direction offsets, in
    /// the order those offsets were assigned. The list's length must equal
    /// the number of output-direction offsets, else the call fails and the
    /// configuration is unchanged.
    pub fn set_output_values(&mut self, values: &[Value]) -> (r: Result<()>)
        requires
            old(self).wf(),
        ensures
            final(self).wf(),
            r is Ok <==> values@.len() == output_count(old(self).entries@),
            r is Ok ==> final(self).entries@ == apply_output_values(old(self).entries@, values@),
            r is Err ==> *final(self) == *old(self) && r == Err::<(), Error>(
                Error::OperationFailed(
                    OperationType::LineConfigSetOutputValues,
                    errno::Errno(EINVAL),
                ),
            ),
    {
        let ghost entries0 = self.entries@;
        // count the output-direction entries
        let mut outs: usize = 0;
        let mut i: usize = 0;
        while i < self.entries.len()
            invariant
                self.entries@ == entries0,
                i <= entries0.len(),
                outs == output_count(entries0.take(i as int)),
                outs <= i,
            decreases entries0.len() - i,
        {
            if self.entries[i].1.direction == Direction::Output {
                outs = outs + 1;
            }
            proof {
                assert(entries0.take(i + 1).drop_last() =~= entries0.take(i as int));
                assert(entries0.take(i + 1).last() == entries0[i as int]);
            }
            i = i + 1;
        }
        proof {
            assert(entries0.take(entries0.len() as int) =~= entries0);
        }
        if values.len() != outs {
            return Err(
                Error::OperationFailed(
                    OperationType::LineConfigSetOutputValues,
                    errno::Errno(EINVAL),
                ),
            );
        }
        let mut j: usize = 0;
        let mut i: usize = 0;
        while i < self.entries.len()
            invariant
                self.entries@.len() == entries0.len(),
                i <= entries0.len(),
                j == output_count(entries0.take(i as int)),
                j <= i,
                values@.len() == output_count(entries0),
                forall|k: int|
                    0 <= k < i ==> self.entries@[k] == apply_output_values(entries0, values@)[k],
                forall|k: int| i <= k < entries0.len() ==> self.entries@[k] == entries0[k],
            decreases entries0.len() - i,
        {
            proof {
                assert(entries0.take(i + 1).drop_last() =~= entries0.take(i as int));
                assert(entries0.take(i + 1).last() == entries0[i as int]);
                lemma_output_count_bound(entries0, i + 1);
            }
            if self.entries[i].1.direction == Direction::Output {
                let (o, s) = self.entries[i];
                self.entries.set(i, (o, Settings { output_value: values[j], ..s }));
                j = j + 1;
            }
            i = i + 1;
        }
        proof {
            assert(self.entries@ =~= apply_output_values(entries0, values@));
            assert(entries_wf(self.entries@)) by {
                assert(forall|k: int|
                    0 <= k < entries0.len() ==> (#[trigger] self.entries@[k]).0 == entries0[k].0);
            }
        }
        Ok(())
    }

    /// Get a mapping of offsets to the line settings stored by this object.
    pub fn line_settings(&self) -> (r: Result<SettingsMap>)
        requires
            self.wf(),
        ensures
            r matches Ok(m) && settings_map_of(m) == config_map(self.entries@),
    {
        let ghost entries0 = self.entries@;
        let mut map = settings_map_new();
        let mut i: usize = 0;
        while i < self.entries.len()
            invariant
                self.entries@ == entries0,
                i <= entries0.len(),
                settings_map_of(map) == config_map(entries0.take(i as int)),
            decreases entries0.len() - i,
        {
            let (o, s) = self.entries[i];
            settings_map_insert(&mut map, o, s);
            proof {
                assert(entries0.take(i + 1).drop_last() =~= entries0.take(i as int));
                assert(entries0.take(i + 1).last() == entries0[i as int]);
            }
            i = i + 1;
        }
        proof {
            assert(entries0.take(entries0.len() as int) =~= entries0);
        }
        Ok(map)
    }
}

/// The number of output-direction entries in a prefix never exceeds the
/// number in the whole sequence.
proof fn lemma_output_count_bound(entries: Seq<ConfigEntry>, n: int)
    requires
        0 <= n <= entries.len(),
    ensures
        output_count(entries.take(n)) <= output_count(entries),
        output_count(entries.take(n)) >= 0,
    decreases entries.len() - n,
{
    lemma_output_count_nonneg(entries.take(n));
    if n < entries.len() {
        lemma_output_count_bound(entries, n + 1);
        assert(entries.take(n + 1).drop_last() =~= entries.take(n));
    } else {
        assert(entries.take(n) =~= entries);
    }
}

proof fn lemma_output_count_nonneg(entries: Seq<ConfigEntry>)
    ensures
        output_count(entries) >= 0,
    decreases entries.len(),
{
    if entries.len() > 0 {
        lemma_output_count_nonneg(entries.drop_last());
    }
}


/// Two settings ask for the same per-line flags: direction, edge
/// detection, bias, drive, active-low and event clock. Debounce periods
/// and output values are carried by their own attribute slots.
pub open spec fn same_flags(a: Settings, b: Settings) -> bool {
    &&& a.direction == b.direction
    &&& a.edge_detection == b.edge_detection
    &&& a.bias == b.bias
    &&& a.drive == b.drive
    &&& a.active_low == b.active_low
    &&& a.event_clock == b.event_clock
}

/// How many distinct flag groups a settings list holds.
pub open spec fn flags_groups(xs: Seq<Settings>) -> int
    decreases xs.len(),
{
    if xs.len() == 0 {
        0int
    } else {
        flags_groups(xs.drop_last()) + if exists|k: int|
            0 <= k < xs.len() - 1 && same_flags(#[trigger] xs[k], xs.last()) {
            0int
        } else {
            1int
        }
    }
}

/// How many distinct nonzero debounce periods a settings list holds.
pub open spec fn debounce_groups(xs: Seq<Settings>) -> int
    decreases xs.len(),
{
    if xs.len() == 0 {
        0int
    } else {
        debounce_groups(xs.drop_last()) + if xs.last().debounce_period_us == 0 || exists|k: int|
            0 <= k < xs.len() - 1 && (#[trigger] xs[k]).debounce_period_us
                == xs.last().debounce_period_us {
            0int
        } else {
            1int
        }
    }
}

/// Whether any setting asks for output direction.
pub open spec fn any_output(xs: Seq<Settings>) -> bool {
    exists|i: int| 0 <= i < xs.len() && (#[trigger] xs[i]).direction == Direction::Output
}

/// How many per-call attribute slots of the kernel ABI a settings list
/// needs: one for each distinct flag group beyond the first, one for each
/// distinct nonzero debounce period, and one for the output values when
/// any line drives.
pub open spec fn uapi_slots(xs: Seq<Settings>) -> int {
    (if flags_groups(xs) > 0 {
        flags_groups(xs) - 1
    } else {
        0int
    }) + debounce_groups(xs) + (if any_output(xs) {
        1int
    } else {
        0int
    })
}

/// Compare the flag-carrying fields of two settings.
fn eq_flags(a: &Settings, b: &Settings) -> (r: bool)
    ensures
        r == same_flags(*a, *b),
{
    let edge_eq = match (a.edge_detection, b.edge_detection) {
        (None, None) => true,
        (Some(x), Some(y)) => x == y,
        _ => false,
    };
    let bias_eq = match (a.bias, b.bias) {
        (None, None) => true,
        (Some(x), Some(y)) => x == y,
        _ => false,
    };
    a.direction == b.direction && edge_eq && bias_eq && a.drive == b.drive && a.active_low
        == b.active_low && a.event_clock == b.event_clock
}

/// Count the per-call attribute slots of the kernel ABI that the settings
/// list needs.
#[verifier::loop_isolation(false)]
pub(crate) fn count_uapi_slots(xs: &Vec<Settings>) -> (r: u128)
    ensures
        r == uapi_slots(xs@),
{
    let mut fg: usize = 0;
    let mut i: usize = 0;
    while i < xs.len()
        invariant
            i <= xs@.len(),
            fg == flags_groups(xs@.take(i as int)),
            fg <= i,
        decreases xs@.len() - i,
    {
        let mut seen = false;
        let mut k: usize = 0;
        while k < i
            invariant
                k <= i,
                i < xs@.len(),
                seen == exists|j: int| 0 <= j < k && same_flags(#[trigger] xs@[j], xs@[i as int]),
            decreases i - k,
        {
            if eq_flags(&xs[k], &xs[i]) {
                proof {
                    assert(same_flags(xs@[k as int], xs@[i as int]));
                }
                seen = true;
            }
            k = k + 1;
        }
        if !seen {
            fg = fg + 1;
        }
        proof {
            let t1 = xs@.take(i + 1);
            assert(t1.drop_last() =~= xs@.take(i as int));
            assert(t1.last() == xs@[i as int]);
            if seen {
                let j = choose|j: int|
                    0 <= j < i && same_flags(#[trigger] xs@[j], xs@[i as int]);
                assert(t1[j] == xs@[j]);
                assert(same_flags(t1[j], t1.last()));
            } else {
                assert forall|k: int|
                    0 <= k < t1.len() - 1 implies !same_flags(#[trigger] t1[k], t1.last()) by {
                    assert(t1[k] == xs@[k]);
                }
            }
        }
        i = i + 1;
    }
    let mut dg: usize = 0;
    let mut i: usize = 0;
    while i < xs.len()
        invariant
            i <= xs@.len(),
            dg == debounce_groups(xs@.take(i as int)),
            dg <= i,
        decreases xs@.len() - i,
    {
        let mut seen = xs[i].debounce_period_us == 0;
        let ghost di = xs@[i as int].debounce_period_us;
        let mut k: usize = 0;
        while k < i
            invariant
                k <= i,
                i < xs@.len(),
                di == xs@[i as int].debounce_period_us,
                seen == (di == 0 || exists|j: int|
                    0 <= j < k && (#[trigger] xs@[j]).debounce_period_us == di),
            decreases i - k,
        {
            if xs[k].debounce_period_us == xs[i].debounce_period_us {
                proof {
                    assert(xs@[k as int].debounce_period_us == xs@[i as int].debounce_period_us);
                }
                seen = true;
            }
            k = k + 1;
        }
        if !seen {
            dg = dg + 1;
        }
        proof {
            let t1 = xs@.take(i + 1);
            assert(t1.drop_last() =~= xs@.take(i as int));
            assert(t1.last() == xs@[i as int]);
            if seen && xs@[i as int].debounce_period_us != 0 {
                let j = choose|j: int|
                    0 <= j < i && (#[trigger] xs@[j]).debounce_period_us == xs@[
                        i as int
                    ].debounce_period_us;
                assert(t1[j] == xs@[j]);
                assert(t1[j].debounce_period_us == t1.last().debounce_period_us);
            } else if !seen {
                assert forall|k: int|
                    0 <= k < t1.len() - 1 implies (#[trigger] t1[k]).debounce_period_us
                    != t1.last().debounce_period_us by {
                    assert(t1[k] == xs@[k]);
                }
            }
        }
        i = i + 1;
    }
    let mut out: bool = false;
    let mut i: usize = 0;
    while i < xs.len()
        invariant
            i <= xs@.len(),
            out == exists|j: int| 0 <= j < i && (#[trigger] xs@[j]).direction == Direction::Output,
        decreases xs@.len() - i,
    {
        if matches!(xs[i].direction, Direction::Output) {
            proof {
                assert(xs@[i as int].direction == Direction::Output);
            }
            out = true;
        }
        i = i + 1;
    }
    proof {
        assert(xs@.take(xs@.len() as int) =~= xs@);
    }
    let base: u128 = if fg == 0 {
        0
    } else {
        (fg - 1) as u128
    };
    base + (dg as u128) + (if out {
        1
    } else {
        0
    })
}

} // verus!
