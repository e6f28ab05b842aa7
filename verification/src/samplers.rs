//! The per-metric samplers and the per-tick orchestrator.
//!
//! Each sampler owns the history buffers of one metric domain and
//! turns one tick's raw readings — OS counter values handed in as
//! plain numbers, plus the shared hardware-tree snapshot — into
//! appended history samples.  The orchestrator runs them in a fixed
//! order once per tick, so later samplers may observe state written by
//! earlier ones and never the other way round.

use vstd::prelude::*;
use crate::circlevec::CircleVec;
use crate::milli::{
    Milli, milli_scale, milli_scale_spec, ratio_permille, ratio_permille_spec,
    sensor_value_spec, temp_value_spec, add_sat_i64, sat_i64,
};
use crate::ohw::{
    MyNode, OHWNode, first_image_match, first_text_exact, select_opt_spec, select_spec,
    split_path,
};
use crate::process::{Process, RawCounterRow, aggregate_process_rows, aggregate_spec,
    clean_rows_spec, row_views};
use crate::telemetry::{GpuStaticInfo, SharedTelemetryState};
use crate::text::{chars_of, contains_seq, parse_sint_spec, replace_spec, vec_contains,
    vec_replace};
use crate::timing::{CurrentStep, TimingStep};

verus! {

/// One tick's transmitted and received byte counts of one interface.
#[derive(Debug, PartialEq, Eq, Structural, Clone, Copy)]
pub struct MyNetworkData {
    pub tx: u64,
    pub rx: u64,
}

/// The GPU readings of one tick: utilization, temperature and fan in
/// thousandths of their unit, memory in bytes, power in thousandths of
/// a watt, clocks in thousandths of a megahertz.
#[derive(Debug, PartialEq, Eq, Structural, Clone, Copy)]
pub struct GpuData {
    pub utilization: Milli,
    pub temperature: Milli,
    pub memory_free: i64,
    pub memory_used: i64,
    pub memory_total: i64,
    pub power_usage: Milli,
    pub power_limit: Milli,
    pub fan_percentage: Milli,
    pub clock_mhz: Milli,
    pub max_clock: Milli,
}

/// The temperatures of the children labelled `CPU Core #<n>` for some
/// number `n`, in order.
pub open spec fn core_temp_values(children: Seq<OHWNode>) -> Seq<Milli>
    decreases children.len(),
{
    if children.len() == 0 {
        Seq::<Milli>::empty()
    } else {
        let rest = core_temp_values(children.drop_first());
        let c = children[0];
        if contains_seq(c.Text@, "CPU Core #"@) && parse_sint_spec(
            replace_spec(c.Text@, "CPU Core #"@, Seq::<char>::empty()),
            i32::MIN as int,
            i32::MAX as int,
        ) is Some {
            seq![Milli { thousandths: temp_value_spec(c.Value@) as i64 }] + rest
        } else {
            rest
        }
    }
}

/// The `Temperatures` subtree of the CPU node: the first child of the
/// tree root's first child whose icon is the CPU icon, then the child
/// labelled exactly `Temperatures`; absent when any level is missing.
pub open spec fn cpu_temps_node(tree: Option<OHWNode>) -> Option<OHWNode> {
    match tree {
        None => None,
        Some(root) => if root.Children@.len() == 0 {
            None
        } else {
            match first_image_match(root.Children@[0].Children@, "images_icon/cpu.png"@) {
                None => None,
                Some(cpu) => first_text_exact(cpu.Children@, "Temperatures"@),
            }
        },
    }
}

/// The per-core temperatures the hardware tree reports, or none at
/// all when the expected subtree is missing.
pub open spec fn core_temps_spec(tree: Option<OHWNode>) -> Seq<Milli> {
    match cpu_temps_node(tree) {
        None => Seq::<Milli>::empty(),
        Some(t) => core_temp_values(t.Children@),
    }
}

/// The element of largest magnitude, the last one among ties; zero
/// when the sequence is empty.
pub open spec fn max_abs_milli(s: Seq<Milli>) -> Milli
    decreases s.len(),
{
    if s.len() == 0 {
        Milli::zero_spec()
    } else if s.len() == 1 {
        s[0]
    } else {
        let m = max_abs_milli(s.drop_last());
        if s.last().abs_spec() >= m.abs_spec() {
            s.last()
        } else {
            m
        }
    }
}

/// The CPU package power read through the hardware tree, in
/// thousandths of a watt; zero when the path finds nothing.
pub open spec fn cpu_power_spec(tree: Option<OHWNode>) -> int {
    match select_opt_spec(tree, split_path("#0|+images_icon/cpu.png|Power|Package"@)) {
        Some(n) => sensor_value_spec(n.Value@),
        None => 0,
    }
}

/// The per-core temperatures, by label pattern under the CPU node's
/// `Temperatures` subtree; empty whenever any level is missing.
pub fn cpu_core_temps(tree: &Option<OHWNode>) -> (r: Vec<Milli>)
    ensures
        r@ == core_temps_spec(*tree),
{
    let temps_node: Option<&OHWNode> = match tree {
        Some(root) => {
            if root.Children.len() == 0 {
                None
            } else {
                let icon = chars_of("images_icon/cpu.png");
                match crate::ohw::find_image_child(&root.Children[0], &icon) {
                    Some(cpu) => {
                        let lbl = chars_of("Temperatures");
                        crate::ohw::find_text_child(cpu, &lbl)
                    },
                    None => None,
                }
            }
        },
        None => None,
    };
    match temps_node {
        None => Vec::new(),
        Some(t) => {
            let pat = chars_of("CPU Core #");
            let empty: Vec<char> = Vec::new();
            proof {
                reveal_strlit("CPU Core #");
                assert(empty@ =~= Seq::<char>::empty());
            }
            let cnt = t.Children.len();
            let mut out: Vec<Milli> = Vec::new();
            let mut j: usize = 0;
            proof {
                assert(t.Children@.skip(0) =~= t.Children@);
                assert(out@ + core_temp_values(t.Children@) =~= core_temp_values(t.Children@));
            }
            while j < cnt
                invariant
                    j <= cnt,
                    cnt == t.Children@.len(),
                    pat@ == "CPU Core #"@,
                    pat@.len() >= 1,
                    empty@ == Seq::<char>::empty(),
                    core_temp_values(t.Children@) == out@ + core_temp_values(
                        t.Children@.skip(j as int),
                    ),
                decreases cnt - j,
            {
                proof {
                    assert(t.Children@.skip(j as int)[0] == t.Children@[j as int]);
                    assert(t.Children@.skip(j as int).drop_first() =~= t.Children@.skip(j + 1));
                }
                let text = chars_of(t.Children[j].Text.as_str());
                let ghost out0 = out@;
                if vec_contains(&text, &pat) {
                    let stripped = vec_replace(&text, &pat, &empty);
                    proof {
                        crate::text::lemma_parse_sint_narrow(stripped@);
                    }
                    match crate::text::parse_i64_vec(&stripped) {
                        Some(v) => {
                            if i32::MIN as i64 <= v && v <= i32::MAX as i64 {
                                proof {
                                    crate::milli::lemma_temp_value_in_range(
                                        t.Children@[j as int].Value@,
                                    );
                                }
                                let tv = crate::milli::parse_temp_value(
                                    t.Children[j].Value.as_str(),
                                );
                                out.push(tv);
                                proof {
                                    assert(out@ =~= out0 + seq![
                                        Milli {
                                            thousandths: temp_value_spec(
                                                t.Children@[j as int].Value@,
                                            ) as i64,
                                        },
                                    ]);
                                    assert((out0 + seq![
                                        Milli {
                                            thousandths: temp_value_spec(
                                                t.Children@[j as int].Value@,
                                            ) as i64,
                                        },
                                    ]) + core_temp_values(t.Children@.skip(j + 1)) =~= out0 + (
                                    seq![
                                        Milli {
                                            thousandths: temp_value_spec(
                                                t.Children@[j as int].Value@,
                                            ) as i64,
                                        },
                                    ] + core_temp_values(t.Children@.skip(j + 1))));
                                }
                            }
                        },
                        None => {},
                    }
                }
                j = j + 1;
            }
            proof {
                assert(t.Children@.skip(cnt as int) =~= Seq::<OHWNode>::empty());
                assert(out@ + Seq::<Milli>::empty() =~= out@);
            }
            out
        },
    }
}

/// The reading of largest magnitude, the last one among ties; zero
/// when there are none.
pub fn max_abs_of(values: &Vec<Milli>) -> (r: Milli)
    ensures
        r == max_abs_milli(values@),
{
    if values.len() == 0 {
        return Milli::zero();
    }
    let n = values.len();
    let mut cur = values[0];
    let mut i: usize = 1;
    proof {
        assert(values@.subrange(0, 1) =~= seq![values@[0]]);
    }
    while i < n
        invariant
            1 <= i <= n,
            n == values@.len(),
            cur == max_abs_milli(values@.subrange(0, i as int)),
        decreases n - i,
    {
        proof {
            assert(values@.subrange(0, i + 1).drop_last() =~= values@.subrange(0, i as int));
            assert(values@.subrange(0, i + 1).last() == values@[i as int]);
        }
        if crate::milli::milli_abs_ge(values[i], cur) {
            cur = values[i];
        }
        i = i + 1;
    }
    proof {
        assert(values@.subrange(0, n as int) =~= values@);
    }
    cur
}

/// The CPU sampler: aggregate utilization, hottest core temperature,
/// and package power histories.
pub struct CpuSampler {
    pub usage_buffer: CircleVec<Milli>,
    pub max_temp_buffer: CircleVec<Milli>,
    pub power_buffer: CircleVec<Milli>,
}

impl CpuSampler {
    /// Buffers of one hundred zero samples each.
    pub fn new() -> (r: Self)
        ensures
            r.usage_buffer@ == Seq::new(100, |i: int| Milli::zero_spec()),
            r.max_temp_buffer@ == Seq::new(100, |i: int| Milli::zero_spec()),
            r.power_buffer@ == Seq::new(100, |i: int| Milli::zero_spec()),
    {
        CpuSampler {
            usage_buffer: CircleVec::new(100, Milli::zero()),
            max_temp_buffer: CircleVec::new(100, Milli::zero()),
            power_buffer: CircleVec::new(100, Milli::zero()),
        }
    }

    /// One CPU tick: appends the OS-reported aggregate utilization,
    /// the largest per-core temperature from the hardware tree, and
    /// the package power — which also feeds the shared running
    /// maximum.  An absent tree yields zero samples, never an error.
    pub fn refresh_cpu(&mut self, shared: &mut SharedTelemetryState, global_cpu_usage: Milli)
        ensures
            final(self).usage_buffer@ == old(self).usage_buffer@.drop_first().push(
                global_cpu_usage,
            ),
            final(self).max_temp_buffer@ == old(self).max_temp_buffer@.drop_first().push(
                max_abs_milli(core_temps_spec(old(shared).latest_hardware_tree)),
            ),
            final(self).power_buffer@ == old(self).power_buffer@.drop_first().push(
                Milli { thousandths: cpu_power_spec(old(shared).latest_hardware_tree) as i64 },
            ),
            final(shared).max_observed_cpu_power.thousandths == if cpu_power_spec(
                old(shared).latest_hardware_tree,
            ) > old(shared).max_observed_cpu_power.thousandths {
                cpu_power_spec(old(shared).latest_hardware_tree) as i64
            } else {
                old(shared).max_observed_cpu_power.thousandths
            },
            final(shared).latest_hardware_tree == old(shared).latest_hardware_tree,
            final(shared).gpu_static == old(shared).gpu_static,
            final(shared).current_ram == old(shared).current_ram,
            final(shared).total_ram == old(shared).total_ram,
    {
        self.usage_buffer.add(global_cpu_usage);
        let temps = cpu_core_temps(&shared.latest_hardware_tree);
        let max_temp = max_abs_of(&temps);
        self.max_temp_buffer.add(max_temp);
        let power = (&shared.latest_hardware_tree).parse_value_path_def(
            "#0|+images_icon/cpu.png|Power|Package",
        );
        shared.observe_cpu_power(power);
        self.power_buffer.add(power);
    }
}

/// The ping sampler: round-trip milliseconds of one echo per cycle.
pub struct PingSampler {
    pub buffer: CircleVec<u64>,
}

impl PingSampler {
    /// A buffer of one hundred zero samples.
    pub fn new() -> (r: Self)
        ensures
            r.buffer@ == Seq::new(100, |i: int| 0u64),
    {
        PingSampler { buffer: CircleVec::new(100, 0u64) }
    }

    /// Records one probe outcome: a reached destination appends its
    /// round-trip milliseconds; a timeout or error appends nothing, so
    /// the graph keeps the last known ping instead of a false zero.
    pub fn record_ping(&mut self, response_millis: Option<u64>)
        ensures
            match response_millis {
                Some(ms) => final(self).buffer@ == old(self).buffer@.drop_first().push(ms),
                None => *final(self) == *old(self),
            },
    {
        match response_millis {
            Some(ms) => self.buffer.add(ms),
            None => {},
        }
    }
}

/// The timing sampler: per-stage frame offsets, kept only while the
/// timing trace is switched on.
pub struct TimingSampler {
    pub buffer: CircleVec<TimingStep>,
    pub track_timings: bool,
}

impl TimingSampler {
    /// A buffer of two thousand idle entries, tracing off.
    pub fn new() -> (r: Self)
        ensures
            r.buffer@ == Seq::new(
                2000,
                |i: int| TimingStep { step: CurrentStep::Idle, time_micros: 0 },
            ),
            r.track_timings == false,
    {
        TimingSampler {
            buffer: CircleVec::new(
                2000,
                TimingStep { step: CurrentStep::Idle, time_micros: 0 },
            ),
            track_timings: false,
        }
    }

    /// Records how far into the frame the pipeline reached `step`,
    /// when tracing is on; does nothing otherwise.
    pub fn step_timing(&mut self, step: CurrentStep, elapsed_micros: u64)
        ensures
            final(self).track_timings == old(self).track_timings,
            old(self).track_timings ==> final(self).buffer@ == old(self).buffer@.drop_first().push(TimingStep { step, time_micros: elapsed_micros }),
            !old(self).track_timings ==> *final(self) == *old(self),
    {
        if self.track_timings {
            self.buffer.add(TimingStep { step, time_micros: elapsed_micros });
        }
    }
}

/// The views of a name-keyed buffer list: each name with its history.
pub open spec fn buffer_views<T>(bs: Seq<(String, CircleVec<T>)>) -> Seq<(Seq<char>, Seq<T>)> {
    bs.map_values(|p: (String, CircleVec<T>)| (p.0@, p.1@))
}

/// A keyed list after one sample lands under `name`: the first entry
/// of that name rotates the sample in; a missing name gains a fresh
/// hundred-slot buffer of `fill` values with the sample rotated in.
pub open spec fn push_named<T>(
    m: Seq<(Seq<char>, Seq<T>)>,
    name: Seq<char>,
    fill: T,
    v: T,
) -> Seq<(Seq<char>, Seq<T>)>
    decreases m.len(),
{
    if m.len() == 0 {
        seq![(name, Seq::new(100, |i: int| fill).drop_first().push(v))]
    } else if m[0].0 == name {
        seq![(m[0].0, m[0].1.drop_first().push(v))] + m.drop_first()
    } else {
        seq![m[0]] + push_named(m.drop_first(), name, fill, v)
    }
}

/// A keyed list after a whole row of samples lands, one by one.
pub open spec fn apply_pushes<T>(
    m: Seq<(Seq<char>, Seq<T>)>,
    rows: Seq<(Seq<char>, T)>,
    fill: T,
) -> Seq<(Seq<char>, Seq<T>)>
    decreases rows.len(),
{
    if rows.len() == 0 {
        m
    } else {
        apply_pushes(push_named(m, rows[0].0, fill, rows[0].1), rows.drop_first(), fill)
    }
}

/// Landing a sample under an existing first-match key updates exactly
/// that entry.
proof fn lemma_push_named_found<T>(
    m: Seq<(Seq<char>, Seq<T>)>,
    name: Seq<char>,
    fill: T,
    v: T,
    j: int,
)
    requires
        0 <= j < m.len(),
        m[j].0 == name,
        forall|k: int| 0 <= k < j ==> m[k].0 != name,
    ensures
        push_named(m, name, fill, v) == m.update(j, (m[j].0, m[j].1.drop_first().push(v))),
    decreases j,
{
    if j == 0 {
        assert(seq![(m[0].0, m[0].1.drop_first().push(v))] + m.drop_first() =~= m.update(
            0,
            (m[0].0, m[0].1.drop_first().push(v)),
        ));
    } else {
        assert(forall|k: int| 0 <= k < m.len() - 1 ==> m.drop_first()[k] == m[k + 1]);
        lemma_push_named_found(m.drop_first(), name, fill, v, j - 1);
        assert(seq![m[0]] + m.drop_first().update(
            j - 1,
            (m[j].0, m[j].1.drop_first().push(v)),
        ) =~= m.update(j, (m[j].0, m[j].1.drop_first().push(v))));
    }
}

/// Landing a sample under an unknown key appends a fresh entry.
proof fn lemma_push_named_absent<T>(m: Seq<(Seq<char>, Seq<T>)>, name: Seq<char>, fill: T, v: T)
    requires
        forall|k: int| 0 <= k < m.len() ==> m[k].0 != name,
    ensures
        push_named(m, name, fill, v) == m.push(
            (name, Seq::new(100, |i: int| fill).drop_first().push(v)),
        ),
    decreases m.len(),
{
    if m.len() == 0 {
        assert(seq![(name, Seq::new(100, |i: int| fill).drop_first().push(v))] =~= m.push(
            (name, Seq::new(100, |i: int| fill).drop_first().push(v)),
        ));
    } else {
        assert(forall|k: int| 0 <= k < m.len() - 1 ==> m.drop_first()[k] == m[k + 1]);
        lemma_push_named_absent(m.drop_first(), name, fill, v);
        assert(seq![m[0]] + m.drop_first().push(
            (name, Seq::new(100, |i: int| fill).drop_first().push(v)),
        ) =~= m.push((name, Seq::new(100, |i: int| fill).drop_first().push(v))));
    }
}

/// Lands one sample in the buffer keyed by `name`, creating the buffer
/// on first sight of the name.
fn push_into<T: Copy>(bs: &mut Vec<(String, CircleVec<T>)>, name: &String, fill: T, v: T)
    ensures
        buffer_views(final(bs)@) == push_named(buffer_views(old(bs)@), name@, fill, v),
{
    let n = bs.len();
    let mut j: usize = 0;
    while j < n
        invariant
            j <= n,
            n == bs@.len(),
            *bs == *old(bs),
            forall|k: int| 0 <= k < j ==> bs@[k].0@ != name@,
        decreases n - j,
    {
        if bs[j].0 == *name {
            proof {
                assert(buffer_views(bs@).len() == bs@.len());
                assert(forall|k: int|
                    0 <= k < j ==> buffer_views(bs@)[k].0 != name@);
                assert(buffer_views(bs@)[j as int].0 == name@);
                lemma_push_named_found(buffer_views(bs@), name@, fill, v, j as int);
            }
            let ghost bs0 = bs@;
            let entry = bs.remove(j);
            let (nm, mut buf) = entry;
            buf.add(v);
            bs.insert(j, (nm, buf));
            proof {
                assert(bs@ =~= bs0.update(j as int, (bs0[j as int].0, bs@[j as int].1)));
                assert(bs@[j as int].1@ == bs0[j as int].1@.drop_first().push(v));
                assert forall|k: int| 0 <= k < bs@.len() implies buffer_views(bs@)[k]
                    == push_named(buffer_views(bs0), name@, fill, v)[k] by {
                    if k != j as int {
                        assert(bs@[k] == bs0[k]);
                    }
                }
                assert(buffer_views(bs@) =~= push_named(buffer_views(bs0), name@, fill, v));
            }
            return;
        }
        j = j + 1;
    }
    proof {
        assert(forall|k: int|
            0 <= k < bs@.len() ==> buffer_views(bs@)[k].0 == bs@[k].0@ && bs@[k].0@ != name@);
        lemma_push_named_absent(buffer_views(bs@), name@, fill, v);
    }
    let ghost bs0 = bs@;
    let mut buf: CircleVec<T> = CircleVec::new(100, fill);
    buf.add(v);
    bs.push((name.clone(), buf));
    proof {
        assert(buffer_views(bs@) =~= buffer_views(bs0).push(
            (name@, Seq::new(100, |i: int| fill).drop_first().push(v)),
        ));
        assert(buffer_views(bs0).push(
            (name@, Seq::new(100, |i: int| fill).drop_first().push(v)),
        ) =~= push_named(buffer_views(bs0), name@, fill, v));
    }
}

/// The views of the observed interface rows: name and byte counts.
pub open spec fn net_views(rows: Seq<(String, MyNetworkData)>) -> Seq<(Seq<char>, MyNetworkData)> {
    rows.map_values(|p: (String, MyNetworkData)| (p.0@, p.1))
}

/// The received-bytes samples of the rows, keyed by interface name.
pub open spec fn rx_rows(rows: Seq<(Seq<char>, MyNetworkData)>) -> Seq<(Seq<char>, u64)> {
    rows.map_values(|p: (Seq<char>, MyNetworkData)| (p.0, p.1.rx))
}

/// The transmitted-bytes samples of the rows, keyed by interface name.
pub open spec fn tx_rows(rows: Seq<(Seq<char>, MyNetworkData)>) -> Seq<(Seq<char>, u64)> {
    rows.map_values(|p: (Seq<char>, MyNetworkData)| (p.0, p.1.tx))
}

/// The views of the interface toggles.
pub open spec fn toggle_views(ts: Seq<(String, bool)>) -> Seq<(Seq<char>, bool)> {
    ts.map_values(|p: (String, bool)| (p.0@, p.1))
}

/// The flag of the first toggle entry named `name`, if any.
pub open spec fn lookup_flag(ts: Seq<(Seq<char>, bool)>, name: Seq<char>) -> Option<bool>
    decreases ts.len(),
{
    if ts.len() == 0 {
        None
    } else if ts[0].0 == name {
        Some(ts[0].1)
    } else {
        lookup_flag(ts.drop_first(), name)
    }
}

/// The toggles with `name` present: an unknown name is appended,
/// switched off, so it shows up in the settings without being drawn.
pub open spec fn ensure_key(ts: Seq<(Seq<char>, bool)>, name: Seq<char>) -> Seq<
    (Seq<char>, bool),
> {
    if lookup_flag(ts, name) is None {
        ts.push((name, false))
    } else {
        ts
    }
}

/// The toggles after every observed interface name is present.
pub open spec fn ensure_all(
    ts: Seq<(Seq<char>, bool)>,
    rows: Seq<(Seq<char>, MyNetworkData)>,
) -> Seq<(Seq<char>, bool)>
    decreases rows.len(),
{
    if rows.len() == 0 {
        ts
    } else {
        ensure_all(ensure_key(ts, rows[0].0), rows.drop_first())
    }
}

/// The observed rows whose toggle was already switched on: a name
/// first seen this tick is off and never included.
pub open spec fn enabled_rows_spec(
    ts: Seq<(Seq<char>, bool)>,
    rows: Seq<(Seq<char>, MyNetworkData)>,
) -> Seq<(Seq<char>, MyNetworkData)>
    decreases rows.len(),
{
    if rows.len() == 0 {
        Seq::<(Seq<char>, MyNetworkData)>::empty()
    } else {
        let rest = enabled_rows_spec(ts, rows.drop_first());
        if lookup_flag(ts, rows[0].0) == Some(true) {
            seq![rows[0]] + rest
        } else {
            rest
        }
    }
}

/// Appending a toggle entry only answers lookups its key left open.
proof fn lemma_lookup_push(ts: Seq<(Seq<char>, bool)>, x: (Seq<char>, bool), name: Seq<char>)
    ensures
        lookup_flag(ts.push(x), name) == if lookup_flag(ts, name) is Some {
            lookup_flag(ts, name)
        } else if x.0 == name {
            Some(x.1)
        } else {
            None
        },
    decreases ts.len(),
{
    if ts.len() == 0 {
        assert(ts.push(x)[0] == x);
        assert(ts.push(x).drop_first() =~= Seq::<(Seq<char>, bool)>::empty());
    } else {
        assert(ts.push(x)[0] == ts[0]);
        assert(ts.push(x).drop_first() =~= ts.drop_first().push(x));
        lemma_lookup_push(ts.drop_first(), x, name);
    }
}

/// Ensuring keys never changes a lookup that already had an answer,
/// and answers exactly the ensured names with `false`.
proof fn lemma_lookup_ensure_all(
    ts: Seq<(Seq<char>, bool)>,
    rows: Seq<(Seq<char>, MyNetworkData)>,
    name: Seq<char>,
)
    ensures
        lookup_flag(ensure_all(ts, rows), name) == if lookup_flag(ts, name) is Some {
            lookup_flag(ts, name)
        } else if (exists|i: int| 0 <= i < rows.len() && (#[trigger] rows[i]).0 == name) {
            Some(false)
        } else {
            None
        },
    decreases rows.len(),
{
    if rows.len() > 0 {
        let ts1 = ensure_key(ts, rows[0].0);
        if lookup_flag(ts, rows[0].0) is None {
            lemma_lookup_push(ts, (rows[0].0, false), name);
        }
        lemma_lookup_ensure_all(ts1, rows.drop_first(), name);
        assert(forall|i: int|
            0 <= i < rows.len() - 1 ==> (#[trigger] rows.drop_first()[i]) == rows[i + 1]);
        if lookup_flag(ts, name) is None {
            if exists|i: int| 0 <= i < rows.len() && (#[trigger] rows[i]).0 == name {
                let w = choose|i: int| 0 <= i < rows.len() && (#[trigger] rows[i]).0 == name;
                if w > 0 {
                    assert(rows.drop_first()[w - 1].0 == name);
                }
            }
            if exists|i: int|
                0 <= i < rows.drop_first().len() && (#[trigger] rows.drop_first()[i]).0 == name {
                let w = choose|i: int|
                    0 <= i < rows.drop_first().len() && (#[trigger] rows.drop_first()[i]).0
                        == name;
                assert(rows[w + 1].0 == name);
            }
        }
    }
}

/// The network sampler: per-interface sent/received histories, created
/// lazily and keyed by interface name, gated by the user's toggles.
pub struct NetworkSampler {
    pub up_buffers: Vec<(String, CircleVec<u64>)>,
    pub down_buffers: Vec<(String, CircleVec<u64>)>,
    pub toggles: Vec<(String, bool)>,
}

impl NetworkSampler {
    /// No interfaces seen, nothing toggled on.
    pub fn new() -> (r: Self)
        ensures
            r.up_buffers@ == Seq::<(String, CircleVec<u64>)>::empty(),
            r.down_buffers@ == Seq::<(String, CircleVec<u64>)>::empty(),
            r.toggles@ == Seq::<(String, bool)>::empty(),
    {
        NetworkSampler { up_buffers: Vec::new(), down_buffers: Vec::new(), toggles: Vec::new() }
    }

    /// The observed interfaces the user has switched on, in order;
    /// every name not yet known to the toggles is added switched off,
    /// so the settings list offers it from now on.
    pub fn filter_networks(&mut self, observed: &Vec<(String, MyNetworkData)>) -> (r: Vec<
        (String, MyNetworkData),
    >)
        ensures
            toggle_views(final(self).toggles@) == ensure_all(
                toggle_views(old(self).toggles@),
                net_views(observed@),
            ),
            net_views(r@) == enabled_rows_spec(
                toggle_views(old(self).toggles@),
                net_views(observed@),
            ),
            final(self).up_buffers == old(self).up_buffers,
            final(self).down_buffers == old(self).down_buffers,
    {
        let ghost ts0 = toggle_views(old(self).toggles@);
        let ghost rows = net_views(observed@);
        let n = observed.len();
        let mut r: Vec<(String, MyNetworkData)> = Vec::new();
        let mut i: usize = 0;
        proof {
            assert(rows.skip(0) =~= rows);
            assert(net_views(r@) + enabled_rows_spec(ts0, rows) =~= enabled_rows_spec(ts0, rows));
        }
        while i < n
            invariant
                i <= n,
                n == observed@.len(),
                ts0 == toggle_views(old(self).toggles@),
                rows == net_views(observed@),
                self.up_buffers == old(self).up_buffers,
                self.down_buffers == old(self).down_buffers,
                ensure_all(ts0, rows) == ensure_all(
                    toggle_views(self.toggles@),
                    rows.skip(i as int),
                ),
                enabled_rows_spec(ts0, rows) == net_views(r@) + enabled_rows_spec(
                    ts0,
                    rows.skip(i as int),
                ),
                forall|nm: Seq<char>|
                    #[trigger] lookup_flag(toggle_views(self.toggles@), nm) == if lookup_flag(
                        ts0,
                        nm,
                    ) is Some {
                        lookup_flag(ts0, nm)
                    } else if (exists|k: int| 0 <= k < i && (#[trigger] rows[k]).0 == nm) {
                        Some(false)
                    } else {
                        None
                    },
            decreases n - i,
        {
            let ghost tsc = toggle_views(self.toggles@);
            let ghost row = rows[i as int];
            proof {
                assert(rows.skip(i as int)[0] == row);
                assert(rows.skip(i as int).drop_first() =~= rows.skip(i + 1));
            }
            let name = &observed[i].0;
            let data = observed[i].1;
            let looked = find_toggle(&self.toggles, name);
            let mut flag = false;
            match looked {
                Some(f) => {
                    flag = f;
                    proof {
                        assert(ensure_key(tsc, row.0) == tsc);
                    }
                },
                None => {
                    let ghost before = self.toggles@;
                    self.toggles.push((name.clone(), false));
                    proof {
                        assert(toggle_views(self.toggles@) =~= toggle_views(before).push(
                            (name@, false),
                        ));
                        assert(toggle_views(self.toggles@) == ensure_key(tsc, row.0));
                    }
                },
            }
            let ghost tsn = toggle_views(self.toggles@);
            let ghost r0 = r@;
            let enabled = match looked {
                Some(f) => f,
                None => false,
            };
            if enabled {
                r.push((name.clone(), data));
                proof {
                    assert(net_views(r@) =~= net_views(r0).push((name@, data)));
                }
            }
            proof {
                assert(tsn == ensure_key(tsc, row.0));
                // the decision matches the spec against the original toggles
                lemma_enabled_unfold(ts0, rows, i as int);
                if enabled {
                    assert(lookup_flag(tsc, name@) == Some(true));
                    assert(lookup_flag(ts0, name@) == Some(true));
                    assert(net_views(r0).push((name@, data)) + enabled_rows_spec(
                        ts0,
                        rows.skip(i + 1),
                    ) =~= net_views(r0) + (seq![row] + enabled_rows_spec(ts0, rows.skip(i + 1))));
                } else {
                    assert(lookup_flag(ts0, name@) != Some(true));
                }
                // lookups against the updated toggles
                assert forall|nm: Seq<char>|
                    #[trigger] lookup_flag(tsn, nm) == if lookup_flag(ts0, nm) is Some {
                        lookup_flag(ts0, nm)
                    } else if (exists|k: int| 0 <= k < i + 1 && (#[trigger] rows[k]).0 == nm) {
                        Some(false)
                    } else {
                        None
                    } by {
                    assert(lookup_flag(tsc, nm) == if lookup_flag(ts0, nm) is Some {
                        lookup_flag(ts0, nm)
                    } else if (exists|k: int| 0 <= k < i && (#[trigger] rows[k]).0 == nm) {
                        Some(false)
                    } else {
                        None
                    });
                    if looked is None {
                        lemma_lookup_push(tsc, (name@, false), nm);
                    }
                    if exists|k: int| 0 <= k < i && (#[trigger] rows[k]).0 == nm {
                        let w = choose|k: int| 0 <= k < i && (#[trigger] rows[k]).0 == nm;
                        assert(0 <= w < i + 1 && rows[w].0 == nm);
                    }
                    if exists|k: int| 0 <= k < i + 1 && (#[trigger] rows[k]).0 == nm {
                        let w = choose|k: int| 0 <= k < i + 1 && (#[trigger] rows[k]).0 == nm;
                        if w == i {
                            assert(rows[i as int].0 == nm);
                        } else {
                            assert(0 <= w < i && rows[w].0 == nm);
                        }
                    }
                }
            }
            i = i + 1;
        }
        proof {
            assert(rows.skip(n as int) =~= Seq::<(Seq<char>, MyNetworkData)>::empty());
            assert(net_views(r@) + Seq::<(Seq<char>, MyNetworkData)>::empty() =~= net_views(r@));
        }
        r
    }
}

/// The flag of the first toggle entry named `name`, if any.
fn find_toggle(ts: &Vec<(String, bool)>, name: &String) -> (r: Option<bool>)
    ensures
        r == lookup_flag(toggle_views(ts@), name@),
{
    let n = ts.len();
    let mut j: usize = 0;
    while j < n
        invariant
            j <= n,
            n == ts@.len(),
            forall|k: int| 0 <= k < j ==> ts@[k].0@ != name@,
        decreases n - j,
    {
        if ts[j].0 == *name {
            proof {
                assert(forall|k: int|
                    0 <= k < ts@.len() ==> toggle_views(ts@)[k] == (ts@[k].0@, ts@[k].1));
                lemma_lookup_found(toggle_views(ts@), name@, j as int);
            }
            return Some(ts[j].1);
        }
        j = j + 1;
    }
    proof {
        assert(forall|k: int|
            0 <= k < ts@.len() ==> toggle_views(ts@)[k] == (ts@[k].0@, ts@[k].1));
        lemma_lookup_absent(toggle_views(ts@), name@);
    }
    None
}

/// Landing the rows one more at the end folds as one more push.
proof fn lemma_apply_pushes_snoc<T>(
    m: Seq<(Seq<char>, Seq<T>)>,
    rs: Seq<(Seq<char>, T)>,
    x: (Seq<char>, T),
    fill: T,
)
    ensures
        apply_pushes(m, rs.push(x), fill) == push_named(apply_pushes(m, rs, fill), x.0, fill, x.1),
    decreases rs.len(),
{
    if rs.len() == 0 {
        assert(rs.push(x)[0] == x);
        assert(rs.push(x).drop_first() =~= Seq::<(Seq<char>, T)>::empty());
        assert(apply_pushes(m, rs, fill) == m);
        assert(apply_pushes(m, rs.push(x), fill) == apply_pushes(
            push_named(m, x.0, fill, x.1),
            rs.push(x).drop_first(),
            fill,
        ));
        assert(apply_pushes(push_named(m, x.0, fill, x.1), rs.push(x).drop_first(), fill)
            == push_named(m, x.0, fill, x.1));
    } else {
        assert(rs.push(x)[0] == rs[0]);
        assert(rs.push(x).drop_first() =~= rs.drop_first().push(x));
        lemma_apply_pushes_snoc(push_named(m, rs[0].0, fill, rs[0].1), rs.drop_first(), x, fill);
        assert(apply_pushes(m, rs.push(x), fill) == apply_pushes(
            push_named(m, rs[0].0, fill, rs[0].1),
            rs.drop_first().push(x),
            fill,
        ));
        assert(apply_pushes(m, rs, fill) == apply_pushes(
            push_named(m, rs[0].0, fill, rs[0].1),
            rs.drop_first(),
            fill,
        ));
    }
}

impl NetworkSampler {
    /// One network tick: filters the observed interfaces through the
    /// toggles, then lands each enabled interface's received bytes in
    /// its down buffer and transmitted bytes in its up buffer,
    /// creating the buffers on first sight of a name.
    pub fn refresh_networks(&mut self, observed: &Vec<(String, MyNetworkData)>)
        ensures
            toggle_views(final(self).toggles@) == ensure_all(
                toggle_views(old(self).toggles@),
                net_views(observed@),
            ),
            buffer_views(final(self).down_buffers@) == apply_pushes(
                buffer_views(old(self).down_buffers@),
                rx_rows(
                    enabled_rows_spec(toggle_views(old(self).toggles@), net_views(observed@)),
                ),
                0u64,
            ),
            buffer_views(final(self).up_buffers@) == apply_pushes(
                buffer_views(old(self).up_buffers@),
                tx_rows(
                    enabled_rows_spec(toggle_views(old(self).toggles@), net_views(observed@)),
                ),
                0u64,
            ),
    {
        let enabled = self.filter_networks(observed);
        let ghost er = net_views(enabled@);
        let ghost rxr = rx_rows(er);
        let ghost txr = tx_rows(er);
        let ghost dv0 = buffer_views(self.down_buffers@);
        let ghost uv0 = buffer_views(self.up_buffers@);
        let n = enabled.len();
        let mut i: usize = 0;
        proof {
            assert(rxr.subrange(0, 0) =~= Seq::<(Seq<char>, u64)>::empty());
            assert(txr.subrange(0, 0) =~= Seq::<(Seq<char>, u64)>::empty());
        }
        while i < n
            invariant
                i <= n,
                n == enabled@.len(),
                er == net_views(enabled@),
                rxr == rx_rows(er),
                txr == tx_rows(er),
                toggle_views(self.toggles@) == ensure_all(
                    toggle_views(old(self).toggles@),
                    net_views(observed@),
                ),
                buffer_views(self.down_buffers@) == apply_pushes(
                    dv0,
                    rxr.subrange(0, i as int),
                    0u64,
                ),
                buffer_views(self.up_buffers@) == apply_pushes(
                    uv0,
                    txr.subrange(0, i as int),
                    0u64,
                ),
                dv0 == buffer_views(old(self).down_buffers@),
                uv0 == buffer_views(old(self).up_buffers@),
            decreases n - i,
        {
            proof {
                assert(rxr.subrange(0, i + 1) =~= rxr.subrange(0, i as int).push(
                    rxr[i as int],
                ));
                assert(txr.subrange(0, i + 1) =~= txr.subrange(0, i as int).push(
                    txr[i as int],
                ));
                assert(rxr[i as int] == (enabled@[i as int].0@, enabled@[i as int].1.rx));
                assert(txr[i as int] == (enabled@[i as int].0@, enabled@[i as int].1.tx));
                lemma_apply_pushes_snoc(dv0, rxr.subrange(0, i as int), rxr[i as int], 0u64);
                lemma_apply_pushes_snoc(uv0, txr.subrange(0, i as int), txr[i as int], 0u64);
            }
            push_into(&mut self.down_buffers, &enabled[i].0, 0u64, enabled[i].1.rx);
            push_into(&mut self.up_buffers, &enabled[i].0, 0u64, enabled[i].1.tx);
            i = i + 1;
        }
        proof {
            assert(rxr.subrange(0, n as int) =~= rxr);
            assert(txr.subrange(0, n as int) =~= txr);
        }
    }
}

/// The views of one tick's per-volume busy-time readings.
pub open spec fn reading_views(rows: Seq<(String, Milli)>) -> Seq<(Seq<char>, Milli)> {
    rows.map_values(|p: (String, Milli)| (p.0@, p.1))
}

/// The disk sampler: per-volume busy-time histories, created lazily
/// and keyed by mount point.
pub struct DiskSampler {
    pub buffers: Vec<(String, CircleVec<Milli>)>,
}

impl DiskSampler {
    /// No volumes seen yet.
    pub fn new() -> (r: Self)
        ensures
            r.buffers@ == Seq::<(String, CircleVec<Milli>)>::empty(),
    {
        DiskSampler { buffers: Vec::new() }
    }

    /// One disk tick: lands each volume's busy-time percentage in the
    /// buffer keyed by its mount point.
    pub fn refresh_disk_io_time(&mut self, readings: &Vec<(String, Milli)>)
        ensures
            buffer_views(final(self).buffers@) == apply_pushes(
                buffer_views(old(self).buffers@),
                reading_views(readings@),
                Milli::zero_spec(),
            ),
    {
        let ghost rv = reading_views(readings@);
        let ghost bv0 = buffer_views(self.buffers@);
        let n = readings.len();
        let mut i: usize = 0;
        proof {
            assert(rv.subrange(0, 0) =~= Seq::<(Seq<char>, Milli)>::empty());
        }
        while i < n
            invariant
                i <= n,
                n == readings@.len(),
                rv == reading_views(readings@),
                bv0 == buffer_views(old(self).buffers@),
                buffer_views(self.buffers@) == apply_pushes(
                    bv0,
                    rv.subrange(0, i as int),
                    Milli::zero_spec(),
                ),
            decreases n - i,
        {
            proof {
                assert(rv.subrange(0, i + 1) =~= rv.subrange(0, i as int).push(rv[i as int]));
                assert(rv[i as int] == (readings@[i as int].0@, readings@[i as int].1));
                lemma_apply_pushes_snoc(
                    bv0,
                    rv.subrange(0, i as int),
                    rv[i as int],
                    Milli::zero_spec(),
                );
            }
            let v = readings[i].1;
            push_into(&mut self.buffers, &readings[i].0, Milli::zero(), v);
            i = i + 1;
        }
        proof {
            assert(rv.subrange(0, n as int) =~= rv);
        }
    }
}

/// The value a whole path query reads from the tree, in thousandths;
/// zero when the path finds no node or its value is not a number.
pub open spec fn tree_value_spec(tree: Option<OHWNode>, path: Seq<char>) -> int {
    match select_opt_spec(tree, split_path(path)) {
        Some(n) => sensor_value_spec(n.Value@),
        None => 0,
    }
}

/// A tree value lies within the symmetric `i64` range.
pub proof fn lemma_tree_value_in_range(tree: Option<OHWNode>, path: Seq<char>)
    ensures
        -(i64::MAX as int) <= tree_value_spec(tree, path) <= i64::MAX,
{
    match select_opt_spec(tree, split_path(path)) {
        Some(n) => {
            crate::milli::lemma_sensor_value_in_range(n.Value@);
        },
        None => {},
    }
}

/// The memory sampler: the RAM-usage permille history.
pub struct MemorySampler {
    pub ram_buffer: CircleVec<i64>,
}

/// A memory reading under the `Generic Memory` data node, scaled from
/// gibibytes to bytes; zero when the node or the label is missing.
pub open spec fn mem_value_spec(tree: Option<OHWNode>, label: Seq<char>) -> int {
    match select_opt_spec(tree, split_path("#0|Generic Memory|Data"@)) {
        Some(n) => milli_scale_spec(
            Milli {
                thousandths: (match select_spec(n, split_path(label)) {
                    Some(m) => sensor_value_spec(m.Value@),
                    None => 0,
                }) as i64,
            },
            1073741824,
        ),
        None => 0,
    }
}

/// The used RAM in bytes, as the hardware tree reports it.
pub open spec fn mem_used_spec(tree: Option<OHWNode>) -> int {
    mem_value_spec(tree, "Memory Used"@)
}

/// The available RAM in bytes, as the hardware tree reports it.
pub open spec fn mem_avail_spec(tree: Option<OHWNode>) -> int {
    mem_value_spec(tree, "Memory Available"@)
}

impl MemorySampler {
    /// A buffer of one hundred zero samples.
    pub fn new() -> (r: Self)
        ensures
            r.ram_buffer@ == Seq::new(100, |i: int| 0i64),
    {
        MemorySampler { ram_buffer: CircleVec::new(100, 0i64) }
    }

    /// One memory tick: reads used and available bytes from the
    /// hardware tree, publishes them into the shared state — where
    /// the total is cached on its first nonzero observation — and
    /// appends the usage permille against that cached total.
    pub fn refresh_system_memory(&mut self, shared: &mut SharedTelemetryState)
        ensures
            ({
                let used = mem_used_spec(old(shared).latest_hardware_tree);
                let total = sat_i64(used + mem_avail_spec(old(shared).latest_hardware_tree));
                let new_total = if old(shared).total_ram == 0 {
                    total
                } else {
                    old(shared).total_ram as int
                };
                &&& final(shared).current_ram as int == used
                &&& final(shared).total_ram as int == new_total
                &&& final(self).ram_buffer@ == old(self).ram_buffer@.drop_first().push(
                    ratio_permille_spec(used as i64, new_total as i64) as i64,
                )
            }),
            final(shared).latest_hardware_tree == old(shared).latest_hardware_tree,
            final(shared).gpu_static == old(shared).gpu_static,
            final(shared).max_observed_cpu_power == old(shared).max_observed_cpu_power,
    {
        let node = (&shared.latest_hardware_tree).select("#0|Generic Memory|Data");
        let cur: i64;
        let avail: i64;
        match node {
            Some(n) => {
                cur = milli_scale(n.parse_value_path_def("Memory Used"), 1073741824);
                avail = milli_scale(n.parse_value_path_def("Memory Available"), 1073741824);
            },
            None => {
                cur = 0;
                avail = 0;
            },
        }
        let total = add_sat_i64(cur, avail);
        shared.observe_memory(cur, total);
        let t = shared.total_ram;
        self.ram_buffer.add(ratio_permille(cur, t));
    }
}
/// A first-match search answers the lookup.
proof fn lemma_lookup_found(ts: Seq<(Seq<char>, bool)>, name: Seq<char>, j: int)
    requires
        0 <= j < ts.len(),
        ts[j].0 == name,
        forall|k: int| 0 <= k < j ==> ts[k].0 != name,
    ensures
        lookup_flag(ts, name) == Some(ts[j].1),
    decreases j,
{
    if j > 0 {
        assert(forall|k: int| 0 <= k < ts.len() - 1 ==> ts.drop_first()[k] == ts[k + 1]);
        lemma_lookup_found(ts.drop_first(), name, j - 1);
    }
}

/// A name no entry bears has no flag.
proof fn lemma_lookup_absent(ts: Seq<(Seq<char>, bool)>, name: Seq<char>)
    requires
        forall|k: int| 0 <= k < ts.len() ==> ts[k].0 != name,
    ensures
        lookup_flag(ts, name) is None,
    decreases ts.len(),
{
    if ts.len() > 0 {
        assert(forall|k: int| 0 <= k < ts.len() - 1 ==> ts.drop_first()[k] == ts[k + 1]);
        lemma_lookup_absent(ts.drop_first(), name);
    }
}

/// A value read under the GPU node: the node whose icon is the GPU
/// vendor icon, then the given subpath; zero when anything is missing.
pub open spec fn gpu_value_spec(tree: Option<OHWNode>, sub: Seq<char>) -> int {
    match select_opt_spec(tree, split_path("#0|+images_icon/nvidia.png"@)) {
        Some(n) => match select_spec(n, split_path(sub)) {
            Some(m) => sensor_value_spec(m.Value@),
            None => 0,
        },
        None => 0,
    }
}

/// One tick's GPU readings: the dynamic values through the hardware
/// tree — zero wherever the tree lacks them — and the static limits
/// from the cached descriptor.
pub open spec fn gpu_data_spec(tree: Option<OHWNode>, st: GpuStaticInfo) -> GpuData {
    GpuData {
        utilization: Milli { thousandths: gpu_value_spec(tree, "Load|#0"@) as i64 },
        temperature: Milli { thousandths: gpu_value_spec(tree, "Temperatures|#0"@) as i64 },
        memory_free: milli_scale_spec(
            Milli { thousandths: gpu_value_spec(tree, "Data|#0"@) as i64 },
            1048576,
        ) as i64,
        memory_used: milli_scale_spec(
            Milli { thousandths: gpu_value_spec(tree, "Data|#1"@) as i64 },
            1048576,
        ) as i64,
        memory_total: milli_scale_spec(
            Milli { thousandths: gpu_value_spec(tree, "Data|#2"@) as i64 },
            1048576,
        ) as i64,
        power_usage: Milli { thousandths: gpu_value_spec(tree, "Powers|#0"@) as i64 },
        power_limit: st.power_limit,
        fan_percentage: Milli { thousandths: gpu_value_spec(tree, "Controls|#0"@) as i64 },
        clock_mhz: Milli { thousandths: gpu_value_spec(tree, "Clocks|#0"@) as i64 },
        max_clock: st.max_clock,
    }
}

/// The GPU sampler: utilization, memory-ratio, power-ratio and
/// temperature histories, plus the latest full reading.
pub struct GpuSampler {
    pub util_buffer: CircleVec<Milli>,
    pub mem_buffer: CircleVec<i64>,
    pub power_buffer: CircleVec<i64>,
    pub temp_buffer: CircleVec<Milli>,
    pub latest: Option<GpuData>,
}

impl GpuSampler {
    /// Buffers of one hundred zero samples, no reading yet.
    pub fn new() -> (r: Self)
        ensures
            r.util_buffer@ == Seq::new(100, |i: int| Milli::zero_spec()),
            r.mem_buffer@ == Seq::new(100, |i: int| 0i64),
            r.power_buffer@ == Seq::new(100, |i: int| 0i64),
            r.temp_buffer@ == Seq::new(100, |i: int| Milli::zero_spec()),
            r.latest is None,
    {
        GpuSampler {
            util_buffer: CircleVec::new(100, Milli::zero()),
            mem_buffer: CircleVec::new(100, 0i64),
            power_buffer: CircleVec::new(100, 0i64),
            temp_buffer: CircleVec::new(100, Milli::zero()),
            latest: None,
        }
    }

    /// One GPU tick: the static limits come from the shared cache —
    /// filled from `fallback` on the first tick — the dynamic values
    /// from the hardware tree, and the derived gauge ratios land in
    /// the histories.
    pub fn refresh_gpu(&mut self, shared: &mut SharedTelemetryState, fallback: GpuStaticInfo)
        ensures
            ({
                let st = match old(shared).gpu_static {
                    Some(g) => g,
                    None => fallback,
                };
                let g = gpu_data_spec(old(shared).latest_hardware_tree, st);
                &&& final(self).latest == Some(g)
                &&& final(self).util_buffer@ == old(self).util_buffer@.drop_first().push(
                    g.utilization,
                )
                &&& final(self).mem_buffer@ == old(self).mem_buffer@.drop_first().push(
                    ratio_permille_spec(g.memory_used, g.memory_total) as i64,
                )
                &&& final(self).power_buffer@ == old(self).power_buffer@.drop_first().push(
                    ratio_permille_spec(
                        g.power_usage.thousandths,
                        g.power_limit.thousandths,
                    ) as i64,
                )
                &&& final(self).temp_buffer@ == old(self).temp_buffer@.drop_first().push(
                    g.temperature,
                )
                &&& final(shared).gpu_static == Some(st)
            }),
            final(shared).latest_hardware_tree == old(shared).latest_hardware_tree,
            final(shared).current_ram == old(shared).current_ram,
            final(shared).total_ram == old(shared).total_ram,
            final(shared).max_observed_cpu_power == old(shared).max_observed_cpu_power,
    {
        let st = shared.gpu_static_or_cache(fallback);
        let g: GpuData;
        match (&shared.latest_hardware_tree).select("#0|+images_icon/nvidia.png") {
            Some(n) => {
                g = GpuData {
                    utilization: n.parse_value_path_def("Load|#0"),
                    temperature: n.parse_value_path_def("Temperatures|#0"),
                    memory_free: milli_scale(n.parse_value_path_def("Data|#0"), 1048576),
                    memory_used: milli_scale(n.parse_value_path_def("Data|#1"), 1048576),
                    memory_total: milli_scale(n.parse_value_path_def("Data|#2"), 1048576),
                    power_usage: n.parse_value_path_def("Powers|#0"),
                    power_limit: st.power_limit,
                    fan_percentage: n.parse_value_path_def("Controls|#0"),
                    clock_mhz: n.parse_value_path_def("Clocks|#0"),
                    max_clock: st.max_clock,
                };
            },
            None => {
                g = GpuData {
                    utilization: Milli::zero(),
                    temperature: Milli::zero(),
                    memory_free: 0,
                    memory_used: 0,
                    memory_total: 0,
                    power_usage: Milli::zero(),
                    power_limit: st.power_limit,
                    fan_percentage: Milli::zero(),
                    clock_mhz: Milli::zero(),
                    max_clock: st.max_clock,
                };
            },
        }
        self.util_buffer.add(g.utilization);
        self.mem_buffer.add(ratio_permille(g.memory_used, g.memory_total));
        self.power_buffer.add(ratio_permille(g.power_usage.thousandths, g.power_limit.thousandths));
        self.temp_buffer.add(g.temperature);
        self.latest = Some(g);
    }
}

/// The battery sampler: charge-level and charge-current histories.
/// The level is sampled on its own minute-aligned cadence, since it
/// changes slowly; the current lands every tick.
pub struct BatterySampler {
    pub level_buffer: CircleVec<Milli>,
    pub change_buffer: CircleVec<Milli>,
    pub enabled: bool,
    pub level_next_update: i64,
}

/// The charge level the battery node reports, in thousandths of a
/// percent; zero without a battery.
pub open spec fn battery_level_spec(tree: Option<OHWNode>) -> int {
    tree_value_spec(tree, "#0|+images_icon/battery.png|levels|charge"@)
}

/// The signed charge current: the negated discharge current when one
/// is flowing, otherwise the charge current.
pub open spec fn battery_charge_spec(tree: Option<OHWNode>) -> int {
    let discharge = tree_value_spec(tree, "#0|+images_icon/battery.png|currents|discharge"@);
    if discharge == 0 {
        tree_value_spec(tree, "#0|+images_icon/battery.png|currents|charge"@)
    } else {
        -discharge
    }
}

impl BatterySampler {
    /// Buffers of one hundred zero samples, battery not yet seen.
    pub fn new() -> (r: Self)
        ensures
            r.level_buffer@ == Seq::new(100, |i: int| Milli::zero_spec()),
            r.change_buffer@ == Seq::new(100, |i: int| Milli::zero_spec()),
            r.enabled == false,
            r.level_next_update == 0,
    {
        BatterySampler {
            level_buffer: CircleVec::new(100, Milli::zero()),
            change_buffer: CircleVec::new(100, Milli::zero()),
            enabled: false,
            level_next_update: 0,
        }
    }

    /// One battery tick: nothing happens until a nonzero level is
    /// seen; then the battery counts as present, the signed charge
    /// current lands every tick, and the level lands only when the
    /// minute-aligned deadline has passed.
    pub fn refresh_battery(&mut self, tree: &Option<OHWNode>, now_millis: i64)
        requires
            0 <= now_millis <= i64::MAX - 60000,
        ensures
            ({
                let level = battery_level_spec(*tree);
                &&& level == 0 ==> *final(self) == *old(self)
                &&& level != 0 ==> {
                    &&& final(self).enabled == true
                    &&& final(self).change_buffer@ == old(self).change_buffer@.drop_first().push(
                        Milli { thousandths: battery_charge_spec(*tree) as i64 },
                    )
                    &&& now_millis > old(self).level_next_update ==> {
                        &&& final(self).level_buffer@ == old(self).level_buffer@.drop_first().push(
                            Milli { thousandths: level as i64 },
                        )
                        &&& final(self).level_next_update == now_millis + (60 - (now_millis
                            / 1000) % 60) * 1000
                    }
                    &&& !(now_millis > old(self).level_next_update) ==> {
                        &&& final(self).level_buffer@ == old(self).level_buffer@
                        &&& final(self).level_next_update == old(self).level_next_update
                    }
                }
            }),
    {
        let level = tree.parse_value_path_def("#0|+images_icon/battery.png|levels|charge");
        if level.thousandths != 0 {
            self.enabled = true;
            let discharge = tree.parse_value_path_def(
                "#0|+images_icon/battery.png|currents|discharge",
            );
            let charge: Milli;
            if discharge.thousandths == 0 {
                charge = tree.parse_value_path_def(
                    "#0|+images_icon/battery.png|currents|charge",
                );
            } else {
                proof {
                    lemma_tree_value_in_range(
                        *tree,
                        "#0|+images_icon/battery.png|currents|discharge"@,
                    );
                }
                charge = Milli { thousandths: -discharge.thousandths };
            }
            self.change_buffer.add(charge);
            if now_millis > self.level_next_update {
                self.level_buffer.add(level);
                proof {
                    vstd::arithmetic::div_mod::lemma_mod_bound(now_millis as int / 1000, 60);
                }
                let secs = (now_millis / 1000) % 60;
                self.level_next_update = now_millis + (60 - secs) * 1000;
            }
        }
    }
}

/// The process sampler: the aggregated process table of the last tick,
/// rebuilt in full every refresh.
pub struct ProcessSampler {
    pub processes: Vec<Process>,
}

impl ProcessSampler {
    /// An empty table.
    pub fn new() -> (r: Self)
        ensures
            r.processes@ == Seq::<Process>::empty(),
    {
        ProcessSampler { processes: Vec::new() }
    }

    /// One process tick: replaces the table wholesale with the
    /// aggregation of this tick's raw counter rows.
    pub fn refresh_processes(&mut self, cpu_rows: &Vec<RawCounterRow>, ram_rows: &Vec<
        RawCounterRow,
    >)
        requires
            cpu_rows@.len() <= 65536,
            ram_rows@.len() <= 65536,
            forall|i: int|
                0 <= i < cpu_rows@.len() ==> -1099511627776 <= #[trigger] cpu_rows@[i].value
                    <= 1099511627776,
            forall|i: int|
                0 <= i < ram_rows@.len() ==> -1099511627776 <= #[trigger] ram_rows@[i].value
                    <= 1099511627776,
        ensures
            ({
                let ca = aggregate_spec(clean_rows_spec(row_views(cpu_rows@)));
                let ra = aggregate_spec(clean_rows_spec(row_views(ram_rows@)));
                &&& final(self).processes@.len() == if ca.len() <= ra.len() {
                    ca.len()
                } else {
                    ra.len()
                }
                &&& forall|i: int|
                    0 <= i < final(self).processes@.len() ==> {
                        &&& (#[trigger] final(self).processes@[i]).name@ == ca[i].0
                        &&& final(self).processes@[i].cpu.thousandths as int == ca[i].1
                        &&& final(self).processes@[i].memory as int == ra[i].1
                        &&& final(self).processes@[i].count as int == ca[i].2
                    }
            }),
    {
        self.processes = aggregate_process_rows(cpu_rows, ram_rows);
    }
}

/// The enabled rows of a suffix unfold one row at a time.
proof fn lemma_enabled_unfold(
    ts: Seq<(Seq<char>, bool)>,
    rows: Seq<(Seq<char>, MyNetworkData)>,
    i: int,
)
    requires
        0 <= i < rows.len(),
    ensures
        enabled_rows_spec(ts, rows.skip(i)) == if lookup_flag(ts, rows[i].0) == Some(true) {
            seq![rows[i]] + enabled_rows_spec(ts, rows.skip(i + 1))
        } else {
            enabled_rows_spec(ts, rows.skip(i + 1))
        },
{
    assert(rows.skip(i)[0] == rows[i]);
    assert(rows.skip(i).drop_first() =~= rows.skip(i + 1));
}

/// One tick's raw readings, gathered outside and handed in as plain
/// values: the OS-reported aggregate CPU usage, whether a GPU handle
/// exists and its vendor-library static limits, the per-interface
/// byte counts, the per-volume busy-time readings, the two raw
/// process counter arrays, and the wall clock.
pub struct RefreshInputs {
    pub global_cpu_usage: Milli,
    pub gpu_present: bool,
    pub gpu_fallback: GpuStaticInfo,
    pub networks: Vec<(String, MyNetworkData)>,
    pub disk_readings: Vec<(String, Milli)>,
    pub cpu_rows: Vec<RawCounterRow>,
    pub ram_rows: Vec<RawCounterRow>,
    pub now_millis: i64,
}

/// All samplers of one process, run in a fixed order once per tick.
pub struct SourceSamplers {
    pub cpu: CpuSampler,
    pub gpu: GpuSampler,
    pub memory: MemorySampler,
    pub network: NetworkSampler,
    pub disk: DiskSampler,
    pub ping: PingSampler,
    pub battery: BatterySampler,
    pub procs: ProcessSampler,
    pub timing: TimingSampler,
}

impl SourceSamplers {
    /// All buffers fresh, every history zero-filled.
    pub fn new() -> (r: Self)
        ensures
            r.cpu.usage_buffer@ == Seq::new(100, |i: int| Milli::zero_spec()),
            r.gpu.latest is None,
            r.network.toggles@ == Seq::<(String, bool)>::empty(),
            r.procs.processes@ == Seq::<Process>::empty(),
            r.battery.enabled == false,
            r.timing.track_timings == false,
            r.ping.buffer@ == Seq::new(100, |i: int| 0u64),
    {
        SourceSamplers {
            cpu: CpuSampler::new(),
            gpu: GpuSampler::new(),
            memory: MemorySampler::new(),
            network: NetworkSampler::new(),
            disk: DiskSampler::new(),
            ping: PingSampler::new(),
            battery: BatterySampler::new(),
            procs: ProcessSampler::new(),
            timing: TimingSampler::new(),
        }
    }

    /// Records one ping probe outcome; see [`PingSampler::record_ping`].
    pub fn record_ping(&mut self, response_millis: Option<u64>)
        ensures
            match response_millis {
                Some(ms) => final(self).ping.buffer@ == old(self).ping.buffer@.drop_first().push(
                    ms,
                ),
                None => final(self).ping == old(self).ping,
            },
            final(self).cpu == old(self).cpu,
            final(self).gpu == old(self).gpu,
            final(self).memory == old(self).memory,
            final(self).network == old(self).network,
            final(self).disk == old(self).disk,
            final(self).battery == old(self).battery,
            final(self).procs == old(self).procs,
            final(self).timing == old(self).timing,
    {
        self.ping.record_ping(response_millis);
    }

    /// Records a pipeline-stage timing; see [`TimingSampler::step_timing`].
    pub fn step_timing(&mut self, step: CurrentStep, elapsed_micros: u64)
        ensures
            old(self).timing.track_timings ==> final(self).timing.buffer@ == old(self).timing.buffer@.drop_first().push(
                TimingStep { step, time_micros: elapsed_micros },
            ),
            !old(self).timing.track_timings ==> final(self).timing == old(self).timing,
            final(self).timing.track_timings == old(self).timing.track_timings,
            final(self).cpu == old(self).cpu,
            final(self).gpu == old(self).gpu,
            final(self).memory == old(self).memory,
            final(self).network == old(self).network,
            final(self).disk == old(self).disk,
            final(self).ping == old(self).ping,
            final(self).battery == old(self).battery,
            final(self).procs == old(self).procs,
    {
        self.timing.step_timing(step, elapsed_micros);
    }

    /// One full refresh tick, in the fixed order CPU, GPU, memory,
    /// networks, disk busy-time, processes, battery.  Later samplers
    /// observe what earlier ones wrote — the memory ratio uses a total
    /// cached this very tick — and no sampler ever fails the tick: an
    /// absent tree or counter yields zero samples.
    pub fn refresh(&mut self, shared: &mut SharedTelemetryState, inputs: &RefreshInputs)
        requires
            inputs.cpu_rows@.len() <= 65536,
            inputs.ram_rows@.len() <= 65536,
            forall|i: int|
                0 <= i < inputs.cpu_rows@.len() ==> -1099511627776
                    <= #[trigger] inputs.cpu_rows@[i].value <= 1099511627776,
            forall|i: int|
                0 <= i < inputs.ram_rows@.len() ==> -1099511627776
                    <= #[trigger] inputs.ram_rows@[i].value <= 1099511627776,
            0 <= inputs.now_millis <= i64::MAX - 60000,
        ensures
            ({
                let tree = old(shared).latest_hardware_tree;
                // CPU
                &&& final(self).cpu.usage_buffer@ == old(self).cpu.usage_buffer@.drop_first().push(
                    inputs.global_cpu_usage,
                )
                &&& final(self).cpu.max_temp_buffer@ == old(self).cpu.max_temp_buffer@.drop_first().push(max_abs_milli(core_temps_spec(tree)))
                &&& final(self).cpu.power_buffer@ == old(self).cpu.power_buffer@.drop_first().push(
                    Milli { thousandths: cpu_power_spec(tree) as i64 },
                )
                &&& final(shared).max_observed_cpu_power.thousandths == if cpu_power_spec(tree)
                    > old(shared).max_observed_cpu_power.thousandths {
                    cpu_power_spec(tree) as i64
                } else {
                    old(shared).max_observed_cpu_power.thousandths
                }
                // GPU
                &&& inputs.gpu_present ==> {
                    let st = match old(shared).gpu_static {
                        Some(g) => g,
                        None => inputs.gpu_fallback,
                    };
                    let g = gpu_data_spec(tree, st);
                    &&& final(self).gpu.latest == Some(g)
                    &&& final(self).gpu.util_buffer@ == old(self).gpu.util_buffer@.drop_first().push(g.utilization)
                    &&& final(self).gpu.mem_buffer@ == old(self).gpu.mem_buffer@.drop_first().push(
                        ratio_permille_spec(g.memory_used, g.memory_total) as i64,
                    )
                    &&& final(self).gpu.power_buffer@ == old(self).gpu.power_buffer@.drop_first().push(
                        ratio_permille_spec(
                            g.power_usage.thousandths,
                            g.power_limit.thousandths,
                        ) as i64,
                    )
                    &&& final(self).gpu.temp_buffer@ == old(self).gpu.temp_buffer@.drop_first().push(g.temperature)
                    &&& final(shared).gpu_static == Some(st)
                }
                &&& !inputs.gpu_present ==> final(self).gpu == old(self).gpu && final(shared).gpu_static == old(shared).gpu_static
                // memory
                &&& ({
                    let used = mem_used_spec(tree);
                    let total = sat_i64(used + mem_avail_spec(tree));
                    let new_total = if old(shared).total_ram == 0 {
                        total
                    } else {
                        old(shared).total_ram as int
                    };
                    &&& final(shared).current_ram as int == used
                    &&& final(shared).total_ram as int == new_total
                    &&& final(self).memory.ram_buffer@ == old(self).memory.ram_buffer@.drop_first().push(
                        ratio_permille_spec(used as i64, new_total as i64) as i64,
                    )
                })
                // networks
                &&& toggle_views(final(self).network.toggles@) == ensure_all(
                    toggle_views(old(self).network.toggles@),
                    net_views(inputs.networks@),
                )
                &&& buffer_views(final(self).network.down_buffers@) == apply_pushes(
                    buffer_views(old(self).network.down_buffers@),
                    rx_rows(
                        enabled_rows_spec(
                            toggle_views(old(self).network.toggles@),
                            net_views(inputs.networks@),
                        ),
                    ),
                    0u64,
                )
                &&& buffer_views(final(self).network.up_buffers@) == apply_pushes(
                    buffer_views(old(self).network.up_buffers@),
                    tx_rows(
                        enabled_rows_spec(
                            toggle_views(old(self).network.toggles@),
                            net_views(inputs.networks@),
                        ),
                    ),
                    0u64,
                )
                // disk busy time
                &&& buffer_views(final(self).disk.buffers@) == apply_pushes(
                    buffer_views(old(self).disk.buffers@),
                    reading_views(inputs.disk_readings@),
                    Milli::zero_spec(),
                )
                // processes
                &&& ({
                    let ca = aggregate_spec(clean_rows_spec(row_views(inputs.cpu_rows@)));
                    let ra = aggregate_spec(clean_rows_spec(row_views(inputs.ram_rows@)));
                    &&& final(self).procs.processes@.len() == if ca.len() <= ra.len() {
                        ca.len()
                    } else {
                        ra.len()
                    }
                    &&& forall|i: int|
                        0 <= i < final(self).procs.processes@.len() ==> {
                            &&& (#[trigger] final(self).procs.processes@[i]).name@ == ca[i].0
                            &&& final(self).procs.processes@[i].cpu.thousandths as int == ca[i].1
                            &&& final(self).procs.processes@[i].memory as int == ra[i].1
                            &&& final(self).procs.processes@[i].count as int == ca[i].2
                        }
                })
                // battery
                &&& battery_level_spec(tree) == 0 ==> final(self).battery == old(self).battery
                &&& battery_level_spec(tree) != 0 ==> {
                    &&& final(self).battery.enabled == true
                    &&& final(self).battery.change_buffer@ == old(self).battery.change_buffer@.drop_first().push(
                        Milli { thousandths: battery_charge_spec(tree) as i64 },
                    )
                    &&& inputs.now_millis > old(self).battery.level_next_update ==> final(self).battery.level_buffer@ == old(self).battery.level_buffer@.drop_first().push(
                        Milli { thousandths: battery_level_spec(tree) as i64 },
                    )
                    &&& !(inputs.now_millis > old(self).battery.level_next_update) ==> final(self).battery.level_buffer@ == old(self).battery.level_buffer@
                }
                // untouched domains and the snapshot itself
                &&& final(self).ping == old(self).ping
                &&& final(self).timing == old(self).timing
                &&& final(shared).latest_hardware_tree == old(shared).latest_hardware_tree
            }),
    {
        self.cpu.refresh_cpu(shared, inputs.global_cpu_usage);
        if inputs.gpu_present {
            self.gpu.refresh_gpu(shared, inputs.gpu_fallback);
        }
        self.memory.refresh_system_memory(shared);
        self.network.refresh_networks(&inputs.networks);
        self.disk.refresh_disk_io_time(&inputs.disk_readings);
        self.procs.refresh_processes(&inputs.cpu_rows, &inputs.ram_rows);
        self.battery.refresh_battery(&shared.latest_hardware_tree, inputs.now_millis);
    }
}

} // verus!
