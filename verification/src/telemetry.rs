//! The process-wide telemetry snapshot.
//!
//! Background pollers publish into one shared state: the latest
//! hardware tree (replaced wholesale on every poll, cleared on any
//! failure), the GPU's static limits (fetched once and cached), the
//! current and total RAM, and the largest CPU package power seen so
//! far.  The samplers read it under a lock that the surrounding
//! program provides; the state itself is plain data with exact update
//! contracts.

use vstd::prelude::*;
use crate::milli::Milli;
use crate::ohw::OHWNode;

verus! {

/// The GPU limits that are fetched once from the vendor library and
/// cached: board power limit in thousandths of a watt and maximum
/// graphics clock in thousandths of a megahertz.
#[derive(Debug, PartialEq, Eq, Structural, Clone, Copy)]
pub struct GpuStaticInfo {
    pub power_limit: Milli,
    pub max_clock: Milli,
}

/// The process-wide snapshot shared between the background pollers and
/// the render-tick samplers.
pub struct SharedTelemetryState {
    /// The sensor tree of the last successful poll, or `None` right
    /// after any fetch or parse failure — stale data is never kept.
    pub latest_hardware_tree: Option<OHWNode>,
    /// The GPU static limits, cached after the first fetch.
    pub gpu_static: Option<GpuStaticInfo>,
    /// RAM in use, in bytes.
    pub current_ram: i64,
    /// Total RAM in bytes, cached on the first nonzero observation.
    pub total_ram: i64,
    /// The largest CPU package power observed so far; never decreases.
    pub max_observed_cpu_power: Milli,
}

/// `s` with its hardware-tree snapshot replaced wholesale by `t`.
pub open spec fn with_tree(s: SharedTelemetryState, t: Option<OHWNode>) -> SharedTelemetryState {
    SharedTelemetryState { latest_hardware_tree: t, ..s }
}

impl SharedTelemetryState {
    /// The state before any poll: nothing fetched, nothing observed.
    pub fn new() -> (r: Self)
        ensures
            r.latest_hardware_tree is None,
            r.gpu_static is None,
            r.current_ram == 0,
            r.total_ram == 0,
            r.max_observed_cpu_power == Milli::zero_spec(),
    {
        SharedTelemetryState {
            latest_hardware_tree: None,
            gpu_static: None,
            current_ram: 0,
            total_ram: 0,
            max_observed_cpu_power: Milli::zero(),
        }
    }

    /// Publishes the outcome of one hardware-tree poll: the snapshot
    /// becomes exactly `fetched` — the new tree on success, absent on
    /// failure — regardless of what was held before.
    pub fn set_hardware_tree(&mut self, fetched: Option<OHWNode>)
        ensures
            *final(self) == with_tree(*old(self), fetched),
    {
        self.latest_hardware_tree = fetched;
    }

    /// Folds one CPU package power reading into the running maximum.
    pub fn observe_cpu_power(&mut self, power: Milli)
        ensures
            final(self).max_observed_cpu_power.thousandths == if power.thousandths > old(
                self,
            ).max_observed_cpu_power.thousandths {
                power.thousandths
            } else {
                old(self).max_observed_cpu_power.thousandths
            },
            final(self).max_observed_cpu_power.thousandths >= old(
                self,
            ).max_observed_cpu_power.thousandths,
            final(self).latest_hardware_tree == old(self).latest_hardware_tree,
            final(self).gpu_static == old(self).gpu_static,
            final(self).current_ram == old(self).current_ram,
            final(self).total_ram == old(self).total_ram,
    {
        if power.thousandths > self.max_observed_cpu_power.thousandths {
            self.max_observed_cpu_power = power;
        }
    }

    /// Records one memory observation: the current reading always
    /// replaces, while the total is cached on its first nonzero
    /// observation and held fixed afterwards, which rides out the
    /// startup race where the total transiently reads zero.
    pub fn observe_memory(&mut self, current: i64, total: i64)
        ensures
            final(self).current_ram == current,
            final(self).total_ram == if old(self).total_ram == 0 {
                total
            } else {
                old(self).total_ram
            },
            final(self).latest_hardware_tree == old(self).latest_hardware_tree,
            final(self).gpu_static == old(self).gpu_static,
            final(self).max_observed_cpu_power == old(self).max_observed_cpu_power,
    {
        self.current_ram = current;
        if self.total_ram == 0 {
            self.total_ram = total;
        }
    }

    /// The GPU static limits: the cached ones when present, otherwise
    /// `fallback` — which is then cached for every later tick.
    pub fn gpu_static_or_cache(&mut self, fallback: GpuStaticInfo) -> (r: GpuStaticInfo)
        ensures
            match old(self).gpu_static {
                Some(g) => r == g && *final(self) == *old(self),
                None => {
                    &&& r == fallback
                    &&& final(self).gpu_static == Some(fallback)
                    &&& final(self).latest_hardware_tree == old(self).latest_hardware_tree
                    &&& final(self).current_ram == old(self).current_ram
                    &&& final(self).total_ram == old(self).total_ram
                    &&& final(self).max_observed_cpu_power == old(self).max_observed_cpu_power
                },
            },
    {
        match self.gpu_static {
            Some(g) => g,
            None => {
                self.gpu_static = Some(fallback);
                fallback
            },
        }
    }
}

/// Stale-on-failure: however the polls started out, after two failed
/// fetches in a row the snapshot is absent — a failure never leaves a
/// previous tree in place.
pub proof fn lemma_stale_on_failure(s: SharedTelemetryState)
    ensures
        with_tree(with_tree(s, None), None).latest_hardware_tree is None,
{
}

} // verus!
