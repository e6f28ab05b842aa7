//! Per-tick timing diagnostics.
//!
//! When timing trace is enabled, every stage of the refresh pipeline
//! records how far into the frame it ran.  The entries go into their
//! own history buffer and can be printed as one number per line.

use vstd::prelude::*;
use crate::text::dec_digits;

verus! {

/// The stage of the refresh pipeline a timing entry belongs to.
#[derive(Debug, PartialEq, Eq, Structural, Clone, Copy, Default)]
pub enum CurrentStep {
    #[default]
    Idle,
    Begin,
    UpdateCPU,
    UpdateGPU,
    UpdateSystemDisk,
    UpdateSystemMemory,
    UpdateSystemNetwork,
    UpdateSystemProcess,
    UpdateIoTime,
    Update,
    CpuCrunch,
    CPU,
    CPUGraph,
    ProcCPU,
    ProcRAM,
    Ping,
    Network,
    GPU,
}

/// One timing entry: a pipeline stage and how many microseconds into
/// the frame it was reached.
#[derive(Debug, PartialEq, Eq, Structural, Clone, Copy, Default)]
pub struct TimingStep {
    pub step: CurrentStep,
    pub time_micros: u64,
}

/// Appends the elapsed microseconds and a newline to `text` when the
/// timing trace is on; leaves `text` alone otherwise.
pub fn timing_to_str(elapsed_micros: u64, text: &mut String, perf_trace: bool)
    ensures
        final(text)@ == if perf_trace {
            old(text)@ + dec_digits(elapsed_micros as nat) + "\n"@
        } else {
            old(text)@
        },
{
    if perf_trace {
        let digits = crate::text::u64_to_string(elapsed_micros);
        text.append(digits.as_str());
        text.append("\n");
    }
}

} // verus!
