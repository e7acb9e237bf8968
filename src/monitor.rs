use vstd::prelude::*;

verus! {

/// Number of status samples a monitoring run sends.
pub const MONITOR_SAMPLES: u32 = 10;

/// One simulated process-status sample.
#[derive(Clone, Copy, Debug, PartialEq, Eq)]
pub struct MonitorSample {
    pub id: u32,
    pub memory_usage: u32,
    /// CPU usage in tenths: the share is `cpu_tenths / 10`.
    pub cpu_tenths: u32,
}

/// The sample sent at step `count` of a monitoring run.
pub fn monitor_sample(count: u32) -> (s: MonitorSample)
    requires
        count < MONITOR_SAMPLES,
    ensures
        s.id == count,
        s.memory_usage == 100 + 10 * count,
        s.cpu_tenths == count % 10,
{
    MonitorSample { id: count, memory_usage: 100 + 10 * count, cpu_tenths: count % 10 }
}

/// Whether a run that has sent `sent` samples is over.
pub fn monitor_done(sent: u32) -> (r: bool)
    ensures
        r == (sent >= MONITOR_SAMPLES),
{
    sent >= MONITOR_SAMPLES
}

} // verus!
