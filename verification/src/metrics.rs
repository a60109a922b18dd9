//! Per-process resource samples: the record written to the key-value
//! store and the arithmetic of one sampling tick.

use vstd::prelude::*;

verus! {

/// A per-process resource sample.  Processor use is stored in permille of
/// one core (the fraction of the sampling interval spent on CPU, times a
/// thousand); memory is resident bytes.
#[derive(Debug)]
pub struct ProcessMetrics {
    pub name: String,
    pub cpu_permille: u64,
    pub memory_usage: u64,
}

/// The mathematical value of a sample.
#[verifier::ext_equal]
pub ghost struct ProcessMetricsV {
    pub name: Seq<char>,
    pub cpu_permille: u64,
    pub memory_usage: u64,
}

impl View for ProcessMetrics {
    type V = ProcessMetricsV;

    open spec fn view(&self) -> ProcessMetricsV {
        ProcessMetricsV {
            name: self.name@,
            cpu_permille: self.cpu_permille,
            memory_usage: self.memory_usage,
        }
    }
}

/// The sampler's persistent state: the process name, the tick length, and
/// the processor time seen at the previous tick.
pub struct MetricsSampler {
    pub name: String,
    pub interval_ms: u64,
    pub prev_cpu_ms: u64,
}

/// The processor-use fraction of one tick, in permille: the processor
/// milliseconds spent over the interval milliseconds.  A zero interval
/// yields zero rather than dividing by it, and a clock that went backwards
/// counts as no use.
pub open spec fn spec_cpu_permille(prev_cpu_ms: int, curr_cpu_ms: int, interval_ms: int) -> int {
    if interval_ms <= 0 {
        0
    } else if curr_cpu_ms < prev_cpu_ms {
        0
    } else {
        (curr_cpu_ms - prev_cpu_ms) * 1000 / interval_ms
    }
}

impl MetricsSampler {
    /// A sampler that ticks every ten seconds, as the processes do.
    pub fn new(name: String) -> (s: Self)
        ensures
            s.name@ == name@,
            s.interval_ms == 10000,
            s.prev_cpu_ms == 0,
    {
        MetricsSampler { name, interval_ms: 10000, prev_cpu_ms: 0 }
    }

    /// One sampling tick: turns the current processor-seconds total and
    /// resident memory into a record, and remembers the processor time for
    /// the next tick.  Safe when the interval is zero.
    pub fn update(&mut self, curr_cpu_ms: u64, memory_usage: u64) -> (r: ProcessMetrics)
        ensures
            r.name@ == old(self).name@,
            r.memory_usage == memory_usage,
            r.cpu_permille as int == ({
                let p = spec_cpu_permille(
                    old(self).prev_cpu_ms as int,
                    curr_cpu_ms as int,
                    old(self).interval_ms as int,
                );
                if p <= u64::MAX {
                    p
                } else {
                    u64::MAX as int
                }
            }),
            final(self).prev_cpu_ms == curr_cpu_ms,
            final(self).name@ == old(self).name@,
            final(self).interval_ms == old(self).interval_ms,
    {
        let cpu_permille: u64 = if self.interval_ms == 0 {
            0
        } else if curr_cpu_ms < self.prev_cpu_ms {
            0
        } else {
            let delta = curr_cpu_ms - self.prev_cpu_ms;
            let q = (delta as u128) * 1000 / (self.interval_ms as u128);
            proof {
                assert((delta as int) * 1000 / (self.interval_ms as int) >= 0)
                    by (nonlinear_arith)
                    requires
                        0 <= delta,
                        self.interval_ms >= 1,
                ;
            }
            if q > u64::MAX as u128 {
                u64::MAX
            } else {
                q as u64
            }
        };
        let name = self.name.clone();
        self.prev_cpu_ms = curr_cpu_ms;
        ProcessMetrics { name, cpu_permille, memory_usage }
    }
}

} // verus!
