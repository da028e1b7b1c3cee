//! Link health: advice for stage reconfiguration from link metrics.

use vstd::prelude::*;

verus! {

/// Link and host metrics, in integer units.
#[derive(Debug, Clone, Copy, PartialEq, Eq, Structural)]
pub struct SystemMetrics {
    /// Packet loss, in thousandths.
    pub packet_loss_permille: u32,
    pub latency_ms: u64,
    pub cpu_percent: u32,
    pub memory_mb: u64,
    /// Bandwidth, in kilobits per second.
    pub bandwidth_kbps: u64,
}

/// Advice for the pipeline's stages.
#[derive(Debug, Clone)]
pub struct HomeostasisAdvice {
    /// New send rate, in percent of the current one.
    pub adjust_rate_percent: Option<u32>,
    /// New FEC `(k, m)`.
    pub adjust_fec: Option<(u32, u32)>,
    /// Compressor to prefer, by name.
    pub adjust_codec: Option<String>,
}

pub const LOSS_THRESHOLD_PERMILLE: u32 = 100;

pub const LOW_BANDWIDTH_KBPS: u64 = 1000;

pub const DEFAULT_TARGET_LATENCY_MS: u64 = 100;

pub const REDUCED_RATE_PERCENT: u32 = 80;

pub const FAST_CODEC: &'static str = "LZ4";

/// Loss above ten percent.
pub open spec fn lossy(m: SystemMetrics) -> bool {
    m.packet_loss_permille > LOSS_THRESHOLD_PERMILLE
}

/// Bandwidth below one megabit per second.
pub open spec fn narrow(m: SystemMetrics) -> bool {
    m.bandwidth_kbps < LOW_BANDWIDTH_KBPS
}

/// Latency above one and a half times the target.
pub open spec fn slow(m: SystemMetrics, target_ms: u64) -> bool {
    2 * m.latency_ms > 3 * target_ms
}

pub struct LinkHealthController {
    metrics: SystemMetrics,
    target_latency_ms: u64,
}

impl LinkHealthController {
    pub closed spec fn current(&self) -> SystemMetrics {
        self.metrics
    }

    pub closed spec fn target(&self) -> u64 {
        self.target_latency_ms
    }

    /// All metrics zero; a latency target of 100 ms.
    pub fn new() -> (r: Self)
        ensures
            r.current() == (SystemMetrics {
                packet_loss_permille: 0,
                latency_ms: 0,
                cpu_percent: 0,
                memory_mb: 0,
                bandwidth_kbps: 0,
            }),
            r.target() == DEFAULT_TARGET_LATENCY_MS,
    {
        LinkHealthController {
            metrics: SystemMetrics {
                packet_loss_permille: 0,
                latency_ms: 0,
                cpu_percent: 0,
                memory_mb: 0,
                bandwidth_kbps: 0,
            },
            target_latency_ms: DEFAULT_TARGET_LATENCY_MS,
        }
    }

    pub fn set_target_latency(&mut self, target_ms: u64)
        ensures
            final(self).target() == target_ms,
            final(self).current() == old(self).current(),
    {
        self.target_latency_ms = target_ms;
    }

    pub fn update_metrics(&mut self, metrics: SystemMetrics)
        ensures
            final(self).current() == metrics,
            final(self).target() == old(self).target(),
    {
        self.metrics = metrics;
    }

    /// Loss above 10% asks for FEC (4, 2); bandwidth below 1 Mbps asks for
    /// the fast compressor; latency above 1.5 times the target asks for 80%
    /// of the send rate and the fast compressor.
    pub fn advise(&self) -> (r: HomeostasisAdvice)
        ensures
            r.adjust_fec == if lossy(self.current()) {
                Some((4u32, 2u32))
            } else {
                None::<(u32, u32)>
            },
            r.adjust_rate_percent == if slow(self.current(), self.target()) {
                Some(REDUCED_RATE_PERCENT)
            } else {
                None::<u32>
            },
            match r.adjust_codec {
                Some(c) => (narrow(self.current()) || slow(self.current(), self.target())) && c@
                    == FAST_CODEC@,
                None => !narrow(self.current()) && !slow(self.current(), self.target()),
            },
    {
        let m = self.metrics;
        let slow_link = (2 * (m.latency_ms as u128)) > (3 * (self.target_latency_ms as u128));
        let adjust_fec = if m.packet_loss_permille > LOSS_THRESHOLD_PERMILLE {
            Some((4u32, 2u32))
        } else {
            None
        };
        let adjust_rate_percent = if slow_link {
            Some(REDUCED_RATE_PERCENT)
        } else {
            None
        };
        let adjust_codec = if m.bandwidth_kbps < LOW_BANDWIDTH_KBPS || slow_link {
            Some(FAST_CODEC.to_string())
        } else {
            None
        };
        HomeostasisAdvice { adjust_rate_percent, adjust_fec, adjust_codec }
    }
}

} // verus!
