//! The system-metrics panel's state: every reading starts at zero, and a
//! failed reading leaves the previous value in place.

use vstd::prelude::*;

verus! {

/// One round of GPU readings; `None` where the query failed.
#[derive(Debug, Clone, Copy, PartialEq, Eq, Structural)]
pub struct GpuReading {
    pub mem_percent: Option<u64>,
    pub temperature: Option<u32>,
    pub utilization: Option<u32>,
}

/// The values the system-metrics panel shows.
#[derive(Debug)]
pub struct SystemMetrics {
    pub cpu_load: u64,
    pub cpu_temp: u64,
    pub mem_percent: u64,
    pub swap_percent: u64,
    pub gpu_mem_usage: u64,
    pub gpu_temp: u64,
    pub gpu_util: u64,
    pub kernel_version: String,
}

/// `prev` replaced by a successful reading.
pub open spec fn refreshed(prev: u64, reading: Option<u64>) -> u64 {
    match reading {
        Some(v) => v,
        None => prev,
    }
}

impl SystemMetrics {
    pub fn new() -> (r: SystemMetrics)
        ensures
            r.cpu_load == 0 && r.cpu_temp == 0 && r.mem_percent == 0 && r.swap_percent == 0,
            r.gpu_mem_usage == 0 && r.gpu_temp == 0 && r.gpu_util == 0,
            r.kernel_version@.len() == 0,
    {
        SystemMetrics {
            cpu_load: 0,
            cpu_temp: 0,
            mem_percent: 0,
            swap_percent: 0,
            gpu_mem_usage: 0,
            gpu_temp: 0,
            gpu_util: 0,
            kernel_version: String::new(),
        }
    }

    /// Takes one round of GPU readings: each successful one replaces its
    /// value, each failed one leaves it as it was.
    pub fn set_gpu_usage(&mut self, reading: GpuReading)
        ensures
            final(self).gpu_mem_usage == refreshed(old(self).gpu_mem_usage, reading.mem_percent),
            final(self).gpu_temp == refreshed(
                old(self).gpu_temp,
                match reading.temperature {
                    Some(t) => Some(t as u64),
                    None => None,
                },
            ),
            final(self).gpu_util == refreshed(
                old(self).gpu_util,
                match reading.utilization {
                    Some(u) => Some(u as u64),
                    None => None,
                },
            ),
            final(self).cpu_load == old(self).cpu_load,
            final(self).cpu_temp == old(self).cpu_temp,
            final(self).mem_percent == old(self).mem_percent,
            final(self).swap_percent == old(self).swap_percent,
            final(self).kernel_version@ == old(self).kernel_version@,
    {
        if let Some(m) = reading.mem_percent {
            self.gpu_mem_usage = m;
        }
        if let Some(t) = reading.temperature {
            self.gpu_temp = t as u64;
        }
        if let Some(u) = reading.utilization {
            self.gpu_util = u as u64;
        }
    }

    /// Takes the kernel version query's result: a failed query leaves the
    /// previous value.
    pub fn set_kernel_version(&mut self, version: Option<String>)
        ensures
            final(self).kernel_version@ == match version {
                Some(v) => v@,
                None => old(self).kernel_version@,
            },
            final(self).cpu_load == old(self).cpu_load,
            final(self).cpu_temp == old(self).cpu_temp,
            final(self).mem_percent == old(self).mem_percent,
            final(self).swap_percent == old(self).swap_percent,
            final(self).gpu_mem_usage == old(self).gpu_mem_usage,
            final(self).gpu_temp == old(self).gpu_temp,
            final(self).gpu_util == old(self).gpu_util,
    {
        if let Some(v) = version {
            self.kernel_version = v;
        }
    }
}

} // verus!
