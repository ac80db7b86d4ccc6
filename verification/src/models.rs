use vstd::prelude::*;

verus! {

/// Cumulative CPU counters of one `/proc/stat` line, in jiffies.
#[derive(Clone, Copy, Debug, PartialEq, Eq, Structural)]
pub struct CpuTimes {
    pub idle: u64,
    pub total: u64,
}

impl Default for CpuTimes {
    fn default() -> (r: Self)
        ensures
            r.idle == 0 && r.total == 0,
    {
        CpuTimes { idle: 0, total: 0 }
    }
}

/// Memory usage, in bytes.
#[derive(Clone, Copy, Debug, PartialEq, Eq, Structural)]
pub struct MemInfo {
    pub total_bytes: u64,
    pub used_bytes: u64,
    pub buffers_bytes: u64,
    pub cached_bytes: u64,
    pub shared_bytes: u64,
    pub swap_total_bytes: u64,
    pub swap_used_bytes: u64,
}

/// Filesystem usage, in bytes.
#[derive(Clone, Copy, Debug, PartialEq, Eq, Structural)]
pub struct DiskInfo {
    pub total_bytes: u64,
    pub used_bytes: u64,
}

/// The conditions that `vcgencmd get_throttled` reports, now and since boot.
#[derive(Clone, Copy, Debug, PartialEq, Eq, Structural)]
pub struct ThrottleFlags {
    pub under_voltage_now: bool,
    pub freq_capped_now: bool,
    pub throttled_now: bool,
    pub soft_temp_limit_now: bool,
    pub under_voltage_past: bool,
    pub freq_capped_past: bool,
    pub throttled_past: bool,
    pub soft_temp_limit_past: bool,
}

impl ThrottleFlags {
    /// No condition set.
    pub open spec fn none() -> ThrottleFlags {
        ThrottleFlags {
            under_voltage_now: false,
            freq_capped_now: false,
            throttled_now: false,
            soft_temp_limit_now: false,
            under_voltage_past: false,
            freq_capped_past: false,
            throttled_past: false,
            soft_temp_limit_past: false,
        }
    }
}

impl Default for ThrottleFlags {
    fn default() -> (r: Self)
        ensures
            r == ThrottleFlags::none(),
    {
        ThrottleFlags {
            under_voltage_now: false,
            freq_capped_now: false,
            throttled_now: false,
            soft_temp_limit_now: false,
            under_voltage_past: false,
            freq_capped_past: false,
            throttled_past: false,
            soft_temp_limit_past: false,
        }
    }
}

/// The answer of the health endpoint.
#[derive(Clone, Debug)]
pub struct HealthResponse {
    pub status: &'static str,
    pub process_uptime_seconds: u64,
    pub last_sample_timestamp_unix_ms: u64,
    pub sample_errors: u64,
    pub request_count: u64,
}

impl HealthResponse {
    /// The answer of a running server: status `ok` with the given figures.
    pub fn ok(
        process_uptime_seconds: u64,
        last_sample_timestamp_unix_ms: u64,
        sample_errors: u64,
        request_count: u64,
    ) -> (r: Self)
        ensures
            r.status@ == "ok"@,
            r.process_uptime_seconds == process_uptime_seconds,
            r.last_sample_timestamp_unix_ms == last_sample_timestamp_unix_ms,
            r.sample_errors == sample_errors,
            r.request_count == request_count,
    {
        HealthResponse {
            status: "ok",
            process_uptime_seconds,
            last_sample_timestamp_unix_ms,
            sample_errors,
            request_count,
        }
    }
}

/// Traffic counters of one network interface from `/proc/net/dev`.
#[derive(Clone, Debug)]
pub struct NetworkInterface {
    pub name: String,
    pub rx_bytes: u64,
    pub tx_bytes: u64,
    pub rx_packets: u64,
    pub tx_packets: u64,
}

impl View for NetworkInterface {
    /// Name, received bytes, sent bytes, received packets, sent packets.
    type V = (Seq<char>, u64, u64, u64, u64);

    open spec fn view(&self) -> Self::V {
        (self.name@, self.rx_bytes, self.tx_bytes, self.rx_packets, self.tx_packets)
    }
}

/// CPU time that one process has used so far, in jiffies.
#[derive(Clone, Copy, Debug, PartialEq, Eq, Structural)]
pub struct ProcessCpuTimes {
    pub pid: u32,
    pub total_jiffies: u64,
}

/// One process as the process list shows it. `cpu_jiffies` is the CPU time
/// used since the previous reading (0 for a process not seen before); the
/// share of one CPU is that amount over the clock-tick rate.
#[derive(Clone, Debug)]
pub struct ProcessInfo {
    pub pid: u32,
    pub name: String,
    pub cpu_jiffies: u64,
    pub mem_bytes: u64,
    pub state: char,
}

impl View for ProcessInfo {
    /// Pid, name, CPU jiffies since the previous reading, resident bytes, state.
    type V = (u32, Seq<char>, u64, u64, char);

    open spec fn view(&self) -> Self::V {
        (self.pid, self.name@, self.cpu_jiffies, self.mem_bytes, self.state)
    }
}

} // verus!
