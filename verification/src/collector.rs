use vstd::prelude::*;

use crate::models::CpuTimes;
use crate::system::{compute_cpu_usage, usage_matches, CpuUsage};

verus! {

/// How one run of `vcgencmd` ended.
#[derive(Clone, Debug)]
pub enum CommandOutcome {
    /// The command ran; `stdout` is its output when that is UTF-8 text.
    Finished { success: bool, stdout: Option<String> },
    /// The command could not be started; `not_found` when no such program exists.
    SpawnFailed { not_found: bool },
    /// The command did not finish in time.
    TimedOut,
}

/// The decisions of the sampling loop that outlive one sample: where the
/// CPU temperature is read, whether `vcgencmd` is still worth running, and
/// the previous CPU counters.
#[derive(Debug)]
pub struct Collector<P> {
    cpu_temp_path: Option<P>,
    vcgencmd_available: bool,
    previous_cpu: Option<Vec<CpuTimes>>,
}

impl<P> Collector<P> {
    /// Where the CPU temperature is read, if anywhere.
    pub closed spec fn temp_path(&self) -> Option<P> {
        self.cpu_temp_path
    }

    /// Whether `vcgencmd` is still run.
    pub closed spec fn vcgencmd_on(&self) -> bool {
        self.vcgencmd_available
    }

    /// The CPU counters of the previous sample, if any.
    pub closed spec fn previous(&self) -> Option<Seq<CpuTimes>> {
        match self.previous_cpu {
            Some(v) => Some(v@),
            None => None,
        }
    }

    /// A collector that reads the CPU temperature at `cpu_temp_path`, has
    /// not given up on `vcgencmd`, and has no previous CPU counters.
    pub fn new(cpu_temp_path: Option<P>) -> (r: Self)
        ensures
            r.temp_path() == cpu_temp_path,
            r.vcgencmd_on(),
            r.previous() is None,
    {
        Collector { cpu_temp_path, vcgencmd_available: true, previous_cpu: None }
    }

    /// Where the CPU temperature is read, if anywhere.
    pub fn cpu_temp_path(&self) -> (r: Option<&P>)
        ensures
            r == match self.temp_path() {
                Some(p) => Some(&p),
                None => None::<&P>,
            },
    {
        match &self.cpu_temp_path {
            Some(p) => Some(p),
            None => None,
        }
    }

    /// Whether `vcgencmd` should be run.
    pub fn vcgencmd_enabled(&self) -> (r: bool)
        ensures
            r == self.vcgencmd_on(),
    {
        self.vcgencmd_available
    }

    /// Takes in how a run of `vcgencmd` ended and gives its output, if it
    /// succeeded with text. A program that was not found is not run again.
    pub fn record_vcgencmd(&mut self, outcome: CommandOutcome) -> (r: Option<String>)
        ensures
            r == match outcome {
                CommandOutcome::Finished { success, stdout } => if success {
                    stdout
                } else {
                    None
                },
                _ => None,
            },
            final(self).vcgencmd_on() == (old(self).vcgencmd_on() && !(outcome matches CommandOutcome::SpawnFailed { not_found } && not_found)),
            final(self).temp_path() == old(self).temp_path(),
            final(self).previous() == old(self).previous(),
    {
        match outcome {
            CommandOutcome::Finished { success, stdout } => {
                if success {
                    stdout
                } else {
                    None
                }
            },
            CommandOutcome::SpawnFailed { not_found } => {
                if not_found {
                    self.vcgencmd_available = false;
                }
                None
            },
            CommandOutcome::TimedOut => None,
        }
    }

    /// Takes in new CPU counters: gives the usage since the previous ones and
    /// keeps the new ones for next time.
    pub fn observe_cpu(&mut self, snapshot: Vec<CpuTimes>) -> (r: CpuUsage)
        ensures
            usage_matches(old(self).previous(), snapshot@, r.aggregate, r.per_core@),
            final(self).previous() == Some(snapshot@),
            final(self).vcgencmd_on() == old(self).vcgencmd_on(),
            final(self).temp_path() == old(self).temp_path(),
    {
        let usage = compute_cpu_usage(&self.previous_cpu, snapshot.as_slice());
        self.previous_cpu = Some(snapshot);
        usage
    }
}

} // verus!
