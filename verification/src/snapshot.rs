//! Resource usage of one process at one reading.

use crate::sample::{Pid, ProcessSample};
use vstd::prelude::*;

verus! {

/// Usage of one process at one sampling instant. It never changes once made.
#[derive(Debug, Clone, Copy)]
pub struct Snapshot {
    pid: Pid,
    cpu: u32,
    mem: u64,
}

impl Snapshot {
    /// The snapshot that holds exactly these values.
    pub closed spec fn of(pid: Pid, cpu: u32, mem: u64) -> Snapshot {
        Snapshot { pid, cpu, mem }
    }

    /// Identity of the process.
    pub closed spec fn spec_pid(&self) -> Pid {
        self.pid
    }

    /// CPU usage in hundredths of a percentage point.
    pub closed spec fn spec_cpu(&self) -> u32 {
        self.cpu
    }

    /// Resident memory in bytes.
    pub closed spec fn spec_mem(&self) -> u64 {
        self.mem
    }

    /// A snapshot is determined by its three values.
    pub proof fn lemma_of(self)
        ensures
            self == Snapshot::of(self.pid(), self.cpu(), self.mem()),
    {
    }

    /// The values of `Snapshot::of` are those it was given.
    pub proof fn lemma_of_fields(pid: Pid, cpu: u32, mem: u64)
        ensures
            Snapshot::of(pid, cpu, mem).pid() == pid,
            Snapshot::of(pid, cpu, mem).cpu() == cpu,
            Snapshot::of(pid, cpu, mem).mem() == mem,
    {
    }

    /// Takes the CPU usage and memory of `process` as they are now.
    pub fn new(pid: Pid, process: &ProcessSample) -> (s: Self)
        ensures
            s == Snapshot::of(pid, process.cpu, process.mem),
            s.pid() == pid,
            s.cpu() == process.cpu,
            s.mem() == process.mem,
    {
        Snapshot { pid, cpu: process.cpu, mem: process.mem }
    }

    /// Identity of the process.
    #[verifier::when_used_as_spec(spec_pid)]
    pub fn pid(&self) -> (pid: Pid)
        ensures
            pid == self.spec_pid(),
    {
        self.pid
    }

    /// CPU usage in hundredths of a percentage point.
    #[verifier::when_used_as_spec(spec_cpu)]
    pub fn cpu(&self) -> (cpu: u32)
        ensures
            cpu == self.spec_cpu(),
    {
        self.cpu
    }

    /// Resident memory in bytes.
    #[verifier::when_used_as_spec(spec_mem)]
    pub fn mem(&self) -> (mem: u64)
        ensures
            mem == self.spec_mem(),
    {
        self.mem
    }
}

} // verus!
