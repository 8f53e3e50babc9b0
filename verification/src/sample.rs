//! Plain-value readings of the host's process table.

use std::collections::HashMap;
use vstd::prelude::*;

verus! {

/// Identity of a process. It is stable while the process lives.
pub type Pid = u32;

/// Number of fixed-point units in one percentage point.
pub const CPU_SCALE: u32 = 100;

/// What one reading says about one process.
#[derive(Debug, Clone)]
pub struct ProcessSample {
    /// Display name of the process.
    pub name: String,
    /// CPU usage in hundredths of a percentage point.
    pub cpu: u32,
    /// Resident memory in bytes.
    pub mem: u64,
}

/// One reading of the whole process table, taken at a single instant.
#[derive(Debug)]
pub struct SystemSample {
    /// Aggregate CPU usage in hundredths of a percentage point.
    pub cpu_total: u32,
    /// The processes that were alive at the reading, by identity.
    pub processes: HashMap<Pid, ProcessSample>,
}

impl ProcessSample {
    /// A record with the given name, CPU usage and memory.
    pub fn new(name: String, cpu: u32, mem: u64) -> (p: Self)
        ensures
            p.name == name,
            p.cpu == cpu,
            p.mem == mem,
    {
        ProcessSample { name, cpu, mem }
    }
}

impl SystemSample {
    /// A reading with the given aggregate CPU usage and no processes yet.
    pub fn new(cpu_total: u32) -> (s: Self)
        ensures
            s.cpu_total == cpu_total,
            s.processes@ == Map::<Pid, ProcessSample>::empty(),
    {
        SystemSample { cpu_total, processes: HashMap::new() }
    }

    /// Records `process` under `pid`, replacing what was recorded for it.
    pub fn insert(&mut self, pid: Pid, process: ProcessSample)
        ensures
            final(self).cpu_total == old(self).cpu_total,
            final(self).processes@ == old(self).processes@.insert(pid, process),
    {
        broadcast use vstd::std_specs::hash::group_hash_axioms;

        self.processes.insert(pid, process);
    }

    /// The record of `pid`, if the process was alive at the reading.
    pub fn process(&self, pid: Pid) -> (r: Option<&ProcessSample>)
        ensures
            r.is_some() == self.processes@.dom().contains(pid),
            r matches Some(p) ==> *p == self.processes@[pid],
    {
        broadcast use vstd::std_specs::hash::group_hash_axioms;

        self.processes.get(&pid)
    }
}

} // verus!
