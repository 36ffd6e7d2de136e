//! Per-process data: one row per live process, and the per-process
//! history windows used for charting.

use vstd::prelude::*;
use std::collections::VecDeque;
use crate::types::MAX_LEN;

verus! {

/// One row of the process table, as delivered by the snapshot provider.
///
/// CPU load is held in tenths of a percent, memory and the disk counters in
/// bytes. A field the provider could not fill is `None`; every consumer has
/// a defined behaviour for absence.
pub struct ProcessInfo {
    pub pid: u64,
    pub name: String,
    /// CPU load in tenths of a percent, normalized by physical core count.
    pub cpu: Option<u64>,
    /// Resident memory in bytes.
    pub mem_mb: Option<u64>,
    pub read_bytes: Option<u64>,
    pub write_bytes: Option<u64>,
    pub total_read: Option<u64>,
    pub total_written: Option<u64>,
    pub user: Option<String>,
}

/// The rolling history windows of one process, one per numeric metric.
pub struct ProcessInfoHistory {
    pub cpu: VecDeque<u64>,
    pub mem_mb: VecDeque<u64>,
    pub read_bytes: VecDeque<u64>,
    pub write_bytes: VecDeque<u64>,
    pub total_read: VecDeque<u64>,
    pub total_written: VecDeque<u64>,
}

impl ProcessInfoHistory {
    /// Every window holds at most `MAX_LEN` samples.
    pub open spec fn wf(self) -> bool {
        &&& self.cpu@.len() <= MAX_LEN
        &&& self.mem_mb@.len() <= MAX_LEN
        &&& self.read_bytes@.len() <= MAX_LEN
        &&& self.write_bytes@.len() <= MAX_LEN
        &&& self.total_read@.len() <= MAX_LEN
        &&& self.total_written@.len() <= MAX_LEN
    }

    /// All six windows are empty.
    pub open spec fn is_empty(self) -> bool {
        &&& self.cpu@ == Seq::<u64>::empty()
        &&& self.mem_mb@ == Seq::<u64>::empty()
        &&& self.read_bytes@ == Seq::<u64>::empty()
        &&& self.write_bytes@ == Seq::<u64>::empty()
        &&& self.total_read@ == Seq::<u64>::empty()
        &&& self.total_written@ == Seq::<u64>::empty()
    }
}

impl Default for ProcessInfoHistory {
    /// A history record with all windows empty.
    fn default() -> (r: Self)
        ensures
            r.is_empty(),
            r.wf(),
    {
        ProcessInfoHistory {
            cpu: VecDeque::new(),
            mem_mb: VecDeque::new(),
            read_bytes: VecDeque::new(),
            write_bytes: VecDeque::new(),
            total_read: VecDeque::new(),
            total_written: VecDeque::new(),
        }
    }
}

} // verus!
