//! Global hardware state: per-core CPU usage, RAM figures, and the disks.

use vstd::prelude::*;
use vstd::arithmetic::div_mod::{lemma_div_is_ordered, lemma_div_multiples_vanish};

verus! {

/// Usage of one CPU core, in tenths of a percent; `None` if unavailable.
pub struct CpuInfo {
    pub name: String,
    pub usage: Option<u64>,
}

/// One disk, all fields optional: absence renders as a placeholder.
pub struct DiskInfo {
    pub name: Option<String>,
    pub mount_point: Option<String>,
    pub total_space: Option<u64>,
    pub available_space: Option<u64>,
}

/// Per-tick hardware snapshot, as delivered by the snapshot provider.
/// RAM figures are in bytes.
pub struct GeneralInfo {
    pub ram_total_memory: Option<u64>,
    pub ram_available_memory: Option<u64>,
    pub ram_used_memor: Option<u64>,
    pub cpu_usage_tab: Vec<CpuInfo>,
    pub disk_tab: Vec<DiskInfo>,
}

/// Sum of the core usages that are present.
pub open spec fn usage_total(tab: Seq<CpuInfo>) -> int
    decreases tab.len(),
{
    if tab.len() == 0 {
        0
    } else {
        usage_total(tab.drop_last()) + (match tab.last().usage {
            Some(u) => u as int,
            None => 0,
        })
    }
}

/// How many cores report a usage.
pub open spec fn usage_count(tab: Seq<CpuInfo>) -> int
    decreases tab.len(),
{
    if tab.len() == 0 {
        0
    } else {
        usage_count(tab.drop_last()) + (match tab.last().usage {
            Some(u) => 1int,
            None => 0,
        })
    }
}

/// The arithmetic mean of the core usages that are present; cores without a
/// usage count neither in the numerator nor the denominator. Zero when no
/// core reports a usage.
pub open spec fn avg_cpu(tab: Seq<CpuInfo>) -> int {
    if usage_count(tab) == 0 {
        0
    } else {
        usage_total(tab) / usage_count(tab)
    }
}

proof fn lemma_usage_total_bounds(tab: Seq<CpuInfo>)
    ensures
        0 <= usage_count(tab) <= tab.len(),
        0 <= usage_total(tab) <= usage_count(tab) * 0xffff_ffff_ffff_ffff,
    decreases tab.len(),
{
    if tab.len() > 0 {
        lemma_usage_total_bounds(tab.drop_last());
    }
}

impl GeneralInfo {
    /// The system-wide average CPU usage, in tenths of a percent: the mean
    /// of the per-core usages that are present, zero when none is.
    pub fn get_avg_cpu_usage(&self) -> (r: u64)
        ensures
            r as int == avg_cpu(self.cpu_usage_tab@),
    {
        let tab = &self.cpu_usage_tab;
        let ghost full = tab@;
        let mut sum: u128 = 0;
        let mut count: u64 = 0;
        let mut i: usize = 0;
        while i < tab.len()
            invariant
                i <= tab.len(),
                tab@ == full,
                count as int == usage_count(full.subrange(0, i as int)),
                sum as int == usage_total(full.subrange(0, i as int)),
                count <= i,
            decreases tab.len() - i,
        {
            let ghost prefix = full.subrange(0, i as int);
            proof {
                lemma_usage_total_bounds(prefix);
                assert(full.subrange(0, i + 1).drop_last() =~= prefix);
            }
            match tab[i].usage {
                Some(u) => {
                    sum = sum + u as u128;
                    count = count + 1;
                },
                None => {},
            }
            i = i + 1;
        }
        proof {
            assert(full.subrange(0, tab@.len() as int) =~= full);
            lemma_usage_total_bounds(full);
        }
        if count > 0 {
            let avg: u128 = sum / (count as u128);
            proof {
                lemma_div_is_ordered(
                    sum as int,
                    count as int * 0xffff_ffff_ffff_ffff,
                    count as int,
                );
                lemma_div_multiples_vanish(0xffff_ffff_ffff_ffff, count as int);
            }
            avg as u64
        } else {
            0
        }
    }
}

} // verus!
