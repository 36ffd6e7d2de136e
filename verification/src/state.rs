//! The engine state: current rows, sort spec, selection, pause flag, the
//! per-process history store, and the tick that folds a fresh snapshot in.

use vstd::prelude::*;
use vstd::relations::sorted_by;
use vstd::hash_map::HashMapWithView;
use std::collections::VecDeque;
use crate::bounded::{push_bounded, push_bounded_spec};
use crate::process::{ProcessInfo, ProcessInfoHistory};
use crate::system::{GeneralInfo, avg_cpu};
use crate::sort::{sort_rows, sort_leq, tie_pred};
use crate::types::{ProcessName, MAX_LEN};
use crate::widths::{constraint_len_calculator, col_constraint};

verus! {

/// A command from the input dispatcher: one engine mutation each.
pub enum Command {
    Quit,
    SortDescending,
    SortAscending,
    NextRow,
    PreviousRow,
    SortKeyPrev,
    SortKeyNext,
    NextColumn,
    PreviousColumn,
    PlotCpu,
    SelectCell,
    TogglePause,
}

/// No two rows carry the same process id.
pub open spec fn distinct_pids(s: Seq<ProcessInfo>) -> bool {
    forall|i: int, j: int| 0 <= i < j < s.len() ==> s[i].pid != s[j].pid
}

/// Whether some row carries this process id.
pub open spec fn has_pid(s: Seq<ProcessInfo>, pid: u64) -> bool {
    exists|i: int| 0 <= i < s.len() && s[i].pid == pid
}

/// One tick's sample was appended to each of a record's six windows, the
/// absent fields recorded as zero.
pub open spec fn records_row(
    new_h: ProcessInfoHistory,
    old_h: ProcessInfoHistory,
    r: ProcessInfo,
) -> bool {
    &&& new_h.cpu@ == push_bounded_spec(old_h.cpu@, r.cpu.unwrap_or(0u64))
    &&& new_h.mem_mb@ == push_bounded_spec(old_h.mem_mb@, r.mem_mb.unwrap_or(0u64))
    &&& new_h.read_bytes@ == push_bounded_spec(old_h.read_bytes@, r.read_bytes.unwrap_or(0u64))
    &&& new_h.write_bytes@ == push_bounded_spec(old_h.write_bytes@, r.write_bytes.unwrap_or(0u64))
    &&& new_h.total_read@ == push_bounded_spec(old_h.total_read@, r.total_read.unwrap_or(0u64))
    &&& new_h.total_written@ == push_bounded_spec(
        old_h.total_written@,
        r.total_written.unwrap_or(0u64),
    )
}

/// A record freshly created for a first-seen process holds exactly one
/// sample per window.
pub open spec fn starts_row(new_h: ProcessInfoHistory, r: ProcessInfo) -> bool {
    &&& new_h.cpu@ == seq![r.cpu.unwrap_or(0u64)]
    &&& new_h.mem_mb@ == seq![r.mem_mb.unwrap_or(0u64)]
    &&& new_h.read_bytes@ == seq![r.read_bytes.unwrap_or(0u64)]
    &&& new_h.write_bytes@ == seq![r.write_bytes.unwrap_or(0u64)]
    &&& new_h.total_read@ == seq![r.total_read.unwrap_or(0u64)]
    &&& new_h.total_written@ == seq![r.total_written.unwrap_or(0u64)]
}

/// Every record of the history store respects the window cap.
pub open spec fn store_wf(m: Map<u64, ProcessInfoHistory>) -> bool {
    forall|p: u64| #[trigger] m.contains_key(p) ==> m[p].wf()
}

/// The divisor for CPU normalization: the physical core count, or one
/// when the count is unknown or reported as zero.
pub open spec fn cpu_divisor(core_count: Option<u64>) -> int {
    match core_count {
        Some(n) => if n == 0 {
            1
        } else {
            n as int
        },
        None => 1,
    }
}

/// A row with its CPU usage divided by the core count.
pub open spec fn normalized_row(r: ProcessInfo, core_count: Option<u64>) -> ProcessInfo {
    ProcessInfo {
        cpu: match r.cpu {
            Some(v) => Some((v as int / cpu_divisor(core_count)) as u64),
            None => None,
        },
        ..r
    }
}

/// Every row with its CPU usage normalized by the core count.
pub open spec fn normalize_rows_spec(s: Seq<ProcessInfo>, core_count: Option<u64>) -> Seq<
    ProcessInfo,
> {
    s.map_values(|r: ProcessInfo| normalized_row(r, core_count))
}

/// Divide every row's CPU usage by the physical core count; an unknown or
/// zero count divides by one.
pub fn normalize_rows(rows: &mut Vec<ProcessInfo>, core_count: Option<u64>)
    ensures
        final(rows)@ == normalize_rows_spec(old(rows)@, core_count),
{
    let d: u64 = match core_count {
        Some(n) => if n == 0 {
            1
        } else {
            n
        },
        None => 1,
    };
    let mut i: usize = 0;
    while i < rows.len()
        invariant
            i <= rows@.len(),
            rows@.len() == old(rows)@.len(),
            d as int == cpu_divisor(core_count),
            forall|k: int| 0 <= k < i ==> rows@[k] == normalized_row(old(rows)@[k], core_count),
            forall|k: int| i <= k < rows@.len() ==> rows@[k] == old(rows)@[k],
        decreases rows@.len() - i,
    {
        let ghost before = rows@;
        let mut r = rows.remove(i);
        r.cpu = match r.cpu {
            Some(v) => Some(v / d),
            None => None,
        };
        rows.insert(i, r);
        proof {
            assert(rows@ =~= before.update(i as int, rows@[i as int]));
        }
        i = i + 1;
    }
    proof {
        assert(rows@ =~= normalize_rows_spec(old(rows)@, core_count));
    }
}

/// A permutation of rows with pairwise distinct process ids again has
/// pairwise distinct process ids.
pub proof fn lemma_distinct_pids_permutation(a: Seq<ProcessInfo>, b: Seq<ProcessInfo>)
    requires
        a.to_multiset() == b.to_multiset(),
        distinct_pids(a),
    ensures
        distinct_pids(b),
{
    broadcast use vstd::seq_lib::group_to_multiset_ensures;
    broadcast use vstd::multiset::group_multiset_axioms;

    assert forall|i: int, j: int| 0 <= i < j < b.len() implies b[i].pid != b[j].pid by {
        if b[i].pid == b[j].pid {
            if b[i] == b[j] {
                let b1 = b.remove(j);
                assert(b1[i] == b[i]);
                assert(b1.contains(b[i]));
                assert(b1.to_multiset() == b.to_multiset().remove(b[j]));
                assert(b1.to_multiset().count(b[i]) > 0);
                assert(b.to_multiset().remove(b[j]).count(b[i]) == b.to_multiset().count(b[i])
                    - 1);
                assert(a.to_multiset().count(b[i]) >= 2);
                crate::sort::lemma_count_two_indices(a, b[i]);
                let (m, n): (int, int) = choose|m: int, n: int|
                    0 <= m < n < a.len() && a[m] == b[i] && a[n] == b[i];
                assert(a[m].pid != a[n].pid);
            } else {
                assert(b.contains(b[i]));
                assert(b.contains(b[j]));
                assert(b.to_multiset().count(b[i]) > 0);
                assert(b.to_multiset().count(b[j]) > 0);
                assert(a.to_multiset().count(b[i]) > 0);
                assert(a.to_multiset().count(b[j]) > 0);
                assert(a.contains(b[i]));
                assert(a.contains(b[j]));
                let m = choose|m: int| 0 <= m < a.len() && a[m] == b[i];
                let n = choose|n: int| 0 <= n < a.len() && a[n] == b[j];
                if m < n {
                    assert(a[m].pid != a[n].pid);
                } else {
                    assert(a[n].pid != a[m].pid);
                }
            }
        }
    }
}

/// The engine's whole state. The renderer only reads it; the input
/// dispatcher mutates it through the engine's operations.
pub struct App {
    /// Index of the highlighted row.
    pub selected_row: usize,
    /// Scrollbar position, mirroring the highlighted row.
    pub scroll_position: usize,
    /// The current rows, rebuilt wholesale on every tick.
    pub items: Vec<ProcessInfo>,
    /// Widths of the eight displayed columns.
    pub longest_item_lens: (u16, u16, u16, u16, u16, u16, u16, u16),
    /// Index of the highlighted column.
    pub selected_column: usize,
    /// The key the rows are ordered by.
    pub sort_tag: ProcessName,
    /// Whether the ordering is reversed (descending).
    pub reverse_sort: bool,
    /// One history record per process id ever observed.
    pub process_stats_history: HashMapWithView<u64, ProcessInfoHistory>,
    /// The process whose history the chart shows.
    pub chart_pid: u64,
    /// The column whose history the chart shows.
    pub chart_col: usize,
    /// Pause flag: while set, ticks are not taken.
    pub stop: bool,
    /// Rolling window of the system-wide average CPU usage, in tenths of a
    /// percent.
    pub cpu_usage_history: VecDeque<u64>,
    /// The hardware side of the latest snapshot.
    pub general_info: GeneralInfo,
    /// Whether the chart shows the global CPU average rather than the
    /// selected cell's history.
    pub plot_cpu: bool,
}

impl App {
    /// The engine's standing invariant.
    pub open spec fn wf(self) -> bool {
        &&& self.selected_column < 8
        &&& self.chart_col < 8
        &&& self.cpu_usage_history@.len() <= MAX_LEN
        &&& store_wf(self.process_stats_history@)
    }

    /// The row the highlight moves to when stepping down: one further,
    /// wrapping to the top past the last row.
    pub open spec fn next_row_index(self) -> usize {
        if self.items@.len() == 0 {
            0usize
        } else if self.selected_row >= self.items@.len() - 1 {
            0usize
        } else {
            (self.selected_row + 1) as usize
        }
    }

    /// The row the highlight moves to when stepping up: one back, wrapping
    /// to the bottom before the first row.
    pub open spec fn previous_row_index(self) -> usize {
        if self.items@.len() == 0 {
            0usize
        } else if self.selected_row == 0 {
            (self.items@.len() - 1) as usize
        } else {
            (self.selected_row - 1) as usize
        }
    }

    /// Build the engine from the first snapshot: the provider's rows (raw
    /// CPU usage) and hardware state, the physical core count, and the
    /// monitor's own process id as the initial chart target.
    pub fn new(
        items: Vec<ProcessInfo>,
        general_info: GeneralInfo,
        core_count: Option<u64>,
        chart_pid: u64,
    ) -> (app: App)
        ensures
            app.wf(),
            app.items@ == normalize_rows_spec(items@, core_count),
            app.longest_item_lens.0 == col_constraint(app.items@, 0),
            app.longest_item_lens.1 == col_constraint(app.items@, 1),
            app.longest_item_lens.2 == col_constraint(app.items@, 2),
            app.longest_item_lens.3 == col_constraint(app.items@, 3),
            app.longest_item_lens.4 == col_constraint(app.items@, 4),
            app.longest_item_lens.5 == col_constraint(app.items@, 5),
            app.longest_item_lens.6 == col_constraint(app.items@, 6),
            app.longest_item_lens.7 == col_constraint(app.items@, 7),
            app.cpu_usage_history@ == seq![avg_cpu(general_info.cpu_usage_tab@) as u64],
            app.selected_row == 0,
            app.scroll_position == 0,
            app.selected_column == 0,
            app.sort_tag == ProcessName::CPU,
            app.reverse_sort == true,
            app.process_stats_history@ == Map::<u64, ProcessInfoHistory>::empty(),
            app.chart_pid == chart_pid,
            app.chart_col == 3,
            app.stop == false,
            app.plot_cpu == true,
            app.general_info == general_info,
    {
        let mut items = items;
        normalize_rows(&mut items, core_count);
        let longest_item_lens = constraint_len_calculator(&items);
        let mut cpu_usage_history: VecDeque<u64> = VecDeque::new();
        push_bounded(&mut cpu_usage_history, general_info.get_avg_cpu_usage());
        proof {
            assert(cpu_usage_history@ =~= seq![avg_cpu(general_info.cpu_usage_tab@) as u64]);
        }
        App {
            selected_row: 0,
            scroll_position: 0,
            items,
            longest_item_lens,
            selected_column: 0,
            sort_tag: ProcessName::CPU,
            reverse_sort: true,
            process_stats_history: HashMapWithView::new(),
            chart_pid,
            chart_col: 3,
            stop: false,
            cpu_usage_history,
            general_info,
            plot_cpu: true,
        }
    }

    /// Move the highlight one row down, wrapping to the top at the end;
    /// the scrollbar follows.
    pub fn next_row(&mut self)
        ensures
            *final(self) == (App {
                selected_row: old(self).next_row_index(),
                scroll_position: old(self).next_row_index(),
                ..*old(self)
            }),
    {
        let len = self.items.len();
        let i = if len == 0 {
            0
        } else if self.selected_row >= len - 1 {
            0
        } else {
            self.selected_row + 1
        };
        self.selected_row = i;
        self.scroll_position = i;
    }

    /// Move the highlight one row up, wrapping to the bottom at the top;
    /// the scrollbar follows.
    pub fn previous_row(&mut self)
        ensures
            *final(self) == (App {
                selected_row: old(self).previous_row_index(),
                scroll_position: old(self).previous_row_index(),
                ..*old(self)
            }),
    {
        let len = self.items.len();
        let i = if len == 0 {
            0
        } else if self.selected_row == 0 {
            len - 1
        } else {
            self.selected_row - 1
        };
        self.selected_row = i;
        self.scroll_position = i;
    }

    /// Move the highlight one column right, wrapping round the eight
    /// displayed columns.
    pub fn next_column(&mut self)
        ensures
            *final(self) == (App {
                selected_column: (if old(self).selected_column < 7 {
                    (old(self).selected_column + 1) as usize
                } else {
                    0usize
                }),
                ..*old(self)
            }),
    {
        if self.selected_column < 7 {
            self.selected_column = self.selected_column + 1;
        } else {
            self.selected_column = 0;
        }
    }

    /// Move the highlight one column left, wrapping round the eight
    /// displayed columns.
    pub fn previous_column(&mut self)
        ensures
            *final(self) == (App {
                selected_column: (if old(self).selected_column == 0 {
                    7usize
                } else {
                    (old(self).selected_column - 1) as usize
                }),
                ..*old(self)
            }),
    {
        if self.selected_column == 0 {
            self.selected_column = 7;
        } else {
            self.selected_column = self.selected_column - 1;
        }
    }

    /// Order the rows by the active sort key and direction, stably: rows
    /// that tie on the key keep their prior relative order. Nothing else
    /// changes.
    pub fn sort_data(&mut self)
        ensures
            sorted_by(final(self).items@, sort_leq(old(self).sort_tag, old(self).reverse_sort)),
            final(self).items@.to_multiset() == old(self).items@.to_multiset(),
            final(self).items@.len() == old(self).items@.len(),
            forall|x: ProcessInfo| #[trigger] final(self).items@.filter(
                tie_pred(x, old(self).sort_tag),
            ) == old(self).items@.filter(tie_pred(x, old(self).sort_tag)),
            *final(self) == (App { items: final(self).items, ..*old(self) }),
    {
        let key = self.sort_tag;
        let rev = self.reverse_sort;
        sort_rows(&mut self.items, key, rev);
    }

    /// Record one sample per metric for every current row: a history
    /// record is created on first sight of a process id, and an absent
    /// numeric field is recorded as zero, so all six windows stay in step.
    /// Records of processes not in the current rows are left as they are.
    #[verifier::rlimit(30)]
    pub fn save_history_data(&mut self)
        requires
            distinct_pids(old(self).items@),
        ensures
            *final(self) == (App {
                process_stats_history: final(self).process_stats_history,
                ..*old(self)
            }),
            forall|i: int|
                0 <= i < old(self).items@.len() ==> {
                    let r = #[trigger] old(self).items@[i];
                    &&& final(self).process_stats_history@.contains_key(r.pid)
                    &&& (if old(self).process_stats_history@.contains_key(r.pid) {
                        records_row(
                            final(self).process_stats_history@[r.pid],
                            old(self).process_stats_history@[r.pid],
                            r,
                        )
                    } else {
                        starts_row(final(self).process_stats_history@[r.pid], r)
                    })
                },
            forall|p: u64|
                #![trigger final(self).process_stats_history@.contains_key(p)]
                !has_pid(old(self).items@, p) ==> {
                    &&& final(self).process_stats_history@.contains_key(p) == old(
                        self,
                    ).process_stats_history@.contains_key(p)
                    &&& (old(self).process_stats_history@.contains_key(p)
                        ==> final(self).process_stats_history@[p] == old(
                        self,
                    ).process_stats_history@[p])
                },
            store_wf(old(self).process_stats_history@) ==> store_wf(
                final(self).process_stats_history@,
            ),
    {
        let ghost old_map = self.process_stats_history@;
        let ghost items_snap = self.items@;
        let n = self.items.len();
        let mut idx: usize = 0;
        while idx < n
            invariant
                idx <= n,
                n == self.items@.len(),
                self.items@ == items_snap,
                distinct_pids(items_snap),
                old_map == old(self).process_stats_history@,
                items_snap == old(self).items@,
                *self == (App {
                    process_stats_history: self.process_stats_history,
                    ..*old(self)
                }),
                forall|i: int|
                    0 <= i < idx ==> {
                        let r = #[trigger] items_snap[i];
                        &&& self.process_stats_history@.contains_key(r.pid)
                        &&& (if old_map.contains_key(r.pid) {
                            records_row(self.process_stats_history@[r.pid], old_map[r.pid], r)
                        } else {
                            starts_row(self.process_stats_history@[r.pid], r)
                        })
                    },
                forall|p: u64|
                    #![trigger self.process_stats_history@.contains_key(p)]
                    !has_pid(items_snap.subrange(0, idx as int), p) ==> {
                        &&& self.process_stats_history@.contains_key(p) == old_map.contains_key(p)
                        &&& (old_map.contains_key(p) ==> self.process_stats_history@[p]
                            == old_map[p])
                    },
                store_wf(old_map) ==> store_wf(self.process_stats_history@),
            decreases n - idx,
        {
            let ghost m_entry = self.process_stats_history@;
            let pid = self.items[idx].pid;
            let r_cpu = self.items[idx].cpu;
            let r_mem = self.items[idx].mem_mb;
            let r_read = self.items[idx].read_bytes;
            let r_write = self.items[idx].write_bytes;
            let r_tread = self.items[idx].total_read;
            let r_twrit = self.items[idx].total_written;
            proof {
                // this row's id does not occur earlier, so its record is
                // still exactly as the store held it before the loop
                assert(!has_pid(items_snap.subrange(0, idx as int), pid));
            }
            let mut h = match self.process_stats_history.remove(&pid) {
                Some(h) => h,
                None => ProcessInfoHistory::default(),
            };
            push_bounded(&mut h.cpu, r_cpu.unwrap_or(0));
            push_bounded(&mut h.mem_mb, r_mem.unwrap_or(0));
            push_bounded(&mut h.read_bytes, r_read.unwrap_or(0));
            push_bounded(&mut h.write_bytes, r_write.unwrap_or(0));
            push_bounded(&mut h.total_read, r_tread.unwrap_or(0));
            push_bounded(&mut h.total_written, r_twrit.unwrap_or(0));
            self.process_stats_history.insert(pid, h);
            proof {
                if !old_map.contains_key(pid) {
                    assert(push_bounded_spec(Seq::<u64>::empty(), r_cpu.unwrap_or(0u64)) =~= seq![
                        r_cpu.unwrap_or(0u64),
                    ]);
                    assert(push_bounded_spec(Seq::<u64>::empty(), r_mem.unwrap_or(0u64)) =~= seq![
                        r_mem.unwrap_or(0u64),
                    ]);
                    assert(push_bounded_spec(Seq::<u64>::empty(), r_read.unwrap_or(0u64)) =~= seq![
                        r_read.unwrap_or(0u64),
                    ]);
                    assert(push_bounded_spec(Seq::<u64>::empty(), r_write.unwrap_or(0u64)) =~= seq![
                        r_write.unwrap_or(0u64),
                    ]);
                    assert(push_bounded_spec(Seq::<u64>::empty(), r_tread.unwrap_or(0u64)) =~= seq![
                        r_tread.unwrap_or(0u64),
                    ]);
                    assert(push_bounded_spec(Seq::<u64>::empty(), r_twrit.unwrap_or(0u64)) =~= seq![
                        r_twrit.unwrap_or(0u64),
                    ]);
                }
                assert(items_snap.subrange(0, idx + 1).drop_last() =~= items_snap.subrange(
                    0,
                    idx as int,
                ));
            }
            let ghost prev_idx = idx as int;
            idx = idx + 1;
            proof {
                assert forall|p: u64|
                    #![trigger self.process_stats_history@.contains_key(p)]
                    !has_pid(items_snap.subrange(0, idx as int), p) implies {
                    &&& self.process_stats_history@.contains_key(p) == old_map.contains_key(p)
                    &&& (old_map.contains_key(p) ==> self.process_stats_history@[p] == old_map[p])
                } by {
                    assert(items_snap.subrange(0, idx as int)[prev_idx] == items_snap[prev_idx]);
                    if p == pid {
                        assert(has_pid(items_snap.subrange(0, idx as int), p));
                        assert(false);
                    }
                    if has_pid(items_snap.subrange(0, prev_idx), p) {
                        let w = choose|w: int|
                            0 <= w < prev_idx && items_snap.subrange(0, prev_idx)[w].pid == p;
                        assert(items_snap.subrange(0, idx as int)[w].pid == p);
                        assert(has_pid(items_snap.subrange(0, idx as int), p));
                        assert(false);
                    }
                    assert(m_entry.contains_key(p) == old_map.contains_key(p));
                    assert(self.process_stats_history@.contains_key(p) == m_entry.contains_key(p));
                    if old_map.contains_key(p) {
                        assert(m_entry[p] == old_map[p]);
                        assert(self.process_stats_history@[p] == m_entry[p]);
                    }
                }
            }
        }
        proof {
            assert(items_snap.subrange(0, n as int) =~= items_snap);
        }
    }

    /// The history window a process holds for a metric: the CPU window for
    /// the non-numeric keys, the empty series for an unknown process id.
    pub open spec fn history_for_spec(self, pid: u64, metric: ProcessName) -> Seq<u64> {
        if !self.process_stats_history@.contains_key(pid) {
            Seq::<u64>::empty()
        } else {
            let h = self.process_stats_history@[pid];
            if metric == ProcessName::MEM {
                h.mem_mb@
            } else if metric == ProcessName::READ {
                h.read_bytes@
            } else if metric == ProcessName::WRITE {
                h.write_bytes@
            } else if metric == ProcessName::TOTAL_READ {
                h.total_read@
            } else if metric == ProcessName::TOTAL_WRITTEN {
                h.total_written@
            } else {
                h.cpu@
            }
        }
    }

    /// Read one process's history window for a metric; the empty series
    /// when the process id is unknown — reading never creates a record.
    pub fn history_for(&self, pid: u64, metric: ProcessName) -> (r: Vec<u64>)
        ensures
            r@ == self.history_for_spec(pid, metric),
    {
        match self.process_stats_history.get(&pid) {
            None => Vec::new(),
            Some(h) => {
                match metric {
                    ProcessName::MEM => deque_to_vec(&h.mem_mb),
                    ProcessName::READ => deque_to_vec(&h.read_bytes),
                    ProcessName::WRITE => deque_to_vec(&h.write_bytes),
                    ProcessName::TOTAL_READ => deque_to_vec(&h.total_read),
                    ProcessName::TOTAL_WRITTEN => deque_to_vec(&h.total_written),
                    _ => deque_to_vec(&h.cpu),
                }
            },
        }
    }

    /// The raw history series behind the chart target: the selected metric
    /// of the selected process, empty when that process has no record (it
    /// may have vanished since it was selected).
    pub open spec fn selected_series(self) -> Seq<u64> {
        self.history_for_spec(self.chart_pid, ProcessName::from_ordinal(self.chart_col as int))
    }

    /// The history series for the chart target, as a fresh vector.
    pub fn extract_history_data(&self) -> (r: Vec<u64>)
        requires
            self.chart_col < 8,
        ensures
            r@ == self.selected_series(),
    {
        self.history_for(self.chart_pid, ProcessName::get_name(self.chart_col))
    }

    /// Take one tick's snapshot into the engine: normalize the rows' CPU
    /// usage by the core count, append the global CPU average to its
    /// window, replace the row set and hardware state, re-sort, and record
    /// one sample per row in the history store.
    pub fn update_data(
        &mut self,
        rows: Vec<ProcessInfo>,
        general_info: GeneralInfo,
        core_count: Option<u64>,
    )
        requires
            distinct_pids(rows@),
            old(self).wf(),
        ensures
            final(self).wf(),
            *final(self) == (App {
                items: final(self).items,
                process_stats_history: final(self).process_stats_history,
                cpu_usage_history: final(self).cpu_usage_history,
                general_info: general_info,
                ..*old(self)
            }),
            final(self).cpu_usage_history@ == push_bounded_spec(
                old(self).cpu_usage_history@,
                avg_cpu(general_info.cpu_usage_tab@) as u64,
            ),
            sorted_by(final(self).items@, sort_leq(old(self).sort_tag, old(self).reverse_sort)),
            final(self).items@.to_multiset() == normalize_rows_spec(
                rows@,
                core_count,
            ).to_multiset(),
            forall|x: ProcessInfo| #[trigger] final(self).items@.filter(
                tie_pred(x, old(self).sort_tag),
            ) == normalize_rows_spec(rows@, core_count).filter(tie_pred(x, old(self).sort_tag)),
            forall|i: int|
                0 <= i < final(self).items@.len() ==> {
                    let r = #[trigger] final(self).items@[i];
                    &&& final(self).process_stats_history@.contains_key(r.pid)
                    &&& (if old(self).process_stats_history@.contains_key(r.pid) {
                        records_row(
                            final(self).process_stats_history@[r.pid],
                            old(self).process_stats_history@[r.pid],
                            r,
                        )
                    } else {
                        starts_row(final(self).process_stats_history@[r.pid], r)
                    })
                },
            forall|p: u64|
                #![trigger final(self).process_stats_history@.contains_key(p)]
                !has_pid(final(self).items@, p) ==> {
                    &&& final(self).process_stats_history@.contains_key(p) == old(
                        self,
                    ).process_stats_history@.contains_key(p)
                    &&& (old(self).process_stats_history@.contains_key(p)
                        ==> final(self).process_stats_history@[p] == old(
                        self,
                    ).process_stats_history@[p])
                },
    {
        let ghost orig = rows@;
        let mut nrows = rows;
        normalize_rows(&mut nrows, core_count);
        let ghost norm = nrows@;
        proof {
            assert(norm == normalize_rows_spec(orig, core_count));
            assert(distinct_pids(norm)) by {
                assert forall|i: int, j: int|
                    0 <= i < j < norm.len() implies norm[i].pid != norm[j].pid by {
                    assert(norm[i] == normalized_row(orig[i], core_count));
                    assert(norm[j] == normalized_row(orig[j], core_count));
                }
            }
        }
        push_bounded(&mut self.cpu_usage_history, general_info.get_avg_cpu_usage());
        self.items = nrows;
        self.general_info = general_info;
        self.sort_data();
        proof {
            lemma_distinct_pids_permutation(norm, self.items@);
        }
        self.save_history_data();
    }

    /// Apply one command from the input dispatcher; the result says
    /// whether the operator asked to quit.
    pub fn handle_command(&mut self, cmd: Command) -> (quit: bool)
        ensures
            quit == (cmd is Quit),
            old(self).wf() ==> final(self).wf(),
            (match cmd {
                Command::Quit => *final(self) == *old(self),
                Command::SortDescending => {
                    &&& sorted_by(final(self).items@, sort_leq(old(self).sort_tag, true))
                    &&& final(self).items@.to_multiset() == old(self).items@.to_multiset()
                    &&& *final(self) == (App {
                        items: final(self).items,
                        reverse_sort: true,
                        ..*old(self)
                    })
                },
                Command::SortAscending => {
                    &&& sorted_by(final(self).items@, sort_leq(old(self).sort_tag, false))
                    &&& final(self).items@.to_multiset() == old(self).items@.to_multiset()
                    &&& *final(self) == (App {
                        items: final(self).items,
                        reverse_sort: false,
                        ..*old(self)
                    })
                },
                Command::NextRow => *final(self) == (App {
                    selected_row: old(self).next_row_index(),
                    scroll_position: old(self).next_row_index(),
                    ..*old(self)
                }),
                Command::PreviousRow => *final(self) == (App {
                    selected_row: old(self).previous_row_index(),
                    scroll_position: old(self).previous_row_index(),
                    ..*old(self)
                }),
                Command::SortKeyPrev => {
                    &&& final(self).sort_tag == old(self).sort_tag.prev_spec()
                    &&& sorted_by(
                        final(self).items@,
                        sort_leq(final(self).sort_tag, old(self).reverse_sort),
                    )
                    &&& final(self).items@.to_multiset() == old(self).items@.to_multiset()
                    &&& *final(self) == (App {
                        items: final(self).items,
                        sort_tag: final(self).sort_tag,
                        ..*old(self)
                    })
                },
                Command::SortKeyNext => {
                    &&& final(self).sort_tag == old(self).sort_tag.next_spec()
                    &&& sorted_by(
                        final(self).items@,
                        sort_leq(final(self).sort_tag, old(self).reverse_sort),
                    )
                    &&& final(self).items@.to_multiset() == old(self).items@.to_multiset()
                    &&& *final(self) == (App {
                        items: final(self).items,
                        sort_tag: final(self).sort_tag,
                        ..*old(self)
                    })
                },
                Command::NextColumn => *final(self) == (App {
                    selected_column: (if old(self).selected_column < 7 {
                        (old(self).selected_column + 1) as usize
                    } else {
                        0usize
                    }),
                    ..*old(self)
                }),
                Command::PreviousColumn => *final(self) == (App {
                    selected_column: (if old(self).selected_column == 0 {
                        7usize
                    } else {
                        (old(self).selected_column - 1) as usize
                    }),
                    ..*old(self)
                }),
                Command::PlotCpu => *final(self) == (App { plot_cpu: true, ..*old(self) }),
                Command::SelectCell => {
                    if old(self).selected_row < old(self).items@.len() {
                        *final(self) == (App {
                            chart_col: old(self).selected_column,
                            chart_pid: old(self).items@[old(self).selected_row as int].pid,
                            plot_cpu: false,
                            ..*old(self)
                        })
                    } else {
                        *final(self) == *old(self)
                    }
                },
                Command::TogglePause => *final(self) == (App {
                    stop: !old(self).stop,
                    ..*old(self)
                }),
            }),
    {
        match cmd {
            Command::Quit => true,
            Command::SortDescending => {
                self.reverse_sort = true;
                self.sort_data();
                false
            },
            Command::SortAscending => {
                self.reverse_sort = false;
                self.sort_data();
                false
            },
            Command::NextRow => {
                self.next_row();
                false
            },
            Command::PreviousRow => {
                self.previous_row();
                false
            },
            Command::SortKeyPrev => {
                self.sort_tag = self.sort_tag.prev();
                self.sort_data();
                false
            },
            Command::SortKeyNext => {
                self.sort_tag = self.sort_tag.next();
                self.sort_data();
                false
            },
            Command::NextColumn => {
                self.next_column();
                false
            },
            Command::PreviousColumn => {
                self.previous_column();
                false
            },
            Command::PlotCpu => {
                self.plot_cpu = true;
                false
            },
            Command::SelectCell => {
                if self.selected_row < self.items.len() {
                    self.chart_col = self.selected_column;
                    self.chart_pid = self.items[self.selected_row].pid;
                    self.plot_cpu = false;
                }
                false
            },
            Command::TogglePause => {
                self.stop = !self.stop;
                false
            },
        }
    }
}

fn deque_to_vec(q: &VecDeque<u64>) -> (r: Vec<u64>)
    ensures
        r@ == q@,
{
    let mut out: Vec<u64> = Vec::new();
    let mut i: usize = 0;
    while i < q.len()
        invariant
            i <= q@.len(),
            out@ =~= q@.subrange(0, i as int),
        decreases q@.len() - i,
    {
        out.push(q[i]);
        i = i + 1;
    }
    proof {
        assert(q@.subrange(0, q@.len() as int) =~= q@);
    }
    out
}

} // verus!
