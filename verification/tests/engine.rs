use procmon::process::ProcessInfo;
use procmon::state::{App, Command};
use procmon::system::{CpuInfo, DiskInfo, GeneralInfo};
use procmon::types::ProcessName;

fn row(pid: u64, cpu: Option<u64>) -> ProcessInfo {
    ProcessInfo {
        pid,
        name: format!("proc{}", pid),
        cpu,
        mem_mb: Some(pid * 10),
        read_bytes: Some(1),
        write_bytes: Some(2),
        total_read: Some(3),
        total_written: Some(4),
        user: None,
    }
}

fn hardware(usages: Vec<Option<u64>>) -> GeneralInfo {
    GeneralInfo {
        ram_total_memory: Some(16 * 1024 * 1024 * 1024),
        ram_available_memory: Some(8 * 1024 * 1024 * 1024),
        ram_used_memor: Some(8 * 1024 * 1024 * 1024),
        cpu_usage_tab: usages
            .into_iter()
            .enumerate()
            .map(|(i, usage)| CpuInfo { name: format!("cpu{}", i), usage })
            .collect(),
        disk_tab: vec![DiskInfo {
            name: None,
            mount_point: Some("/".to_string()),
            total_space: Some(1024),
            available_space: None,
        }],
    }
}

fn fresh_app() -> App {
    App::new(Vec::new(), hardware(vec![]), Some(1), 0)
}

#[test]
fn average_cpu_skips_absent_cores() {
    // usages in tenths of a percent: 10.0%, absent, 30.0% average to 20.0%
    let info = hardware(vec![Some(100), None, Some(300)]);
    assert_eq!(info.get_avg_cpu_usage(), 200);
}

#[test]
fn average_cpu_of_no_reporting_cores_is_zero() {
    assert_eq!(hardware(vec![]).get_avg_cpu_usage(), 0);
    assert_eq!(hardware(vec![None, None]).get_avg_cpu_usage(), 0);
}

#[test]
fn two_ticks_build_history_per_process() {
    let mut app = fresh_app();
    app.update_data(
        vec![row(1, Some(500)), row(2, None)],
        hardware(vec![Some(100)]),
        Some(1),
    );
    app.update_data(
        vec![row(1, Some(600)), row(2, None)],
        hardware(vec![Some(100)]),
        Some(1),
    );
    app.chart_pid = 1;
    app.chart_col = ProcessName::CPU.get_index();
    assert_eq!(app.extract_history_data(), vec![500, 600]);
    app.chart_pid = 2;
    assert_eq!(app.extract_history_data(), vec![0, 0]);
}

#[test]
fn tick_normalizes_cpu_by_core_count() {
    let mut app = fresh_app();
    app.update_data(vec![row(1, Some(800))], hardware(vec![]), Some(4));
    assert_eq!(app.items[0].cpu, Some(200));
}

#[test]
fn unknown_core_count_leaves_cpu_unscaled() {
    let mut app = fresh_app();
    app.update_data(vec![row(1, Some(800))], hardware(vec![]), None);
    assert_eq!(app.items[0].cpu, Some(800));
}

#[test]
fn tick_replaces_rows_and_sorts_by_active_spec() {
    let mut app = fresh_app();
    // default sort: cpu descending
    app.update_data(
        vec![row(1, Some(100)), row(2, Some(900)), row(3, None)],
        hardware(vec![]),
        Some(1),
    );
    let pids: Vec<u64> = app.items.iter().map(|r| r.pid).collect();
    assert_eq!(pids, vec![2, 1, 3]);
}

#[test]
fn tick_appends_global_average() {
    let mut app = fresh_app();
    assert_eq!(app.cpu_usage_history.len(), 1);
    app.update_data(Vec::new(), hardware(vec![Some(400), Some(200)]), Some(1));
    assert_eq!(app.cpu_usage_history.len(), 2);
    assert_eq!(app.cpu_usage_history.back().copied(), Some(300));
}

#[test]
fn history_read_per_metric() {
    let mut app = fresh_app();
    app.update_data(vec![row(3, Some(400))], hardware(vec![]), Some(1));
    assert_eq!(app.history_for(3, ProcessName::CPU), vec![400]);
    assert_eq!(app.history_for(3, ProcessName::MEM), vec![30]);
    assert_eq!(app.history_for(3, ProcessName::READ), vec![1]);
    assert_eq!(app.history_for(3, ProcessName::WRITE), vec![2]);
    assert_eq!(app.history_for(3, ProcessName::TOTAL_READ), vec![3]);
    assert_eq!(app.history_for(3, ProcessName::TOTAL_WRITTEN), vec![4]);
    // reading an unknown id yields the empty series and creates no record
    assert_eq!(app.history_for(4, ProcessName::CPU), Vec::<u64>::new());
    assert_eq!(app.history_for(4, ProcessName::CPU), Vec::<u64>::new());
}

#[test]
fn history_of_unknown_process_is_empty() {
    let mut app = fresh_app();
    app.chart_pid = 4242;
    app.chart_col = 2;
    assert_eq!(app.extract_history_data(), Vec::<u64>::new());
}

#[test]
fn dead_processes_keep_their_history() {
    let mut app = fresh_app();
    app.update_data(vec![row(9, Some(100))], hardware(vec![]), Some(1));
    app.update_data(Vec::new(), hardware(vec![]), Some(1));
    app.chart_pid = 9;
    app.chart_col = 2;
    assert_eq!(app.extract_history_data(), vec![100]);
}

#[test]
fn row_navigation_wraps() {
    let mut app = fresh_app();
    app.update_data(
        vec![row(1, Some(300)), row(2, Some(200)), row(3, Some(100))],
        hardware(vec![]),
        Some(1),
    );
    assert_eq!(app.selected_row, 0);
    app.next_row();
    assert_eq!(app.selected_row, 1);
    app.next_row();
    assert_eq!(app.selected_row, 2);
    app.next_row();
    assert_eq!(app.selected_row, 0);
    app.previous_row();
    assert_eq!(app.selected_row, 2);
}

#[test]
fn column_navigation_wraps() {
    let mut app = fresh_app();
    assert_eq!(app.selected_column, 0);
    app.previous_column();
    assert_eq!(app.selected_column, 7);
    app.next_column();
    assert_eq!(app.selected_column, 0);
    app.next_column();
    assert_eq!(app.selected_column, 1);
}

#[test]
fn commands_drive_the_engine() {
    let mut app = fresh_app();
    app.update_data(
        vec![row(1, Some(100)), row(2, Some(900))],
        hardware(vec![]),
        Some(1),
    );
    assert!(!app.handle_command(Command::TogglePause));
    assert!(app.stop);
    assert!(!app.handle_command(Command::TogglePause));
    assert!(!app.stop);

    assert!(!app.handle_command(Command::SortAscending));
    assert!(!app.reverse_sort);
    let pids: Vec<u64> = app.items.iter().map(|r| r.pid).collect();
    assert_eq!(pids, vec![1, 2]);

    assert!(!app.handle_command(Command::SortDescending));
    assert!(app.reverse_sort);
    let pids: Vec<u64> = app.items.iter().map(|r| r.pid).collect();
    assert_eq!(pids, vec![2, 1]);

    assert!(app.handle_command(Command::Quit));
}

#[test]
fn select_cell_captures_chart_target() {
    let mut app = fresh_app();
    app.update_data(
        vec![row(1, Some(100)), row(2, Some(900))],
        hardware(vec![]),
        Some(1),
    );
    app.handle_command(Command::NextRow);
    app.handle_command(Command::NextColumn);
    app.handle_command(Command::NextColumn);
    app.handle_command(Command::SelectCell);
    assert!(!app.plot_cpu);
    assert_eq!(app.chart_col, 2);
    // rows are cpu-descending, so the second row is pid 1
    assert_eq!(app.chart_pid, 1);
    app.handle_command(Command::PlotCpu);
    assert!(app.plot_cpu);
}

#[test]
fn sort_key_navigation_saturates() {
    let mut app = fresh_app();
    assert_eq!(app.sort_tag, ProcessName::CPU);
    app.handle_command(Command::SortKeyPrev);
    assert_eq!(app.sort_tag, ProcessName::NAME);
    app.handle_command(Command::SortKeyPrev);
    assert_eq!(app.sort_tag, ProcessName::PID);
    app.handle_command(Command::SortKeyPrev);
    assert_eq!(app.sort_tag, ProcessName::PID);
    for _ in 0..10 {
        app.handle_command(Command::SortKeyNext);
    }
    assert_eq!(app.sort_tag, ProcessName::TOTAL_WRITTEN);
}

#[test]
fn key_stepping_is_clamped() {
    assert_eq!(ProcessName::PID.prev(), ProcessName::PID);
    assert_eq!(ProcessName::TOTAL_WRITTEN.next(), ProcessName::TOTAL_WRITTEN);
    assert_eq!(ProcessName::USER.next(), ProcessName::USER);
    assert_eq!(ProcessName::CPU.get_index(), 2);
    assert_eq!(ProcessName::get_name(2), ProcessName::CPU);
}

#[test]
fn duplicate_samples_accumulate_in_history() {
    // a tick is not a no-op on history: identical snapshots append again
    let mut app = fresh_app();
    app.update_data(vec![row(5, Some(250))], hardware(vec![]), Some(1));
    app.update_data(vec![row(5, Some(250))], hardware(vec![]), Some(1));
    app.chart_pid = 5;
    app.chart_col = 2;
    assert_eq!(app.extract_history_data(), vec![250, 250]);
}

#[test]
fn column_widths_respect_floors() {
    let app = fresh_app();
    assert_eq!(app.longest_item_lens, (8, 9, 10, 8, 6, 6, 11, 12));
}

#[test]
fn column_widths_grow_with_content() {
    let mut long_name = row(1, Some(100));
    long_name.name = "a-process-with-a-rather-long-name".to_string();
    let app = App::new(vec![long_name], hardware(vec![]), Some(1), 0);
    assert_eq!(app.longest_item_lens.1, 33);
}
