use procmon::process::ProcessInfo;
use procmon::sort::sort_rows;
use procmon::types::ProcessName;

fn row(pid: u64, name: &str, cpu: Option<u64>) -> ProcessInfo {
    ProcessInfo {
        pid,
        name: name.to_string(),
        cpu,
        mem_mb: Some(pid * 1000),
        read_bytes: None,
        write_bytes: None,
        total_read: None,
        total_written: None,
        user: None,
    }
}

fn pids(rows: &[ProcessInfo]) -> Vec<u64> {
    rows.iter().map(|r| r.pid).collect()
}

#[test]
fn sort_by_pid_ascending() {
    let mut rows = vec![row(3, "c", None), row(1, "a", None), row(2, "b", None)];
    sort_rows(&mut rows, ProcessName::PID, false);
    assert_eq!(pids(&rows), vec![1, 2, 3]);
}

#[test]
fn sort_by_pid_descending() {
    let mut rows = vec![row(3, "c", None), row(1, "a", None), row(2, "b", None)];
    sort_rows(&mut rows, ProcessName::PID, true);
    assert_eq!(pids(&rows), vec![3, 2, 1]);
}

#[test]
fn sort_by_name_is_lexicographic() {
    let mut rows = vec![
        row(1, "firefox", None),
        row(2, "Xorg", None),
        row(3, "bash", None),
        row(4, "systemd", None),
    ];
    sort_rows(&mut rows, ProcessName::NAME, false);
    let names: Vec<&str> = rows.iter().map(|r| r.name.as_str()).collect();
    // byte order: capitals before lower case
    assert_eq!(names, vec!["Xorg", "bash", "firefox", "systemd"]);
}

#[test]
fn absent_cpu_sorts_lowest_ascending() {
    let mut rows = vec![
        row(1, "a", Some(500)),
        row(2, "b", None),
        row(3, "c", Some(100)),
        row(4, "d", None),
    ];
    sort_rows(&mut rows, ProcessName::CPU, false);
    assert!(rows[0].cpu.is_none());
    assert!(rows[1].cpu.is_none());
    assert_eq!(rows[2].cpu, Some(100));
    assert_eq!(rows[3].cpu, Some(500));
}

#[test]
fn absent_cpu_sorts_last_descending() {
    let mut rows = vec![
        row(1, "a", Some(500)),
        row(2, "b", None),
        row(3, "c", Some(100)),
        row(4, "d", None),
    ];
    sort_rows(&mut rows, ProcessName::CPU, true);
    assert_eq!(rows[0].cpu, Some(500));
    assert_eq!(rows[1].cpu, Some(100));
    assert!(rows[2].cpu.is_none());
    assert!(rows[3].cpu.is_none());
}

#[test]
fn ascending_reversed_equals_descending_without_ties() {
    // distinct cpu keys, one of them absent
    let build = || {
        vec![
            row(1, "a", Some(700)),
            row(2, "b", None),
            row(3, "c", Some(50)),
            row(4, "d", Some(300)),
        ]
    };
    let mut asc = build();
    sort_rows(&mut asc, ProcessName::CPU, false);
    asc.reverse();
    let mut desc = build();
    sort_rows(&mut desc, ProcessName::CPU, true);
    assert_eq!(pids(&asc), pids(&desc));
}

#[test]
fn sort_is_stable_on_ties() {
    let mut rows = vec![
        row(10, "x", Some(200)),
        row(11, "y", Some(200)),
        row(12, "z", Some(100)),
        row(13, "w", Some(200)),
    ];
    sort_rows(&mut rows, ProcessName::CPU, false);
    // the three tied rows keep their prior relative order
    assert_eq!(pids(&rows), vec![12, 10, 11, 13]);
}

#[test]
fn sort_by_user_treats_all_absent_as_equal() {
    let mut rows = vec![row(2, "b", None), row(1, "a", None), row(3, "c", None)];
    sort_rows(&mut rows, ProcessName::USER, false);
    // every user is absent: a stable sort leaves the order untouched
    assert_eq!(pids(&rows), vec![2, 1, 3]);
}
