use clawhive::process::{
    check_target_pid, clean_cmdline, parse_leading_number, parse_ps_line, parse_ps_output, parse_status_value,
    process_tree, select_processes, sort_by_pid, ProcEntry, TreeNode,
};

fn entry(pid: u64, ppid: u64, name: &str, user: &str) -> ProcEntry {
    let line = format!("{pid} {ppid} {user} 0.0 0.1 100 10 ? S 10:00 00:00:00 {name} --flag");
    parse_ps_line(&line).unwrap()
}

#[test]
fn test_process_parse_ps_line() {
    let line = "1234 1 root 0.0 0.1 12345 678 pts/0 S+ Jan01 00:00:01 /usr/bin/bash --login";
    let parsed = parse_ps_line(line);
    assert!(parsed.is_some());
    let p = parsed.unwrap();
    assert_eq!(p.pid, 1234);
    assert_eq!(p.ppid, 1);
    assert_eq!(p.user, "root");
    assert_eq!(p.cpu_percent.parse::<f64>().unwrap(), 0.0);
    assert_eq!(p.mem_percent.parse::<f64>().unwrap(), 0.1);
    assert_eq!(p.vsz_kb, 12345);
    assert_eq!(p.rss_kb, 678);
    assert_eq!(p.status, "S+");
    assert_eq!(p.name, "/usr/bin/bash");
    assert_eq!(p.command, "/usr/bin/bash --login");
}

#[test]
fn test_process_parse_ps_line_empty() {
    assert!(parse_ps_line("").is_none());
    assert!(parse_ps_line("   ").is_none());
}

#[test]
fn ps_rows_without_args_or_with_bad_numbers() {
    let p = parse_ps_line("  7 1 root 0.0 0.0 x 0 ? S 10:00 00:00:00  ").unwrap();
    assert_eq!(p.command, "");
    assert_eq!(p.name, "");
    assert_eq!(p.vsz_kb, 0);
    assert!(parse_ps_line("abc 1 root 0.0 0.0 1 1 ? S 10:00 00:00:00 sh").is_none());
    assert!(parse_ps_line("1 2 3").is_none());
    let all = parse_ps_output("1 0 root 0 0 1 1 ? S 1 1 init\ngarbage\n2 1 root 0 0 1 1 ? S 1 1 sh -c x\n");
    assert_eq!(all.len(), 2);
    assert_eq!(all[1].command, "sh -c x");
}

#[test]
fn proc_status_values() {
    let status = "Name:\tbash\nState:\tS (sleeping)\nVmRSS:\t  4096 kB\nThreads:\t1\n";
    assert_eq!(parse_status_value(status, "Name").as_deref(), Some("bash"));
    assert_eq!(parse_status_value(status, "State").as_deref(), Some("S (sleeping)"));
    assert_eq!(parse_status_value(status, "Missing"), None);
    let rss = parse_status_value(status, "VmRSS").unwrap();
    assert_eq!(parse_leading_number(&rss), Some(4096));
    assert_eq!(clean_cmdline("sleep\u{0}100\u{0}"), "sleep 100");
}

#[test]
fn target_pid_checks() {
    assert_eq!(check_target_pid(0, true).unwrap_err().detail(), "'pid' is required and must be > 0");
    assert_eq!(check_target_pid(99999999, false).unwrap_err().detail(), "process 99999999 does not exist");
    assert!(check_target_pid(1, true).is_ok());
}

fn pids(nodes: &[TreeNode]) -> Vec<u64> {
    nodes.iter().map(|n| n.pid).collect()
}

#[test]
fn hierarchy_with_orphans_depth_and_filter() {
    let procs = vec![
        entry(1, 0, "init", "root"),
        entry(2, 1, "sshd", "root"),
        entry(3, 2, "bash", "alice"),
        entry(4, 99, "orphan", "bob"),
        entry(5, 1, "cron", "root"),
    ];
    let tree = process_tree(&procs, 5, None);
    assert_eq!(pids(&tree), vec![1, 4]);
    assert_eq!(pids(&tree[0].children), vec![2, 5]);
    assert_eq!(pids(&tree[0].children[0].children), vec![3]);

    let shallow = process_tree(&procs, 2, None);
    assert_eq!(pids(&shallow[0].children), vec![2, 5]);
    assert!(shallow[0].children[0].children.is_empty());

    let filtered = process_tree(&procs, 5, Some("ORPHAN"));
    assert_eq!(pids(&filtered), vec![1, 4]);
    let none = process_tree(&procs, 0, None);
    assert!(none.is_empty());
}

#[test]
fn list_selection_sorts_filters_and_limits() {
    let procs = vec![entry(30, 1, "zsh", "bob"), entry(10, 1, "bash", "alice"), entry(20, 1, "vim", "bob")];
    let sel = select_processes(&procs, None, 2);
    assert_eq!(sel.iter().map(|p| p.pid).collect::<Vec<_>>(), vec![10, 20]);
    let sel = select_processes(&procs, Some("BOB"), 10);
    assert_eq!(sel.iter().map(|p| p.pid).collect::<Vec<_>>(), vec![20, 30]);
    let sorted = sort_by_pid(procs);
    assert_eq!(sorted.iter().map(|p| p.pid).collect::<Vec<_>>(), vec![10, 20, 30]);
}
