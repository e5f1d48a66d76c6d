use clawhive::shell::{build_command, dangerous_env_vars, exec_timed_out, signal_args, ShellTool};
use clawhive::tool::{select_action, ToolError};

#[test]
fn commands_run_sandboxed_in_the_workspace() {
    let c = build_command("echo hi", None, "/tmp/claw10/a");
    assert_eq!(c.program, "sh");
    assert_eq!(c.args, vec!["-c", "echo hi"]);
    assert_eq!(c.cwd, "/tmp/claw10/a");
    assert_eq!(c.path, "/usr/local/sbin:/usr/local/bin:/usr/sbin:/usr/bin:/sbin:/bin");
    assert!(c.env_remove.iter().any(|v| v == "LD_PRELOAD"));
    assert_eq!(c.env_remove.len(), 17);
    assert_eq!(dangerous_env_vars().last().unwrap(), "CLASSPATH");
    let c = build_command("ls", Some("/bin"), "/w");
    assert_eq!(c.path, "/bin");
}

#[test]
fn exec_timeouts() {
    let s = 1_000_000_000u128;
    assert!(!exec_timed_out(29 * s, 29 * s, 30, 0));
    assert!(exec_timed_out(30 * s, 0, 30, 0));
    assert!(!exec_timed_out(5 * s, 100 * s, 30, 0));
    assert!(exec_timed_out(5 * s, 4 * s, 30, 4));
    assert!(!exec_timed_out(5 * s, 3 * s, 30, 4));
    assert!(exec_timed_out(0, 0, 0, 0));
}

#[test]
fn spawn_poll_kill_list() {
    let mut t = ShellTool::new();
    let a = t.register(4242, "sleep 10");
    let b = t.register(4243, "sleep 20");
    assert_eq!((a, b), (1, 2));
    let p = t.poll(a, false).unwrap();
    assert_eq!((p.id, p.sys_pid, p.command.as_str()), (1, 4242, "sleep 10"));
    assert_eq!(t.poll(a, true).unwrap().id, 1);
    assert_eq!(t.poll(a, false).unwrap_err(), ToolError::InvalidArguments("no background process with pid 1".into()));
    assert_eq!(t.poll(0, false).unwrap_err(), ToolError::InvalidArguments("'pid' is required".into()));
    let c = t.register(4244, "yes");
    assert_eq!(c, 3);
    let listed = t.list(&vec![c]);
    assert_eq!(listed.len(), 1);
    assert_eq!(listed[0].id, b);
    assert_eq!(t.kill(b).unwrap().sys_pid, 4243);
    assert!(t.kill(b).is_err());
    assert!(t.list(&vec![]).is_empty());
}

#[test]
fn kill_signals_take_a_signed_pid() {
    assert_eq!(signal_args("-TERM", 77), vec!["-TERM", "77"]);
    assert_eq!(signal_args("-0", 4_294_967_295), vec!["-0", "-1"]);
}

#[test]
fn shell_actions() {
    let valid = ["exec", "spawn", "poll", "kill", "list"];
    assert_eq!(select_action("shell", None, "exec", &valid), Ok(0));
    assert_eq!(select_action("shell", Some("list"), "exec", &valid), Ok(4));
    assert_eq!(
        select_action("shell", Some("nope"), "exec", &valid),
        Err(ToolError::InvalidArguments("unknown shell action: 'nope'. Valid: exec, spawn, poll, kill, list".into()))
    );
}
