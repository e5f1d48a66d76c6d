//! The shell tool's rules: the sandboxed `sh -c` command line, when an
//! `exec` run is cut short, and the table of background processes that
//! `spawn`, `poll`, `kill` and `list` keep.
//!
//! Starting processes, reading their output and waiting on them is the
//! caller's; it hands in what it observed (elapsed time, whether a process
//! has exited).

use vstd::prelude::*;
use crate::text::{append_chars, append_str, fmt_u64, int_decimal, lit, nat_decimal, string_from_chars, strings_view};
use crate::tool::{invalid_arguments, ToolError, ToolErrorView};

verus! {

/// Environment variables removed before a command runs: loader and
/// interpreter hooks that could inject code.
pub open spec fn dangerous_env() -> Seq<Seq<char>> {
    seq![
        "LD_PRELOAD"@,
        "LD_LIBRARY_PATH"@,
        "LD_AUDIT"@,
        "LD_DEBUG"@,
        "LD_ORIGIN_PATH"@,
        "DYLD_INSERT_LIBRARIES"@,
        "DYLD_LIBRARY_PATH"@,
        "BASH_ENV"@,
        "ENV"@,
        "SHELLOPTS"@,
        "IFS"@,
        "PERL5LIB"@,
        "PYTHONPATH"@,
        "RUBYLIB"@,
        "RUBYOPT"@,
        "GEM_PATH"@,
        "CLASSPATH"@,
    ]
}

/// `PATH` when the environment has none.
pub open spec fn default_path() -> Seq<char> {
    "/usr/local/sbin:/usr/local/bin:/usr/sbin:/usr/bin:/sbin:/bin"@
}

/// How a shell command is started: `sh -c <command>` in the workspace, with
/// the dangerous variables removed and `PATH` set.
#[derive(Debug, Clone, PartialEq, Eq)]
pub struct SandboxedCommand {
    pub program: String,
    pub args: Vec<String>,
    pub env_remove: Vec<String>,
    pub path: String,
    pub cwd: String,
}

/// The variables to remove, in order.
pub fn dangerous_env_vars() -> (v: Vec<String>)
    ensures
        strings_view(v@) == dangerous_env(),
{
    let mut v: Vec<String> = Vec::new();
    v.push(lit("LD_PRELOAD"));
    v.push(lit("LD_LIBRARY_PATH"));
    v.push(lit("LD_AUDIT"));
    v.push(lit("LD_DEBUG"));
    v.push(lit("LD_ORIGIN_PATH"));
    v.push(lit("DYLD_INSERT_LIBRARIES"));
    v.push(lit("DYLD_LIBRARY_PATH"));
    v.push(lit("BASH_ENV"));
    v.push(lit("ENV"));
    v.push(lit("SHELLOPTS"));
    v.push(lit("IFS"));
    v.push(lit("PERL5LIB"));
    v.push(lit("PYTHONPATH"));
    v.push(lit("RUBYLIB"));
    v.push(lit("RUBYOPT"));
    v.push(lit("GEM_PATH"));
    v.push(lit("CLASSPATH"));
    assert(strings_view(v@) =~= dangerous_env());
    v
}

/// The sandboxed command line for `command`, given the caller's `PATH`
/// (if set) and the workspace directory.
pub fn build_command(command: &str, env_path: Option<&str>, workspace_dir: &str) -> (c: SandboxedCommand)
    ensures
        c.program@ == "sh"@,
        strings_view(c.args@) == seq!["-c"@, command@],
        strings_view(c.env_remove@) == dangerous_env(),
        c.path@ == (match env_path {
            Some(p) => p@,
            None => default_path(),
        }),
        c.cwd@ == workspace_dir@,
{
    let mut args: Vec<String> = Vec::new();
    args.push(lit("-c"));
    args.push(lit(command));
    assert(strings_view(args@) =~= seq!["-c"@, command@]);
    let path = match env_path {
        Some(p) => lit(p),
        None => lit("/usr/local/sbin:/usr/local/bin:/usr/sbin:/usr/bin:/sbin:/bin"),
    };
    SandboxedCommand {
        program: lit("sh"),
        args,
        env_remove: dangerous_env_vars(),
        path,
        cwd: lit(workspace_dir),
    }
}

/// Whether an `exec` run is cut short: the total timeout has passed, or an
/// idle timeout is set and has passed since output was last seen. Times are
/// in nanoseconds, timeouts in seconds.
pub open spec fn exec_timed_out_spec(elapsed_ns: u128, idle_ns: u128, timeout_total: u64, timeout_idle: u64) -> bool {
    elapsed_ns >= timeout_total * 1_000_000_000 || (timeout_idle > 0 && idle_ns >= timeout_idle
        * 1_000_000_000)
}

pub fn exec_timed_out(elapsed_ns: u128, idle_ns: u128, timeout_total: u64, timeout_idle: u64) -> (b: bool)
    ensures
        b == exec_timed_out_spec(elapsed_ns, idle_ns, timeout_total, timeout_idle),
{
    let total: u128 = timeout_total as u128 * 1_000_000_000;
    let idle: u128 = timeout_idle as u128 * 1_000_000_000;
    elapsed_ns >= total || (timeout_idle > 0 && idle_ns >= idle)
}

/// A process started by `spawn`: the tool's id for it, the system pid and
/// the command it runs.
#[derive(Debug, Clone, PartialEq, Eq)]
pub struct BackgroundProcess {
    pub id: u64,
    pub sys_pid: u32,
    pub command: String,
}

/// Execute shell commands, and keep track of the ones started in the background.
pub struct ShellTool {
    procs: Vec<BackgroundProcess>,
    next_pid: u64,
}

pub open spec fn ids_of(s: Seq<BackgroundProcess>) -> Seq<u64> {
    s.map_values(|p: BackgroundProcess| p.id)
}

/// A table of background processes as a map from id to (system pid, command).
pub open spec fn table_of(s: Seq<BackgroundProcess>) -> Map<u64, (u32, Seq<char>)>
    decreases s.len(),
{
    if s.len() == 0 {
        Map::empty()
    } else {
        table_of(s.drop_last()).insert(s.last().id, (s.last().sys_pid, s.last().command@))
    }
}

/// `no background process with pid <pid>`
pub open spec fn no_process_text(pid: u64) -> Seq<char> {
    "no background process with pid "@ + nat_decimal(pid as nat)
}

proof fn lemma_table_contains(s: Seq<BackgroundProcess>, id: u64)
    ensures
        table_of(s).contains_key(id) <==> ids_of(s).contains(id),
    decreases s.len(),
{
    if s.len() > 0 {
        lemma_table_contains(s.drop_last(), id);
        assert(ids_of(s.drop_last()) =~= ids_of(s).drop_last());
        if ids_of(s).contains(id) && s.last().id != id {
            let k = choose|k: int| 0 <= k < ids_of(s).len() && ids_of(s)[k] == id;
            assert(k != s.len() - 1);
            assert(ids_of(s.drop_last())[k] == id);
        }
        if ids_of(s.drop_last()).contains(id) {
            let k = choose|k: int| 0 <= k < ids_of(s.drop_last()).len() && ids_of(s.drop_last())[k] == id;
            assert(ids_of(s)[k] == id);
        }
        if s.last().id == id {
            assert(ids_of(s)[s.len() - 1] == id);
        }
    }
}

/// With unique ids, the entry at `i` is what the table holds for its id.
proof fn lemma_table_at(s: Seq<BackgroundProcess>, i: int)
    requires
        ids_of(s).no_duplicates(),
        0 <= i < s.len(),
    ensures
        table_of(s).contains_key(s[i].id),
        table_of(s)[s[i].id] == (s[i].sys_pid, s[i].command@),
    decreases s.len(),
{
    if i < s.len() - 1 {
        assert(ids_of(s.drop_last()) =~= ids_of(s).drop_last());
        assert(ids_of(s)[i] != ids_of(s)[s.len() - 1]);
        assert(s.drop_last()[i] == s[i]);
        lemma_table_at(s.drop_last(), i);
    }
}

/// Removing the entry at `i` removes its id from the table.
proof fn lemma_table_remove(s: Seq<BackgroundProcess>, i: int)
    requires
        ids_of(s).no_duplicates(),
        0 <= i < s.len(),
    ensures
        table_of(s.remove(i)) == table_of(s).remove(s[i].id),
        ids_of(s.remove(i)) == ids_of(s).remove(i),
    decreases s.len(),
{
    assert(ids_of(s.remove(i)) =~= ids_of(s).remove(i));
    if i == s.len() - 1 {
        assert(s.remove(i) =~= s.drop_last());
        lemma_table_contains(s.drop_last(), s[i].id);
        assert(ids_of(s.drop_last()) =~= ids_of(s).drop_last());
        assert(!ids_of(s.drop_last()).contains(s[i].id)) by {
            if ids_of(s.drop_last()).contains(s[i].id) {
                let k = choose|k: int| 0 <= k < ids_of(s.drop_last()).len() && ids_of(s.drop_last())[k] == s[i].id;
                assert(ids_of(s)[k] == ids_of(s)[i]);
            }
        }
        assert(table_of(s.drop_last()) =~= table_of(s).remove(s[i].id));
    } else {
        let t = s.drop_last();
        assert(ids_of(t) =~= ids_of(s).drop_last());
        assert(t[i] == s[i]);
        lemma_table_remove(t, i);
        assert(s.remove(i) =~= t.remove(i).push(s.last()));
        assert(s.remove(i).drop_last() =~= t.remove(i));
        assert(s.remove(i).last() == s.last());
        assert(s.last().id != s[i].id) by {
            assert(ids_of(s)[s.len() - 1] != ids_of(s)[i]);
        }
        assert(table_of(s.remove(i)) =~= table_of(s).remove(s[i].id));
    }
}

impl ShellTool {
    /// No id occurs twice.
    pub closed spec fn wf(&self) -> bool {
        ids_of(self.procs@).no_duplicates()
    }

    /// The background processes: id to (system pid, command).
    pub closed spec fn processes(&self) -> Map<u64, (u32, Seq<char>)> {
        table_of(self.procs@)
    }

    /// The id the next `spawn` gets.
    pub closed spec fn next_id(&self) -> u64 {
        self.next_pid
    }

    pub fn new() -> (t: ShellTool)
        ensures
            t.wf(),
            t.processes() == Map::<u64, (u32, Seq<char>)>::empty(),
            t.next_id() == 1,
    {
        ShellTool { procs: Vec::new(), next_pid: 1 }
    }

    fn position(&self, id: u64) -> (r: Option<usize>)
        requires
            self.wf(),
        ensures
            match r {
                Some(i) => i < self.procs@.len() && self.procs@[i as int].id == id,
                None => !self.processes().contains_key(id),
            },
    {
        let mut i: usize = 0;
        while i < self.procs.len()
            invariant
                i <= self.procs@.len(),
                forall|j: int| 0 <= j < i ==> self.procs@[j].id != id,
            decreases self.procs.len() - i,
        {
            if self.procs[i].id == id {
                return Some(i);
            }
            i = i + 1;
        }
        proof {
            lemma_table_contains(self.procs@, id);
            if ids_of(self.procs@).contains(id) {
                let k = choose|k: int| 0 <= k < ids_of(self.procs@).len() && ids_of(self.procs@)[k] == id;
                assert(self.procs@[k].id == id);
            }
        }
        None
    }

    fn take_at(&mut self, i: usize) -> (p: BackgroundProcess)
        requires
            old(self).wf(),
            i < old(self).procs@.len(),
        ensures
            final(self).wf(),
            p == old(self).procs@[i as int],
            final(self).processes() == old(self).processes().remove(p.id),
            final(self).next_id() == old(self).next_id(),
            old(self).processes().contains_key(p.id),
            old(self).processes()[p.id] == (p.sys_pid, p.command@),
    {
        proof {
            lemma_table_remove(self.procs@, i as int);
            lemma_table_at(self.procs@, i as int);
        }
        let ghost before = self.procs@;
        let p = self.procs.remove(i);
        proof {
            assert(self.procs@ =~= before.remove(i as int));
            assert(ids_of(before.remove(i as int)) =~= ids_of(before).remove(i as int));
        }
        p
    }

    /// Records a process started by `spawn` and returns its id; ids count up
    /// from 1 (an id in use is replaced, as a map insert does).
    pub fn register(&mut self, sys_pid: u32, command: &str) -> (id: u64)
        requires
            old(self).wf(),
        ensures
            final(self).wf(),
            id == old(self).next_id(),
            final(self).next_id() == old(self).next_id().wrapping_add(1),
            final(self).processes() == old(self).processes().insert(id, (sys_pid, command@)),
    {
        let id = self.next_pid;
        self.next_pid = self.next_pid.wrapping_add(1);
        if let Some(i) = self.position(id) {
            let _old = self.take_at(i);
        }
        let ghost before = self.procs@;
        proof {
            lemma_table_contains(before, id);
        }
        self.procs.push(BackgroundProcess { id, sys_pid, command: lit(command) });
        proof {
            assert(self.procs@.drop_last() =~= before);
            assert(ids_of(self.procs@) =~= ids_of(before).push(id));
            assert(ids_of(self.procs@).no_duplicates()) by {
                assert forall|a: int, b: int| 0 <= a < b < ids_of(self.procs@).len() implies ids_of(self.procs@)[a]
                    != ids_of(self.procs@)[b] by {
                    if b == ids_of(self.procs@).len() - 1 {
                        assert(ids_of(before)[a] == ids_of(self.procs@)[a]);
                        if ids_of(before)[a] == id {
                            assert(ids_of(before).contains(id));
                        }
                    } else {
                        assert(ids_of(before)[a] == ids_of(self.procs@)[a]);
                        assert(ids_of(before)[b] == ids_of(self.procs@)[b]);
                    }
                }
            }
            assert(table_of(self.procs@) =~= table_of(before).insert(id, (sys_pid, command@)));
        }
        id
    }

    /// `poll`: the process with id `pid`, which is dropped from the table
    /// when it has `finished`. A zero pid is refused, an unknown one too.
    pub fn poll(&mut self, pid: u64, finished: bool) -> (r: Result<BackgroundProcess, ToolError>)
        requires
            old(self).wf(),
        ensures
            final(self).wf(),
            final(self).next_id() == old(self).next_id(),
            pid == 0 ==> (r matches Err(e) && e@ == ToolErrorView::InvalidArguments("'pid' is required"@)),
            pid != 0 && !old(self).processes().contains_key(pid) ==> (r matches Err(e) && e@
                == ToolErrorView::InvalidArguments(no_process_text(pid))),
            pid != 0 && old(self).processes().contains_key(pid) ==> (r matches Ok(p) && p.id == pid && (p.sys_pid, p.command@)
                == old(self).processes()[pid]),
            r is Ok && finished ==> final(self).processes() == old(self).processes().remove(pid),
            !(r is Ok && finished) ==> final(self).processes() == old(self).processes(),
    {
        if pid == 0 {
            return Err(invalid_arguments(lit("'pid' is required")));
        }
        match self.position(pid) {
            None => Err(no_process(pid)),
            Some(i) => {
                if finished {
                    Ok(self.take_at(i))
                } else {
                    proof {
                        lemma_table_at(self.procs@, i as int);
                    }
                    let p = &self.procs[i];
                    Ok(BackgroundProcess { id: p.id, sys_pid: p.sys_pid, command: p.command.clone() })
                }
            },
        }
    }

    /// `kill`: takes the process with id `pid` out of the table (the caller
    /// then signals it). A zero pid is refused, an unknown one too.
    pub fn kill(&mut self, pid: u64) -> (r: Result<BackgroundProcess, ToolError>)
        requires
            old(self).wf(),
        ensures
            final(self).wf(),
            final(self).next_id() == old(self).next_id(),
            pid == 0 ==> (r matches Err(e) && e@ == ToolErrorView::InvalidArguments("'pid' is required"@)),
            pid != 0 && !old(self).processes().contains_key(pid) ==> (r matches Err(e) && e@
                == ToolErrorView::InvalidArguments(no_process_text(pid))),
            pid != 0 && old(self).processes().contains_key(pid) ==> (r matches Ok(p) && p.id == pid && (p.sys_pid, p.command@)
                == old(self).processes()[pid]),
            r is Ok ==> final(self).processes() == old(self).processes().remove(pid),
            r is Err ==> final(self).processes() == old(self).processes(),
    {
        if pid == 0 {
            return Err(invalid_arguments(lit("'pid' is required")));
        }
        match self.position(pid) {
            None => Err(no_process(pid)),
            Some(i) => Ok(self.take_at(i)),
        }
    }

    /// `list`: drops the processes that have finished (their ids are given),
    /// then returns those left.
    pub fn list(&mut self, finished: &Vec<u64>) -> (r: Vec<BackgroundProcess>)
        requires
            old(self).wf(),
        ensures
            final(self).wf(),
            final(self).next_id() == old(self).next_id(),
            final(self).processes() == old(self).processes().restrict(
                old(self).processes().dom().filter(|id: u64| !finished@.contains(id)),
            ),
            r@.len() == final(self).processes().len(),
            forall|i: int|
                0 <= i < r@.len() ==> final(self).processes().contains_key(#[trigger] r@[i].id)
                    && final(self).processes()[r@[i].id] == (r@[i].sys_pid, r@[i].command@),
    {
        let ghost start = self.processes();
        let mut k: usize = 0;
        while k < finished.len()
            invariant
                self.wf(),
                self.next_id() == old(self).next_id(),
                k <= finished@.len(),
                self.processes() == start.restrict(start.dom().filter(|id: u64| !finished@.take(k as int).contains(id))),
            decreases finished.len() - k,
        {
            let id = finished[k];
            let ghost before = self.processes();
            if let Some(i) = self.position(id) {
                let _gone = self.take_at(i);
            }
            proof {
                let t1 = finished@.take(k + 1);
                let t0 = finished@.take(k as int);
                assert(t1 =~= t0.push(id));
                assert forall|x: u64| #[trigger] t1.contains(x) <==> (t0.contains(x) || x == id) by {
                    if t1.contains(x) {
                        let j = choose|j: int| 0 <= j < t1.len() && t1[j] == x;
                        if j < k {
                            assert(t0[j] == x);
                        }
                    }
                    if t0.contains(x) {
                        let j = choose|j: int| 0 <= j < t0.len() && t0[j] == x;
                        assert(t1[j] == x);
                    }
                    if x == id {
                        assert(t1[k as int] == x);
                    }
                }
                assert(self.processes() =~= start.restrict(start.dom().filter(|x: u64| !t1.contains(x))));
            }
            k = k + 1;
        }
        proof {
            assert(finished@.take(finished@.len() as int) =~= finished@);
        }
        let mut out: Vec<BackgroundProcess> = Vec::new();
        let mut i: usize = 0;
        while i < self.procs.len()
            invariant
                self.wf(),
                i <= self.procs@.len(),
                out@.len() == i,
                forall|j: int| 0 <= j < i ==> #[trigger] out@[j] == self.procs@[j],
            decreases self.procs.len() - i,
        {
            let p = &self.procs[i];
            out.push(BackgroundProcess { id: p.id, sys_pid: p.sys_pid, command: p.command.clone() });
            i = i + 1;
        }
        proof {
            assert forall|j: int| 0 <= j < out@.len() implies self.processes().contains_key(#[trigger] out@[j].id)
                && self.processes()[out@[j].id] == (out@[j].sys_pid, out@[j].command@) by {
                lemma_table_at(self.procs@, j);
            }
            lemma_table_len(self.procs@);
        }
        out
    }
}

/// With unique ids the table has one entry per process.
proof fn lemma_table_len(s: Seq<BackgroundProcess>)
    requires
        ids_of(s).no_duplicates(),
    ensures
        table_of(s).len() == s.len(),
        table_of(s).dom().finite(),
    decreases s.len(),
{
    if s.len() > 0 {
        let t = s.drop_last();
        assert(ids_of(t) =~= ids_of(s).drop_last());
        lemma_table_len(t);
        lemma_table_contains(t, s.last().id);
        assert(!ids_of(t).contains(s.last().id)) by {
            if ids_of(t).contains(s.last().id) {
                let k = choose|k: int| 0 <= k < ids_of(t).len() && ids_of(t)[k] == s.last().id;
                assert(ids_of(s)[k] == ids_of(s)[s.len() - 1]);
            }
        }
    }
}

fn no_process(pid: u64) -> (e: ToolError)
    ensures
        e@ == ToolErrorView::InvalidArguments(no_process_text(pid)),
{
    let mut v: Vec<char> = Vec::new();
    append_str(&mut v, "no background process with pid ");
    append_chars(&mut v, &fmt_u64(pid));
    ToolError::InvalidArguments(string_from_chars(&v))
}

/// The `kill` arguments that send `signal` (such as `-TERM`, `-0`, `-KILL`)
/// to a system pid, which `kill` is given as a signed number.
pub fn signal_args(signal: &str, sys_pid: u32) -> (args: Vec<String>)
    ensures
        strings_view(args@) == seq![signal@, int_decimal((sys_pid as i32) as int)],
{
    let mut a: Vec<String> = Vec::new();
    a.push(lit(signal));
    let p: i32 = sys_pid as i32;
    a.push(crate::text::i64_text(p as i64));
    assert(strings_view(a@) =~= seq![signal@, int_decimal((sys_pid as i32) as int)]);
    a
}

} // verus!
