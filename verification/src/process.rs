//! Process introspection: reading `ps` rows and `/proc/<pid>/status`,
//! filtering, and the process hierarchy.
//!
//! Running `ps`, reading `/proc` and sending signals is left to the
//! caller; the functions here take the text those produce.

use vstd::prelude::*;
use vstd::multiset::Multiset;
use crate::text::{
    append_chars, append_str, chars_of, contains_ignore_case, contains_seq, join_spec,
    lines_spec, lowercase, nat_decimal, parse_u64, parse_u64_spec, split_lines, split_words,
    string_from_chars, trim, trim_spec, words, lit, u64_text, strings_view,
};
use crate::store::starts_with;
use crate::cron::slice_suffix;
use crate::tool::{command_line, execution_failed, invalid_arguments, runs, CommandLine, ToolError, ToolErrorView};

verus! {

/// Manage system processes using `ps`, `kill`, and `/proc`.
#[derive(Debug, Clone, Copy, PartialEq, Eq)]
pub struct ProcessTool;

impl ProcessTool {
    pub fn new() -> (t: ProcessTool)
        ensures
            t == ProcessTool,
    {
        ProcessTool
    }
}

/// One row of `ps -eo pid,ppid,user,%cpu,%mem,vsz,rss,tty,stat,start,time,args`.
/// The two percentages are kept as the text `ps` printed.
#[derive(Debug, Clone)]
pub struct ProcEntry {
    pub pid: u64,
    pub ppid: u64,
    pub user: String,
    pub cpu_percent: String,
    pub mem_percent: String,
    pub vsz_kb: u64,
    pub rss_kb: u64,
    pub tty: String,
    pub status: String,
    pub start: String,
    pub time: String,
    pub name: String,
    pub command: String,
}

pub open spec fn u64_or_zero(s: Seq<char>) -> u64 {
    match parse_u64_spec(s) {
        Some(v) => v,
        None => 0,
    }
}

/// What a `ps` row holds: at least eleven whitespace-separated fields, the
/// first two numbers (pid, ppid), the arguments from the twelfth field on
/// joined by single spaces, and the name being the first argument.
pub open spec fn ps_line_spec(line: Seq<char>, e: ProcEntry) -> bool {
    let f = words(trim_spec(line));
    &&& f.len() >= 11
    &&& parse_u64_spec(f[0]) == Some(e.pid)
    &&& parse_u64_spec(f[1]) == Some(e.ppid)
    &&& e.user@ == f[2]
    &&& e.cpu_percent@ == f[3]
    &&& e.mem_percent@ == f[4]
    &&& e.vsz_kb == u64_or_zero(f[5])
    &&& e.rss_kb == u64_or_zero(f[6])
    &&& e.tty@ == f[7]
    &&& e.status@ == f[8]
    &&& e.start@ == f[9]
    &&& e.time@ == f[10]
    &&& e.command@ == join_spec(f.skip(11), " "@)
    &&& e.name@ == (if f.len() > 11 { f[11] } else { Seq::<char>::empty() })
}

/// Whether a `ps` row parses: enough fields, and numeric pid and ppid.
pub open spec fn ps_line_parses(line: Seq<char>) -> bool {
    let f = words(trim_spec(line));
    f.len() >= 11 && parse_u64_spec(f[0]) is Some && parse_u64_spec(f[1]) is Some
}

fn to_string(v: &Vec<char>) -> (s: String)
    ensures
        s@ == v@,
{
    string_from_chars(v.as_slice())
}

fn join_from(f: &Vec<Vec<char>>, start: usize) -> (s: Vec<char>)
    requires
        start <= f@.len(),
    ensures
        s@ == join_spec(f.deep_view().skip(start as int), " "@),
{
    let ghost fv = f.deep_view();
    let mut out: Vec<char> = Vec::new();
    let mut i: usize = start;
    assert(fv.skip(start as int).take(0) =~= Seq::<Seq<char>>::empty());
    while i < f.len()
        invariant
            fv == f.deep_view(),
            start <= i <= fv.len(),
            out@ == join_spec(fv.skip(start as int).take(i - start), " "@),
        decreases f.len() - i,
    {
        let ghost t = fv.skip(start as int).take(i + 1 - start);
        proof {
            assert(t.drop_last() =~= fv.skip(start as int).take(i - start));
            assert(t.last() == fv[i as int]);
            assert(f@[i as int]@ == fv[i as int]);
        }
        if i > start {
            append_str(&mut out, " ");
        } else {
            assert(t.len() == 1);
        }
        append_chars(&mut out, f[i].as_slice());
        i = i + 1;
    }
    assert(fv.skip(start as int).take(i - start) =~= fv.skip(start as int));
    out
}

/// Parses one row of `ps` output (see [`ps_line_spec`]).
pub fn parse_ps_line(line: &str) -> (r: Option<ProcEntry>)
    ensures
        r is Some <==> ps_line_parses(line@),
        r matches Some(e) ==> ps_line_spec(line@, e),
{
    let chars = chars_of(line);
    let t = trim(&chars);
    let f = split_words(&t);
    let ghost fv = f.deep_view();
    if f.len() < 11 {
        return None;
    }
    proof {
        assert forall|k: int| 0 <= k < fv.len() implies f@[k]@ == #[trigger] fv[k] by {}
    }
    let pid = match parse_u64(f[0].as_slice()) {
        Some(p) => p,
        None => {
            return None;
        },
    };
    let ppid = match parse_u64(f[1].as_slice()) {
        Some(p) => p,
        None => {
            return None;
        },
    };
    let vsz: u64 = match parse_u64(f[5].as_slice()) {
        Some(v) => v,
        None => 0,
    };
    let rss: u64 = match parse_u64(f[6].as_slice()) {
        Some(v) => v,
        None => 0,
    };
    let cmd = join_from(&f, 11);
    let name: String = if f.len() > 11 {
        to_string(&f[11])
    } else {
        String::new()
    };
    Some(
        ProcEntry {
            pid,
            ppid,
            user: to_string(&f[2]),
            cpu_percent: to_string(&f[3]),
            mem_percent: to_string(&f[4]),
            vsz_kb: vsz,
            rss_kb: rss,
            tty: to_string(&f[7]),
            status: to_string(&f[8]),
            start: to_string(&f[9]),
            time: to_string(&f[10]),
            name,
            command: string_from_chars(&cmd),
        },
    )
}

/// The rows of `ps` output that parse, in order.
pub open spec fn parsed_rows(ls: Seq<Seq<char>>) -> Seq<Seq<char>> {
    ls.filter(|l: Seq<char>| ps_line_parses(l))
}

/// Parses every row of `ps` output, skipping those that do not parse.
pub fn parse_ps_output(output: &str) -> (r: Vec<ProcEntry>)
    ensures
        r@.len() == parsed_rows(lines_spec(output@)).len(),
        forall|i: int|
            0 <= i < r@.len() ==> ps_line_spec(#[trigger] parsed_rows(lines_spec(output@))[i], r@[i]),
{
    let chars = chars_of(output);
    let ls = split_lines(&chars);
    let ghost lv = ls.deep_view();
    let ghost f = |l: Seq<char>| ps_line_parses(l);
    let mut out: Vec<ProcEntry> = Vec::new();
    let mut i: usize = 0;
    while i < ls.len()
        invariant
            lv == ls.deep_view(),
            lv == lines_spec(output@),
            i <= lv.len(),
            f == (|l: Seq<char>| ps_line_parses(l)),
            out@.len() == lv.take(i as int).filter(f).len(),
            forall|k: int| 0 <= k < out@.len() ==> ps_line_spec(#[trigger] lv.take(i as int).filter(f)[k], out@[k]),
        decreases ls.len() - i,
    {
        let line = string_from_chars(ls[i].as_slice());
        proof {
            assert(ls@[i as int]@ == lv[i as int]);
            assert(lv.take(i + 1).drop_last() =~= lv.take(i as int));
            lv.take(i as int).lemma_filter_push(lv[i as int], f);
            assert(lv.take(i + 1) =~= lv.take(i as int).push(lv[i as int]));
        }
        match parse_ps_line(line.as_str()) {
            Some(e) => {
                out.push(e);
            },
            None => {},
        }
        i = i + 1;
    }
    assert(lv.take(lv.len() as int) =~= lv);
    out
}

/// The value on the first `key:` line of `/proc/<pid>/status`, trimmed.
pub open spec fn status_value_spec(ls: Seq<Seq<char>>, key: Seq<char>) -> Option<Seq<char>>
    decreases ls.len(),
{
    if ls.len() == 0 {
        None
    } else if (key + ":"@).is_prefix_of(ls[0]) {
        Some(trim_spec(ls[0].skip(key.len() as int + 1)))
    } else {
        status_value_spec(ls.drop_first(), key)
    }
}

/// Reads `key: value` out of the text of `/proc/<pid>/status`.
pub fn parse_status_value(content: &str, key: &str) -> (r: Option<String>)
    ensures
        opt_chars(r) == status_value_spec(lines_spec(content@), key@),
{
    let chars = chars_of(content);
    let ls = split_lines(&chars);
    let ghost lv = ls.deep_view();
    let mut prefix = chars_of(key);
    prefix.push(':');
    let ghost pv = prefix@;
    assert(pv =~= key@ + ":"@) by {
        reveal_strlit(":");
    }
    let mut i: usize = 0;
    assert(lv.skip(0) =~= lv);
    while i < ls.len()
        invariant
            lv == ls.deep_view(),
            lv == lines_spec(content@),
            pv == prefix@,
            pv == key@ + ":"@,
            i <= lv.len(),
            status_value_spec(lv, key@) == status_value_spec(lv.skip(i as int), key@),
        decreases ls.len() - i,
    {
        let line: &Vec<char> = &ls[i];
        proof {
            assert(line@ == lv[i as int]);
            assert(lv.skip(i as int)[0] == lv[i as int]);
            assert(lv.skip(i as int).drop_first() =~= lv.skip(i + 1));
        }
        if starts_with(line.as_slice(), prefix.as_slice()) {
            let rest = slice_suffix(line.as_slice(), prefix.len());
            let v = trim(&rest);
            proof {
                reveal_strlit(":");
                assert(prefix@.len() == key@.len() + 1);
                assert((key@ + ":"@).is_prefix_of(lv.skip(i as int)[0]));
                assert(rest@ == lv[i as int].skip(key@.len() as int + 1));
            }
            return Some(string_from_chars(&v));
        }
        i = i + 1;
    }
    assert(lv.skip(i as int) =~= Seq::<Seq<char>>::empty());
    None
}

pub open spec fn opt_chars(o: Option<String>) -> Option<Seq<char>> {
    match o {
        Some(s) => Some(s@),
        None => None,
    }
}

/// The number a status value starts with (`VmRSS:  1234 kB` gives 1234).
pub open spec fn leading_number(v: Seq<char>) -> Option<u64> {
    let ws = words(v);
    if ws.len() > 0 {
        parse_u64_spec(ws[0])
    } else {
        None
    }
}

pub fn parse_leading_number(v: &str) -> (r: Option<u64>)
    ensures
        r == leading_number(v@),
{
    let chars = chars_of(v);
    let ws = split_words(&chars);
    if ws.len() > 0 {
        assert(ws@[0]@ == ws.deep_view()[0]);
        parse_u64(ws[0].as_slice())
    } else {
        None
    }
}

pub fn parse_number(v: &str) -> (r: Option<u64>)
    ensures
        r == parse_u64_spec(v@),
{
    let chars = chars_of(v);
    parse_u64(&chars)
}

/// Whether a process passes the list filter: the filter occurs, ignoring
/// case, in its command, name or user.
pub open spec fn list_filter_spec(e: ProcEntry, filter: Seq<char>) -> bool {
    ||| contains_seq(lowercase(e.command@), lowercase(filter))
    ||| contains_seq(lowercase(e.name@), lowercase(filter))
    ||| contains_seq(lowercase(e.user@), lowercase(filter))
}

pub fn passes_list_filter(e: &ProcEntry, filter: &str) -> (b: bool)
    ensures
        b == list_filter_spec(*e, filter@),
{
    contains_ignore_case(e.command.as_str(), filter) || contains_ignore_case(e.name.as_str(), filter)
        || contains_ignore_case(e.user.as_str(), filter)
}

/// The `pid` argument of `kill` and `monitor`: present and positive, and
/// naming a process that exists.
pub fn check_target_pid(pid: u64, exists: bool) -> (r: Result<(), ToolError>)
    ensures
        r is Ok <==> (pid > 0 && exists),
        r matches Err(e) ==> e@ == (if pid == 0 {
            ToolErrorView::InvalidArguments("'pid' is required and must be > 0"@)
        } else {
            ToolErrorView::ExecutionFailed("process "@ + nat_decimal(pid as nat) + " does not exist"@)
        }),
{
    if pid == 0 {
        return Err(invalid_arguments(String::from_str("'pid' is required and must be > 0")));
    }
    if !exists {
        let mut v: Vec<char> = Vec::new();
        append_str(&mut v, "process ");
        append_chars(&mut v, &crate::text::fmt_u64(pid));
        append_str(&mut v, " does not exist");
        assert(v@ =~= "process "@ + nat_decimal(pid as nat) + " does not exist"@);
        return Err(ToolError::ExecutionFailed(string_from_chars(&v)));
    }
    Ok(())
}

pub open spec fn nul_to_space(c: char) -> char {
    if c == '\0' {
        ' '
    } else {
        c
    }
}

/// `/proc/<pid>/cmdline` made readable: NULs become spaces, then trimmed.
pub fn clean_cmdline(raw: &str) -> (s: String)
    ensures
        s@ == trim_spec(raw@.map_values(|c: char| nul_to_space(c))),
{
    let chars = chars_of(raw);
    let mut v: Vec<char> = Vec::new();
    let mut i: usize = 0;
    while i < chars.len()
        invariant
            chars@ == raw@,
            i <= chars@.len(),
            v@ == chars@.take(i as int).map_values(|c: char| nul_to_space(c)),
        decreases chars.len() - i,
    {
        let c = chars[i];
        v.push(if c == '\0' { ' ' } else { c });
        i = i + 1;
        assert(v@ =~= chars@.take(i as int).map_values(|c: char| nul_to_space(c)));
    }
    assert(chars@.take(chars@.len() as int) =~= chars@);
    let t = trim(&v);
    string_from_chars(&t)
}

/// A node of the process hierarchy.
pub struct TreeNode {
    pub pid: u64,
    pub name: String,
    pub command: String,
    pub children: Vec<TreeNode>,
}

/// A node of the process hierarchy, as a value.
pub struct NodeSpec {
    pub pid: u64,
    pub name: Seq<char>,
    pub command: Seq<char>,
    pub children: Seq<NodeSpec>,
}

/// `n` holds exactly the tree `s`.
pub open spec fn node_is(n: TreeNode, s: NodeSpec) -> bool
    decreases s,
{
    &&& n.pid == s.pid
    &&& n.name@ == s.name
    &&& n.command@ == s.command
    &&& n.children@.len() == s.children.len()
    &&& forall|i: int| 0 <= i < s.children.len() ==> node_is(#[trigger] n.children@[i], s.children[i])
}

/// The trees `v` are exactly the trees `s`, in order.
pub open spec fn forest_is(v: Seq<TreeNode>, s: Seq<NodeSpec>) -> bool {
    &&& v.len() == s.len()
    &&& forall|i: int| 0 <= i < s.len() ==> node_is(#[trigger] v[i], s[i])
}

/// The first process with this pid.
pub open spec fn find_entry(procs: Seq<ProcEntry>, pid: u64) -> Option<ProcEntry>
    decreases procs.len(),
{
    if procs.len() == 0 {
        None
    } else if procs[0].pid == pid {
        Some(procs[0])
    } else {
        find_entry(procs.drop_first(), pid)
    }
}

/// The processes whose parent is `pid`, in order.
pub open spec fn children_of(procs: Seq<ProcEntry>, pid: u64) -> Seq<ProcEntry> {
    procs.filter(|p: ProcEntry| p.ppid == pid)
}

/// The tree filter: the text occurs, ignoring case, in the command or name.
pub open spec fn tree_filter_spec(e: ProcEntry, filter: Seq<char>) -> bool {
    contains_seq(lowercase(e.command@), lowercase(filter)) || contains_seq(lowercase(e.name@), lowercase(filter))
}

/// The hierarchy below `pid`, `depth` levels deep. A filter applies to this
/// node only: a node that does not match it, and has no children shown, is left out.
pub open spec fn subtree_spec(procs: Seq<ProcEntry>, pid: u64, depth: nat, filter: Option<Seq<char>>) -> Option<NodeSpec>
    decreases depth, 0nat, 0nat,
{
    if depth == 0 {
        None
    } else {
        match find_entry(procs, pid) {
            None => None,
            Some(e) => {
                let kids = forest_spec(procs, children_of(procs, pid), (depth - 1) as nat);
                let matches = match filter {
                    Some(f) => tree_filter_spec(e, f),
                    None => true,
                };
                if filter is Some && !matches && kids.len() == 0 {
                    None
                } else {
                    Some(NodeSpec { pid, name: e.name@, command: e.command@, children: kids })
                }
            },
        }
    }
}

/// The subtrees of the given processes that are shown, in order.
pub open spec fn forest_spec(procs: Seq<ProcEntry>, kids: Seq<ProcEntry>, depth: nat) -> Seq<NodeSpec>
    decreases depth, 1nat, kids.len(),
{
    if kids.len() == 0 {
        Seq::<NodeSpec>::empty()
    } else {
        let before = forest_spec(procs, kids.drop_last(), depth);
        match subtree_spec(procs, kids.last().pid, depth, None) {
            Some(n) => before.push(n),
            None => before,
        }
    }
}

fn find_proc(procs: &Vec<ProcEntry>, pid: u64) -> (r: Option<usize>)
    ensures
        match r {
            Some(i) => i < procs@.len() && find_entry(procs@, pid) == Some(procs@[i as int]),
            None => find_entry(procs@, pid) is None,
        },
{
    let mut i: usize = 0;
    assert(procs@.skip(0) =~= procs@);
    while i < procs.len()
        invariant
            i <= procs@.len(),
            find_entry(procs@, pid) == find_entry(procs@.skip(i as int), pid),
        decreases procs.len() - i,
    {
        assert(procs@.skip(i as int)[0] == procs@[i as int]);
        assert(procs@.skip(i as int).drop_first() =~= procs@.skip(i + 1));
        if procs[i].pid == pid {
            return Some(i);
        }
        i = i + 1;
    }
    None
}

pub open spec fn entries_at(procs: Seq<ProcEntry>, idx: Seq<usize>) -> Seq<ProcEntry> {
    idx.map_values(|i: usize| procs[i as int])
}

fn children_indices(procs: &Vec<ProcEntry>, pid: u64) -> (r: Vec<usize>)
    ensures
        forall|k: int| 0 <= k < r@.len() ==> r@[k] < procs@.len(),
        entries_at(procs@, r@) == children_of(procs@, pid),
{
    let ghost f = |p: ProcEntry| p.ppid == pid;
    let mut r: Vec<usize> = Vec::new();
    let mut i: usize = 0;
    while i < procs.len()
        invariant
            i <= procs@.len(),
            f == (|p: ProcEntry| p.ppid == pid),
            forall|k: int| 0 <= k < r@.len() ==> r@[k] < i,
            entries_at(procs@, r@) == procs@.take(i as int).filter(f),
        decreases procs.len() - i,
    {
        proof {
            assert(procs@.take(i + 1).drop_last() =~= procs@.take(i as int));
            procs@.take(i as int).lemma_filter_push(procs@[i as int], f);
            assert(procs@.take(i + 1) =~= procs@.take(i as int).push(procs@[i as int]));
        }
        let ghost before = r@;
        if procs[i].ppid == pid {
            r.push(i);
            assert(entries_at(procs@, r@) =~= entries_at(procs@, before).push(procs@[i as int]));
        }
        i = i + 1;
    }
    assert(procs@.take(procs@.len() as int) =~= procs@);
    r
}

fn copy_string(s: &String) -> (r: String)
    ensures
        r@ == s@,
{
    s.clone()
}

fn build_subtree(procs: &Vec<ProcEntry>, pid: u64, depth: u64, filter: Option<&str>) -> (r: Option<TreeNode>)
    ensures
        match r {
            Some(n) => subtree_spec(procs@, pid, depth as nat, opt_str(filter)) matches Some(s) && node_is(n, s),
            None => subtree_spec(procs@, pid, depth as nat, opt_str(filter)) is None,
        },
    decreases depth, 0nat, 0nat,
{
    if depth == 0 {
        return None;
    }
    let at = match find_proc(procs, pid) {
        Some(i) => i,
        None => {
            return None;
        },
    };
    let e: &ProcEntry = &procs[at];
    let kid_idx = children_indices(procs, pid);
    let children = build_forest(procs, &kid_idx, depth - 1);
    let matches: bool = match filter {
        Some(f) => contains_ignore_case(e.command.as_str(), f) || contains_ignore_case(e.name.as_str(), f),
        None => true,
    };
    if filter.is_some() && !matches && children.len() == 0 {
        return None;
    }
    Some(TreeNode { pid, name: copy_string(&e.name), command: copy_string(&e.command), children })
}

fn build_forest(procs: &Vec<ProcEntry>, kid_idx: &Vec<usize>, depth: u64) -> (r: Vec<TreeNode>)
    requires
        forall|k: int| 0 <= k < kid_idx@.len() ==> kid_idx@[k] < procs@.len(),
    ensures
        forest_is(r@, forest_spec(procs@, entries_at(procs@, kid_idx@), depth as nat)),
    decreases depth, 1nat, kid_idx@.len(),
{
    let ghost kids = entries_at(procs@, kid_idx@);
    let mut out: Vec<TreeNode> = Vec::new();
    let mut k: usize = 0;
    while k < kid_idx.len()
        invariant
            forall|j: int| 0 <= j < kid_idx@.len() ==> kid_idx@[j] < procs@.len(),
            kids == entries_at(procs@, kid_idx@),
            k <= kid_idx@.len(),
            forest_is(out@, forest_spec(procs@, kids.take(k as int), depth as nat)),
        decreases kid_idx.len() - k,
    {
        let child_pid = procs[kid_idx[k]].pid;
        proof {
            assert(kids.take(k + 1).drop_last() =~= kids.take(k as int));
            assert(kids.take(k + 1).last() == kids[k as int]);
            assert(kids[k as int].pid == child_pid);
        }
        let ghost before = forest_spec(procs@, kids.take(k as int), depth as nat);
        match build_subtree(procs, child_pid, depth, None) {
            Some(n) => {
                let ghost old_out = out@;
                out.push(n);
                proof {
                    let s = subtree_spec(procs@, child_pid, depth as nat, None).unwrap();
                    assert(forest_spec(procs@, kids.take(k + 1), depth as nat) == before.push(s));
                    assert forall|j: int| 0 <= j < before.push(s).len() implies node_is(#[trigger] out@[j], before.push(s)[j]) by {
                        if j < before.len() {
                            assert(out@[j] == old_out[j]);
                        }
                    }
                }
            },
            None => {
                assert(forest_spec(procs@, kids.take(k + 1), depth as nat) == before);
            },
        }
        k = k + 1;
    }
    assert(kids.take(kid_idx@.len() as int) =~= kids);
    out
}

pub open spec fn opt_str(o: Option<&str>) -> Option<Seq<char>> {
    match o {
        Some(s) => Some(s@),
        None => None,
    }
}

pub open spec fn has_pid(procs: Seq<ProcEntry>, pid: u64) -> bool {
    exists|i: int| 0 <= i < procs.len() && procs[i].pid == pid
}

/// The roots of the hierarchy: pid 1, then every process whose parent is
/// not listed (orphans), in order and without repeats.
pub open spec fn roots_spec(procs: Seq<ProcEntry>, n: nat) -> Seq<u64>
    decreases n,
{
    if n == 0 {
        seq![1u64]
    } else {
        let r = roots_spec(procs, (n - 1) as nat);
        let p = procs[n - 1];
        if p.ppid > 0 && !has_pid(procs, p.ppid) && !r.contains(p.pid) {
            r.push(p.pid)
        } else {
            r
        }
    }
}

/// The shown trees under each root, in order.
pub open spec fn roots_forest(procs: Seq<ProcEntry>, roots: Seq<u64>, depth: nat, filter: Option<Seq<char>>) -> Seq<NodeSpec>
    decreases roots.len(),
{
    if roots.len() == 0 {
        Seq::<NodeSpec>::empty()
    } else {
        let before = roots_forest(procs, roots.drop_last(), depth, filter);
        match subtree_spec(procs, roots.last(), depth, filter) {
            Some(n) => before.push(n),
            None => before,
        }
    }
}

/// The process hierarchy: a tree under each root, `depth` levels deep, a
/// filter applying to the roots.
pub open spec fn process_tree_spec(procs: Seq<ProcEntry>, depth: nat, filter: Option<Seq<char>>) -> Seq<NodeSpec> {
    roots_forest(procs, roots_spec(procs, procs.len()), depth, filter)
}

fn listed(procs: &Vec<ProcEntry>, pid: u64) -> (b: bool)
    ensures
        b == has_pid(procs@, pid),
{
    let mut i: usize = 0;
    while i < procs.len()
        invariant
            i <= procs@.len(),
            forall|j: int| 0 <= j < i ==> procs@[j].pid != pid,
        decreases procs.len() - i,
    {
        if procs[i].pid == pid {
            return true;
        }
        i = i + 1;
    }
    false
}

fn contains_u64(v: &Vec<u64>, x: u64) -> (b: bool)
    ensures
        b == v@.contains(x),
{
    let mut i: usize = 0;
    while i < v.len()
        invariant
            i <= v@.len(),
            forall|j: int| 0 <= j < i ==> v@[j] != x,
        decreases v.len() - i,
    {
        if v[i] == x {
            assert(v@[i as int] == x);
            return true;
        }
        i = i + 1;
    }
    false
}

/// The hierarchy as `ProcessTool`'s `tree` action shows it.
pub fn process_tree(procs: &Vec<ProcEntry>, depth: u64, filter: Option<&str>) -> (r: Vec<TreeNode>)
    ensures
        forest_is(r@, process_tree_spec(procs@, depth as nat, opt_str(filter))),
{
    let mut roots: Vec<u64> = Vec::new();
    roots.push(1);
    let mut i: usize = 0;
    assert(roots@ =~= roots_spec(procs@, 0));
    while i < procs.len()
        invariant
            i <= procs@.len(),
            roots@ == roots_spec(procs@, i as nat),
        decreases procs.len() - i,
    {
        let p: &ProcEntry = &procs[i];
        if p.ppid > 0 && !listed(procs, p.ppid) && !contains_u64(&roots, p.pid) {
            roots.push(p.pid);
        }
        i = i + 1;
    }
    let ghost rs = roots@;
    let mut out: Vec<TreeNode> = Vec::new();
    let mut k: usize = 0;
    while k < roots.len()
        invariant
            rs == roots@,
            k <= rs.len(),
            forest_is(out@, roots_forest(procs@, rs.take(k as int), depth as nat, opt_str(filter))),
        decreases roots.len() - k,
    {
        proof {
            assert(rs.take(k + 1).drop_last() =~= rs.take(k as int));
            assert(rs.take(k + 1).last() == rs[k as int]);
        }
        let ghost before = roots_forest(procs@, rs.take(k as int), depth as nat, opt_str(filter));
        match build_subtree(procs, roots[k], depth, filter) {
            Some(n) => {
                let ghost old_out = out@;
                out.push(n);
                proof {
                    let s = subtree_spec(procs@, rs[k as int], depth as nat, opt_str(filter)).unwrap();
                    assert(roots_forest(procs@, rs.take(k + 1), depth as nat, opt_str(filter)) == before.push(s));
                    assert forall|j: int| 0 <= j < before.push(s).len() implies node_is(#[trigger] out@[j], before.push(s)[j]) by {
                        if j < before.len() {
                            assert(out@[j] == old_out[j]);
                        }
                    }
                }
            },
            None => {},
        }
        k = k + 1;
    }
    assert(rs.take(rs.len() as int) =~= rs);
    out
}

pub open spec fn sorted_by_pid(s: Seq<ProcEntry>) -> bool {
    forall|i: int, j: int| 0 <= i <= j < s.len() ==> s[i].pid <= s[j].pid
}

/// The processes the list filter lets through, in order.
pub open spec fn filtered_procs(procs: Seq<ProcEntry>, filter: Option<Seq<char>>) -> Seq<ProcEntry> {
    match filter {
        Some(f) => procs.filter(|p: ProcEntry| list_filter_spec(p, f)),
        None => procs,
    }
}

/// The list filter searches the command line, the name and the user, ignoring
/// case: a process whose command line (or name, or user) contains the filter
/// is among those listed, and every process listed contains it in one of them.
pub proof fn law_filter_searches_command_name_user(procs: Seq<ProcEntry>, f: Seq<char>, i: int)
    requires
        0 <= i < procs.len(),
    ensures
        (contains_seq(lowercase(procs[i].command@), lowercase(f))
            || contains_seq(lowercase(procs[i].name@), lowercase(f))
            || contains_seq(lowercase(procs[i].user@), lowercase(f)))
            ==> filtered_procs(procs, Some(f)).contains(procs[i]),
        forall|e: ProcEntry| #[trigger] filtered_procs(procs, Some(f)).contains(e) ==> procs.contains(e) && (
            contains_seq(lowercase(e.command@), lowercase(f)) || contains_seq(lowercase(e.name@), lowercase(f))
                || contains_seq(lowercase(e.user@), lowercase(f))),
{
    let pred = |p: ProcEntry| list_filter_spec(p, f);
    if pred(procs[i]) {
        procs.lemma_filter_contains(pred, i);
    }
    assert forall|e: ProcEntry| #[trigger] filtered_procs(procs, Some(f)).contains(e) implies procs.contains(e) && (
        contains_seq(lowercase(e.command@), lowercase(f)) || contains_seq(lowercase(e.name@), lowercase(f))
            || contains_seq(lowercase(e.user@), lowercase(f))) by {
        procs.lemma_filter_contains_rev(pred, e);
    }
}

fn copy_entry(e: &ProcEntry) -> (r: ProcEntry)
    ensures
        r == *e,
{
    ProcEntry {
        pid: e.pid,
        ppid: e.ppid,
        user: e.user.clone(),
        cpu_percent: e.cpu_percent.clone(),
        mem_percent: e.mem_percent.clone(),
        vsz_kb: e.vsz_kb,
        rss_kb: e.rss_kb,
        tty: e.tty.clone(),
        status: e.status.clone(),
        start: e.start.clone(),
        time: e.time.clone(),
        name: e.name.clone(),
        command: e.command.clone(),
    }
}

/// Sorts by pid; entries with equal pids keep their order.
pub fn sort_by_pid(procs: Vec<ProcEntry>) -> (r: Vec<ProcEntry>)
    ensures
        sorted_by_pid(r@),
        r@.to_multiset() == procs@.to_multiset(),
{
    broadcast use vstd::seq_lib::group_to_multiset_ensures, vstd::multiset::group_multiset_axioms;

    let ghost orig = procs@;
    let mut rest = procs;
    let mut out: Vec<ProcEntry> = Vec::new();
    assert(out@.to_multiset() =~= Multiset::<ProcEntry>::empty()) by {
        assert(out@ =~= Seq::<ProcEntry>::empty());
    }
    while rest.len() > 0
        invariant
            sorted_by_pid(out@),
            out@.to_multiset().add(rest@.to_multiset()) == orig.to_multiset(),
        decreases rest.len(),
    {
        let ghost before_rest = rest@;
        let x = rest.pop().unwrap();
        assert(before_rest =~= rest@.push(x));
        let mut pos: usize = 0;
        while pos < out.len() && out[pos].pid < x.pid
            invariant
                pos <= out@.len(),
                forall|j: int| 0 <= j < pos ==> out@[j].pid < x.pid,
            decreases out.len() - pos,
        {
            pos = pos + 1;
        }
        let ghost before_out = out@;
        out.insert(pos, x);
        proof {
            assert(out@ == before_out.insert(pos as int, x));
            assert forall|i: int, j: int| 0 <= i <= j < out@.len() implies out@[i].pid <= out@[j].pid by {
                if i < pos && j < pos {
                    assert(out@[i] == before_out[i] && out@[j] == before_out[j]);
                } else if i < pos && j == pos {
                } else if i < pos {
                    assert(out@[i] == before_out[i] && out@[j] == before_out[j - 1]);
                    assert(before_out[pos as int].pid >= x.pid);
                } else if i == pos && j == pos {
                } else if i == pos {
                    assert(out@[j] == before_out[j - 1]);
                    assert(before_out[pos as int].pid >= x.pid);
                } else {
                    assert(out@[i] == before_out[i - 1] && out@[j] == before_out[j - 1]);
                }
            }
            vstd::seq_lib::to_multiset_insert(before_out, pos as int, x);
            vstd::seq_lib::to_multiset_build(rest@, x);
            assert(out@.to_multiset() == before_out.to_multiset().insert(x));
            assert(before_rest.to_multiset() == rest@.to_multiset().insert(x));
            assert(out@.to_multiset().add(rest@.to_multiset()) =~= before_out.to_multiset().add(before_rest.to_multiset()));
        }
    }
    assert(rest@ =~= Seq::<ProcEntry>::empty());
    assert(rest@.to_multiset() =~= Multiset::<ProcEntry>::empty());
    assert(out@.to_multiset().add(Multiset::<ProcEntry>::empty()) =~= out@.to_multiset());
    out
}

/// The `list` action's selection: the processes the filter lets through,
/// sorted by pid, at most `limit` of them.
pub fn select_processes(procs: &Vec<ProcEntry>, filter: Option<&str>, limit: usize) -> (r: Vec<ProcEntry>)
    ensures
        exists|s: Seq<ProcEntry>|
            sorted_by_pid(s) && s.to_multiset() == filtered_procs(procs@, opt_str(filter)).to_multiset()
                && r@ == (if limit < s.len() {
                s.take(limit as int)
            } else {
                s
            }),
{
    let ghost fs = filtered_procs(procs@, opt_str(filter));
    let mut kept: Vec<ProcEntry> = Vec::new();
    let mut i: usize = 0;
    while i < procs.len()
        invariant
            i <= procs@.len(),
            fs == filtered_procs(procs@, opt_str(filter)),
            kept@ == filtered_procs(procs@.take(i as int), opt_str(filter)),
        decreases procs.len() - i,
    {
        let e: &ProcEntry = &procs[i];
        proof {
            assert(procs@.take(i + 1).drop_last() =~= procs@.take(i as int));
            assert(procs@.take(i + 1) =~= procs@.take(i as int).push(*e));
            match opt_str(filter) {
                Some(f) => {
                    procs@.take(i as int).lemma_filter_push(*e, |p: ProcEntry| list_filter_spec(p, f));
                },
                None => {},
            }
        }
        let keep: bool = match filter {
            Some(f) => passes_list_filter(e, f),
            None => true,
        };
        if keep {
            kept.push(copy_entry(e));
        }
        i = i + 1;
    }
    assert(procs@.take(procs@.len() as int) =~= procs@);
    let mut sorted = sort_by_pid(kept);
    let ghost s = sorted@;
    sorted.truncate(limit);
    proof {
        if limit < s.len() {
            assert(sorted@ == s.subrange(0, limit as int));
            assert(s.subrange(0, limit as int) =~= s.take(limit as int));
        }
    }
    sorted
}

/// The `ps` output format the tool reads.
pub open spec fn ps_format() -> Seq<char> {
    "pid,ppid,user,%cpu,%mem,vsz,rss,tty,stat,start,time,args"@
}

/// `ps -eo <format> --no-headers -w`: every process.
pub fn ps_all_command() -> (c: CommandLine)
    ensures
        runs(c, "ps"@, seq!["-eo"@, ps_format(), "--no-headers"@, "-w"@]),
{
    let mut a: Vec<String> = Vec::new();
    a.push(lit("-eo"));
    a.push(lit("pid,ppid,user,%cpu,%mem,vsz,rss,tty,stat,start,time,args"));
    a.push(lit("--no-headers"));
    a.push(lit("-w"));
    assert(strings_view(a@) =~= seq!["-eo"@, ps_format(), "--no-headers"@, "-w"@]);
    command_line("ps", a)
}

/// `ps -p <pid> -o <format> --no-headers -w`: one process.
pub fn ps_one_command(pid: u64) -> (c: CommandLine)
    ensures
        runs(c, "ps"@, seq!["-p"@, nat_decimal(pid as nat), "-o"@, ps_format(), "--no-headers"@, "-w"@]),
{
    let mut a: Vec<String> = Vec::new();
    a.push(lit("-p"));
    a.push(u64_text(pid));
    a.push(lit("-o"));
    a.push(lit("pid,ppid,user,%cpu,%mem,vsz,rss,tty,stat,start,time,args"));
    a.push(lit("--no-headers"));
    a.push(lit("-w"));
    assert(strings_view(a@) =~= seq!["-p"@, nat_decimal(pid as nat), "-o"@, ps_format(), "--no-headers"@, "-w"@]);
    command_line("ps", a)
}

/// The signal `kill` sends: the `signal` argument, `TERM` by default.
pub open spec fn signal_spec(signal: Option<&str>) -> Seq<char> {
    match signal {
        Some(s) => s@,
        None => "TERM"@,
    }
}

/// `kill -s <signal> <pid>`.
pub fn kill_command(pid: u64, signal: Option<&str>) -> (c: CommandLine)
    ensures
        runs(c, "kill"@, seq!["-s"@, signal_spec(signal), nat_decimal(pid as nat)]),
{
    let sig: &str = match signal {
        Some(s) => s,
        None => "TERM",
    };
    let mut a: Vec<String> = Vec::new();
    a.push(lit("-s"));
    a.push(lit(sig));
    a.push(u64_text(pid));
    assert(strings_view(a@) =~= seq!["-s"@, signal_spec(signal), nat_decimal(pid as nat)]);
    command_line("kill", a)
}

/// A refused signal: `kill -s <signal> <pid> failed: <stderr, trimmed>`.
pub fn kill_failure(pid: u64, signal: Option<&str>, stderr: &str) -> (e: ToolError)
    ensures
        e@ == ToolErrorView::ExecutionFailed(
            "kill -s "@ + signal_spec(signal) + " "@ + nat_decimal(pid as nat) + " failed: "@ + trim_spec(stderr@),
        ),
{
    let sig: &str = match signal {
        Some(s) => s,
        None => "TERM",
    };
    let mut v: Vec<char> = Vec::new();
    append_str(&mut v, "kill -s ");
    append_str(&mut v, sig);
    append_str(&mut v, " ");
    append_chars(&mut v, &crate::text::fmt_u64(pid));
    append_str(&mut v, " failed: ");
    append_chars(&mut v, &trim(&chars_of(stderr)));
    ToolError::ExecutionFailed(string_from_chars(&v))
}

/// What `monitor` reports of `/proc/<pid>/status`.
#[derive(Debug, Clone, PartialEq, Eq)]
pub struct StatusInfo {
    pub name: Option<String>,
    pub state: Option<String>,
    pub uid: Option<String>,
    pub gid: Option<String>,
    pub threads: Option<u64>,
    pub vm_peak_kb: Option<u64>,
    pub vm_size_kb: Option<u64>,
    pub vm_rss_kb: Option<u64>,
    pub fd_size: Option<u64>,
    pub voluntary_ctxt_switches: Option<u64>,
    pub nonvoluntary_ctxt_switches: Option<u64>,
}

/// A status value read as a number (`None` when absent or not a number).
pub open spec fn status_number(ls: Seq<Seq<char>>, key: Seq<char>) -> Option<u64> {
    match status_value_spec(ls, key) {
        Some(v) => parse_u64_spec(v),
        None => None,
    }
}

/// A status value's leading number (`VmRSS:  1234 kB` gives 1234).
pub open spec fn status_amount(ls: Seq<Seq<char>>, key: Seq<char>) -> Option<u64> {
    match status_value_spec(ls, key) {
        Some(v) => leading_number(v),
        None => None,
    }
}

fn status_number_of(content: &str, key: &str) -> (r: Option<u64>)
    ensures
        r == status_number(lines_spec(content@), key@),
{
    match parse_status_value(content, key) {
        Some(v) => parse_number(v.as_str()),
        None => None,
    }
}

fn status_amount_of(content: &str, key: &str) -> (r: Option<u64>)
    ensures
        r == status_amount(lines_spec(content@), key@),
{
    match parse_status_value(content, key) {
        Some(v) => parse_leading_number(v.as_str()),
        None => None,
    }
}

/// The fields `monitor` reads from the text of `/proc/<pid>/status`.
pub fn status_info(content: &str) -> (i: StatusInfo)
    ensures
        ({
            let ls = lines_spec(content@);
            &&& opt_chars(i.name) == status_value_spec(ls, "Name"@)
            &&& opt_chars(i.state) == status_value_spec(ls, "State"@)
            &&& opt_chars(i.uid) == status_value_spec(ls, "Uid"@)
            &&& opt_chars(i.gid) == status_value_spec(ls, "Gid"@)
            &&& i.threads == status_number(ls, "Threads"@)
            &&& i.vm_peak_kb == status_amount(ls, "VmPeak"@)
            &&& i.vm_size_kb == status_amount(ls, "VmSize"@)
            &&& i.vm_rss_kb == status_amount(ls, "VmRSS"@)
            &&& i.fd_size == status_number(ls, "FDSize"@)
            &&& i.voluntary_ctxt_switches == status_number(ls, "voluntary_ctxt_switches"@)
            &&& i.nonvoluntary_ctxt_switches == status_number(ls, "nonvoluntary_ctxt_switches"@)
        }),
{
    StatusInfo {
        name: parse_status_value(content, "Name"),
        state: parse_status_value(content, "State"),
        uid: parse_status_value(content, "Uid"),
        gid: parse_status_value(content, "Gid"),
        threads: status_number_of(content, "Threads"),
        vm_peak_kb: status_amount_of(content, "VmPeak"),
        vm_size_kb: status_amount_of(content, "VmSize"),
        vm_rss_kb: status_amount_of(content, "VmRSS"),
        fd_size: status_number_of(content, "FDSize"),
        voluntary_ctxt_switches: status_number_of(content, "voluntary_ctxt_switches"),
        nonvoluntary_ctxt_switches: status_number_of(content, "nonvoluntary_ctxt_switches"),
    }
}

} // verus!
