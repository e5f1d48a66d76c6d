//! Errors shared by the desktop tools.

use vstd::prelude::*;
use crate::text::{append_str, chars_of, join_spec, join_strings, string_from_chars, strings_view, trim, trim_spec};

verus! {

/// Why a tool call was refused or failed.
#[derive(Debug, Clone, PartialEq, Eq)]
pub enum ToolError {
    ToolNotFound(String),
    InvalidArguments(String),
    ExecutionFailed(String),
}

/// A `ToolError` with its message seen as chars.
pub enum ToolErrorView {
    ToolNotFound(Seq<char>),
    InvalidArguments(Seq<char>),
    ExecutionFailed(Seq<char>),
}

impl View for ToolError {
    type V = ToolErrorView;

    open spec fn view(&self) -> ToolErrorView {
        match self {
            ToolError::ToolNotFound(m) => ToolErrorView::ToolNotFound(m@),
            ToolError::InvalidArguments(m) => ToolErrorView::InvalidArguments(m@),
            ToolError::ExecutionFailed(m) => ToolErrorView::ExecutionFailed(m@),
        }
    }
}

impl ToolError {
    /// The message the error carries.
    pub fn detail(&self) -> (m: &String)
        ensures
            m@ == match self@ {
                ToolErrorView::ToolNotFound(x) => x,
                ToolErrorView::InvalidArguments(x) => x,
                ToolErrorView::ExecutionFailed(x) => x,
            },
    {
        match self {
            ToolError::ToolNotFound(m) => m,
            ToolError::InvalidArguments(m) => m,
            ToolError::ExecutionFailed(m) => m,
        }
    }
}

/// `ExecutionFailed` with the given message.
pub fn execution_failed(msg: &str) -> (e: ToolError)
    ensures
        e@ == ToolErrorView::ExecutionFailed(msg@),
{
    ToolError::ExecutionFailed(String::from_str(msg))
}

/// `InvalidArguments` with the given message.
pub fn invalid_arguments(msg: String) -> (e: ToolError)
    ensures
        e@ == ToolErrorView::InvalidArguments(msg@),
{
    ToolError::InvalidArguments(msg)
}

/// A required string argument that is missing: `'<key>' is required (string)`.
pub fn missing_string_arg(key: &str) -> (e: ToolError)
    ensures
        e@ == ToolErrorView::InvalidArguments("'"@ + key@ + "' is required (string)"@),
{
    let mut m = String::from_str("'");
    m.append(key);
    m.append("' is required (string)");
    ToolError::InvalidArguments(m)
}

/// Picks a tool's action: the `action` argument, or `default` when there is
/// none; the index of the action among `valid`, or
/// `unknown <tool> action: '<action>'. Valid: <a>, <b>, ...`.
pub fn select_action(tool: &str, action: Option<&str>, default: &str, valid: &[&str]) -> (r: Result<usize, ToolError>)
    ensures
        ({
            let a = match action {
                Some(a) => a@,
                None => default@,
            };
            match r {
                Ok(i) => i < valid@.len() && valid@[i as int]@ == a && forall|j: int| 0 <= j < i ==> (#[trigger] valid@[j])@ != a,
                Err(e) => (forall|j: int| 0 <= j < valid@.len() ==> (#[trigger] valid@[j])@ != a) && e@
                    == ToolErrorView::InvalidArguments(
                    "unknown "@ + tool@ + " action: '"@ + a + "'. Valid: "@ + crate::text::join_spec(
                        valid@.map_values(|v: &str| v@),
                        ", "@,
                    ),
                ),
            }
        }),
{
    let a: &str = match action {
        Some(a) => a,
        None => default,
    };
    let mut i: usize = 0;
    while i < valid.len()
        invariant
            i <= valid@.len(),
            a@ == match action {
                Some(x) => x@,
                None => default@,
            },
            forall|j: int| 0 <= j < i ==> (#[trigger] valid@[j])@ != a@,
        decreases valid.len() - i,
    {
        let v: &str = valid[i];
        if crate::text::str_eq(v, a) {
            assert(valid@[i as int]@ == a@);
            assert(a@ == match action {
                Some(x) => x@,
                None => default@,
            });
            return Ok(i);
        }
        i = i + 1;
    }
    let ghost names = valid@.map_values(|v: &str| v@);
    let mut m: Vec<char> = Vec::new();
    crate::text::append_str(&mut m, "unknown ");
    crate::text::append_str(&mut m, tool);
    crate::text::append_str(&mut m, " action: '");
    crate::text::append_str(&mut m, a);
    crate::text::append_str(&mut m, "'. Valid: ");
    let ghost head = m@;
    let mut k: usize = 0;
    assert(names.take(0) =~= Seq::<Seq<char>>::empty());
    while k < valid.len()
        invariant
            k <= valid@.len(),
            names == valid@.map_values(|v: &str| v@),
            m@ == head + crate::text::join_spec(names.take(k as int), ", "@),
        decreases valid.len() - k,
    {
        proof {
            assert(names.take(k + 1).drop_last() =~= names.take(k as int));
            assert(names.take(k + 1).last() == valid@[k as int]@);
        }
        if k > 0 {
            crate::text::append_str(&mut m, ", ");
        } else {
            assert(names.take(1).len() == 1);
        }
        crate::text::append_str(&mut m, valid[k]);
        assert(m@ =~= head + crate::text::join_spec(names.take(k + 1), ", "@));
        k = k + 1;
    }
    assert(names.take(valid@.len() as int) =~= names);
    Err(ToolError::InvalidArguments(crate::text::string_from_chars(&m)))
}

/// A program and the arguments a tool runs it with.
#[derive(Debug, Clone, PartialEq, Eq)]
pub struct CommandLine {
    pub program: String,
    pub args: Vec<String>,
}

/// The arguments of a command line, as text.
pub open spec fn argv(c: CommandLine) -> Seq<Seq<char>> {
    strings_view(c.args@)
}

/// Whether `c` runs `program` with the arguments `args`.
pub open spec fn runs(c: CommandLine, program: Seq<char>, args: Seq<Seq<char>>) -> bool {
    c.program@ == program && argv(c) == args
}

/// `program` with the arguments `args`.
pub fn command_line(program: &str, args: Vec<String>) -> (c: CommandLine)
    ensures
        c.program@ == program@,
        c.args@ == args@,
{
    CommandLine { program: String::from_str(program), args }
}

/// A program that ran and failed: `<program> failed: <stderr, trimmed>`.
pub fn run_failure(program: &str, stderr: &str) -> (e: ToolError)
    ensures
        e@ == ToolErrorView::ExecutionFailed(program@ + " failed: "@ + trim_spec(stderr@)),
{
    let mut m: Vec<char> = Vec::new();
    append_str(&mut m, program);
    append_str(&mut m, " failed: ");
    let t = trim(&chars_of(stderr));
    crate::text::append_chars(&mut m, &t);
    ToolError::ExecutionFailed(string_from_chars(&m))
}

/// An xdotool call that failed: `xdotool <args joined by spaces> failed: <stderr, trimmed>`.
pub fn xdotool_failure(args: &Vec<String>, stderr: &str) -> (e: ToolError)
    ensures
        e@ == ToolErrorView::ExecutionFailed(
            "xdotool "@ + join_spec(strings_view(args@), " "@) + " failed: "@ + trim_spec(stderr@),
        ),
{
    let mut m: Vec<char> = Vec::new();
    append_str(&mut m, "xdotool ");
    let j = join_strings(args, " ");
    append_str(&mut m, j.as_str());
    append_str(&mut m, " failed: ");
    let t = trim(&chars_of(stderr));
    crate::text::append_chars(&mut m, &t);
    ToolError::ExecutionFailed(string_from_chars(&m))
}

} // verus!
