//! Desktop windows through `xdotool`: argument checks, the search command
//! line, and the parsing of what xdotool prints.

use vstd::prelude::*;
use crate::text::{
    chars_of, lines_spec, parse_i64, parse_i64_spec, parse_u64, parse_u64_spec, split_char,
    split_lines, split_on, string_from_chars, strings_view, trim, trim_spec, lit, i64_text,
    int_decimal, nat_decimal, u64_text, occurs_at,
};
use crate::tool::{execution_failed, invalid_arguments, ToolError, ToolErrorView};

verus! {

/// Manage desktop windows using `xdotool`.
#[derive(Debug, Clone, Copy, PartialEq, Eq)]
pub struct WindowTool {
    pub has_xdotool: bool,
}

pub open spec fn no_xdotool_text() -> Seq<char> {
    "xdotool is required for window management. Install it with:\n\
      sudo apt install xdotool   # Debian/Ubuntu\n\
      sudo pacman -S xdotool      # Arch\n\
      brew install xdotool        # macOS (requires XQuartz)"@
}

impl WindowTool {
    pub fn new(has_xdotool: bool) -> (t: WindowTool)
        ensures
            t.has_xdotool == has_xdotool,
    {
        WindowTool { has_xdotool }
    }

    pub fn require_xdotool(&self) -> (r: Result<(), ToolError>)
        ensures
            r is Ok <==> self.has_xdotool,
            r matches Err(e) ==> e@ == ToolErrorView::ExecutionFailed(no_xdotool_text()),
    {
        if !self.has_xdotool {
            return Err(
                execution_failed(
                    "xdotool is required for window management. Install it with:\n\
                      sudo apt install xdotool   # Debian/Ubuntu\n\
                      sudo pacman -S xdotool      # Arch\n\
                      brew install xdotool        # macOS (requires XQuartz)",
                ),
            );
        }
        Ok(())
    }
}

/// A window's position and size.
#[derive(Debug, Clone, Copy, PartialEq, Eq)]
pub struct Geometry {
    pub x: i64,
    pub y: i64,
    pub width: u64,
    pub height: u64,
}

pub open spec fn i64_or_zero(s: Seq<char>) -> i64 {
    match parse_i64_spec(s) {
        Some(v) => v,
        None => 0,
    }
}

pub open spec fn u64_or_zero(s: Seq<char>) -> u64 {
    match parse_u64_spec(s) {
        Some(v) => v,
        None => 0,
    }
}

/// The geometry in the lines of `xdotool getwindowgeometry --shell`: each
/// `KEY=VALUE` line (exactly one `=`) with key `X`, `Y`, `WIDTH` or
/// `HEIGHT` sets that field, the last one winning; a value that does not
/// parse counts as 0, and fields never set are 0.
pub open spec fn geometry_spec(ls: Seq<Seq<char>>) -> Geometry
    decreases ls.len(),
{
    if ls.len() == 0 {
        Geometry { x: 0, y: 0, width: 0, height: 0 }
    } else {
        let g = geometry_spec(ls.drop_last());
        let parts = split_char(ls.last(), '=');
        if parts.len() != 2 {
            g
        } else {
            let key = trim_spec(parts[0]);
            let val = trim_spec(parts[1]);
            if key == "X"@ {
                Geometry { x: i64_or_zero(val), ..g }
            } else if key == "Y"@ {
                Geometry { y: i64_or_zero(val), ..g }
            } else if key == "WIDTH"@ {
                Geometry { width: u64_or_zero(val), ..g }
            } else if key == "HEIGHT"@ {
                Geometry { height: u64_or_zero(val), ..g }
            } else {
                g
            }
        }
    }
}

/// Reads `xdotool getwindowgeometry --shell` output.
pub fn parse_geometry(output: &str) -> (g: Geometry)
    ensures
        g == geometry_spec(lines_spec(output@)),
{
    let chars = chars_of(output);
    let ls = split_lines(&chars);
    let ghost lv = ls.deep_view();
    let mut g = Geometry { x: 0, y: 0, width: 0, height: 0 };
    let mut i: usize = 0;
    while i < ls.len()
        invariant
            lv == ls.deep_view(),
            i <= lv.len(),
            g == geometry_spec(lv.take(i as int)),
        decreases ls.len() - i,
    {
        let line: &Vec<char> = &ls[i];
        proof {
            assert(line@ == lv[i as int]);
            assert(lv.take(i + 1).drop_last() =~= lv.take(i as int));
            assert(lv.take(i + 1).last() == lv[i as int]);
        }
        let parts = split_on(line.as_slice(), '=');
        if parts.len() == 2 {
            assert(parts@[0]@ == parts.deep_view()[0]);
            assert(parts@[1]@ == parts.deep_view()[1]);
            let key = trim(parts[0].as_slice());
            let val = trim(parts[1].as_slice());
            if crate::text::chars_eq_str(&key, "X") {
                g.x = match parse_i64(&val) {
                    Some(v) => v,
                    None => 0,
                };
            } else if crate::text::chars_eq_str(&key, "Y") {
                g.y = match parse_i64(&val) {
                    Some(v) => v,
                    None => 0,
                };
            } else if crate::text::chars_eq_str(&key, "WIDTH") {
                g.width = match parse_u64(&val) {
                    Some(v) => v,
                    None => 0,
                };
            } else if crate::text::chars_eq_str(&key, "HEIGHT") {
                g.height = match parse_u64(&val) {
                    Some(v) => v,
                    None => 0,
                };
            }
        }
        i = i + 1;
    }
    assert(lv.take(lv.len() as int) =~= lv);
    g
}

pub open spec fn nonblank(l: Seq<char>) -> bool {
    trim_spec(l).len() > 0
}

/// The window ids printed by `xdotool search`: its non-blank lines, trimmed.
pub open spec fn window_ids_spec(output: Seq<char>) -> Seq<Seq<char>> {
    lines_spec(output).filter(|l: Seq<char>| nonblank(l)).map_values(|l: Seq<char>| trim_spec(l))
}

pub fn window_ids(output: &str) -> (ids: Vec<String>)
    ensures
        strings_view(ids@) == window_ids_spec(output@),
{
    let chars = chars_of(output);
    let ls = split_lines(&chars);
    let ghost lv = ls.deep_view();
    let ghost f = |l: Seq<char>| nonblank(l);
    let ghost t = |l: Seq<char>| trim_spec(l);
    let mut ids: Vec<String> = Vec::new();
    let mut i: usize = 0;
    while i < ls.len()
        invariant
            lv == ls.deep_view(),
            lv == lines_spec(output@),
            i <= lv.len(),
            f == (|l: Seq<char>| nonblank(l)),
            t == (|l: Seq<char>| trim_spec(l)),
            strings_view(ids@) == lv.take(i as int).filter(f).map_values(t),
        decreases ls.len() - i,
    {
        let line: &Vec<char> = &ls[i];
        proof {
            assert(line@ == lv[i as int]);
            assert(lv.take(i + 1).drop_last() =~= lv.take(i as int));
            assert(lv.take(i + 1) =~= lv.take(i as int).push(lv[i as int]));
            lv.take(i as int).lemma_filter_push(lv[i as int], f);
        }
        let id = trim(line.as_slice());
        let ghost before = strings_view(ids@);
        if id.len() > 0 {
            ids.push(string_from_chars(&id));
            assert(strings_view(ids@) =~= before.push(t(lv[i as int])));
            assert(lv.take(i + 1).filter(f).map_values(t) =~= lv.take(i as int).filter(f).map_values(t).push(t(lv[i as int])));
        }
        i = i + 1;
    }
    assert(lv.take(lv.len() as int) =~= lv);
    ids
}

/// `resize` needs a positive width and height.
pub fn check_resize(width: u64, height: u64) -> (r: Result<(), ToolError>)
    ensures
        r is Ok <==> (width > 0 && height > 0),
        r matches Err(e) ==> e@ == ToolErrorView::InvalidArguments("width and height must be > 0"@),
{
    if width == 0 || height == 0 {
        return Err(invalid_arguments(String::from_str("width and height must be > 0")));
    }
    Ok(())
}

/// The xdotool arguments that list windows (the current desktop's unless
/// `all_desktops`).
pub fn list_search_args(all_desktops: bool) -> (args: Vec<String>)
    ensures
        strings_view(args@) == seq!["search"@] + (if all_desktops {
            Seq::<Seq<char>>::empty()
        } else {
            seq!["--desktop"@, "-1"@]
        }) + seq!["--name"@, ""@, "--limit"@, "500"@],
{
    let mut a: Vec<String> = Vec::new();
    a.push(lit("search"));
    if !all_desktops {
        a.push(lit("--desktop"));
        a.push(lit("-1"));
    }
    a.push(lit("--name"));
    a.push(lit(""));
    a.push(lit("--limit"));
    a.push(lit("500"));
    let ghost want = seq!["search"@] + (if all_desktops {
        Seq::<Seq<char>>::empty()
    } else {
        seq!["--desktop"@, "-1"@]
    }) + seq!["--name"@, ""@, "--limit"@, "500"@];
    assert(strings_view(a@) =~= want);
    a
}

/// The xdotool arguments that search windows by name (all desktops unless
/// `all_desktops` is false).
pub fn name_search_args(name: &str, all_desktops: bool) -> (args: Vec<String>)
    ensures
        strings_view(args@) == seq!["search"@, "--name"@] + (if all_desktops {
            Seq::<Seq<char>>::empty()
        } else {
            seq!["--desktop"@, "-1"@]
        }) + seq![name@, "--limit"@, "100"@],
{
    let mut a: Vec<String> = Vec::new();
    a.push(lit("search"));
    a.push(lit("--name"));
    if !all_desktops {
        a.push(lit("--desktop"));
        a.push(lit("-1"));
    }
    a.push(lit(name));
    a.push(lit("--limit"));
    a.push(lit("100"));
    let ghost want = seq!["search"@, "--name"@] + (if all_desktops {
        Seq::<Seq<char>>::empty()
    } else {
        seq!["--desktop"@, "-1"@]
    }) + seq![name@, "--limit"@, "100"@];
    assert(strings_view(a@) =~= want);
    a
}

/// The desktop number `xdotool get_desktop_for_window` printed.
pub fn parse_desktop(output: &str) -> (r: Option<u64>)
    ensures
        r == parse_u64_spec(trim_spec(output@)),
{
    let chars = chars_of(output);
    let t = trim(&chars);
    parse_u64(&t)
}

/// `windowkill <id>` with `force`, else `windowclose <id>`.
pub fn close_args(window_id: &str, force: bool) -> (args: Vec<String>)
    ensures
        strings_view(args@) == seq![
            if force {
                "windowkill"@
            } else {
                "windowclose"@
            },
            window_id@,
        ],
{
    let mut a: Vec<String> = Vec::new();
    a.push(
        lit(
            if force {
                "windowkill"
            } else {
                "windowclose"
            },
        ),
    );
    a.push(lit(window_id));
    assert(strings_view(a@) =~= seq![
        if force {
            "windowkill"@
        } else {
            "windowclose"@
        },
        window_id@,
    ]);
    a
}

/// `windowmove <id> <x> <y>`.
pub fn move_args(window_id: &str, x: i64, y: i64) -> (args: Vec<String>)
    ensures
        strings_view(args@) == seq!["windowmove"@, window_id@, int_decimal(x as int), int_decimal(y as int)],
{
    let mut a: Vec<String> = Vec::new();
    a.push(lit("windowmove"));
    a.push(lit(window_id));
    a.push(i64_text(x));
    a.push(i64_text(y));
    assert(strings_view(a@) =~= seq!["windowmove"@, window_id@, int_decimal(x as int), int_decimal(y as int)]);
    a
}

/// The xdotool calls of `resize`: `windowsize <id> <w> <h>`, then, when both
/// `x` and `y` are given, a move there. Width and height must be positive.
pub fn resize_plan(window_id: &str, width: u64, height: u64, x: Option<i64>, y: Option<i64>) -> (r: Result<
    (Vec<String>, Option<Vec<String>>),
    ToolError,
>)
    ensures
        r is Ok <==> (width > 0 && height > 0),
        r matches Err(e) ==> e@ == ToolErrorView::InvalidArguments("width and height must be > 0"@),
        r matches Ok((size, mv)) ==> strings_view(size@) == seq![
            "windowsize"@,
            window_id@,
            nat_decimal(width as nat),
            nat_decimal(height as nat),
        ] && match (x, y) {
            (Some(x), Some(y)) => mv matches Some(m) && strings_view(m@) == seq![
                "windowmove"@,
                window_id@,
                int_decimal(x as int),
                int_decimal(y as int),
            ],
            _ => mv is None,
        },
{
    if let Err(e) = check_resize(width, height) {
        return Err(e);
    }
    let mut a: Vec<String> = Vec::new();
    a.push(lit("windowsize"));
    a.push(lit(window_id));
    a.push(u64_text(width));
    a.push(u64_text(height));
    assert(strings_view(a@) =~= seq!["windowsize"@, window_id@, nat_decimal(width as nat), nat_decimal(height as nat)]);
    let mv = match (x, y) {
        (Some(x), Some(y)) => Some(move_args(window_id, x, y)),
        _ => None,
    };
    Ok((a, mv))
}

/// Where the separator ` = ` first occurs at or after `from`.
pub open spec fn sep_from(s: Seq<char>, from: nat) -> Option<nat>
    decreases s.len() - from,
{
    if from + 3 > s.len() {
        None
    } else if occurs_at(s, " = "@, from as int) {
        Some(from)
    } else {
        sep_from(s, from + 1)
    }
}

/// The value of an `xprop` line: the piece after the first ` = ` (up to a
/// second one), trimmed; none when the line has no ` = `.
pub open spec fn xprop_value_spec(line: Seq<char>) -> Option<Seq<char>> {
    match sep_from(line, 0) {
        None => None,
        Some(i) => {
            let end = match sep_from(line, i + 3) {
                Some(j) => j as int,
                None => line.len() as int,
            };
            Some(trim_spec(line.subrange(i as int + 3, end)))
        },
    }
}

fn find_sep(v: &Vec<char>, from: usize) -> (r: Option<usize>)
    requires
        from <= v@.len(),
    ensures
        match r {
            Some(i) => sep_from(v@, from as nat) == Some(i as nat) && from <= i && i + 3 <= v@.len(),
            None => sep_from(v@, from as nat) is None,
        },
{
    let mut i: usize = from;
    while v.len() - i >= 3
        invariant
            from <= i <= v@.len(),
            sep_from(v@, from as nat) == sep_from(v@, i as nat),
        decreases v.len() - i,
    {
        if v[i] == ' ' && v[i + 1] == '=' && v[i + 2] == ' ' {
            proof {
                reveal_strlit(" = ");
                assert(v@.subrange(i as int, i + 3) =~= " = "@);
            }
            return Some(i);
        }
        proof {
            reveal_strlit(" = ");
            if occurs_at(v@, " = "@, i as int) {
                assert(v@.subrange(i as int, i + 3)[0] == v@[i as int]);
                assert(v@.subrange(i as int, i + 3)[1] == v@[i + 1]);
                assert(v@.subrange(i as int, i + 3)[2] == v@[i + 2]);
            }
        }
        i = i + 1;
    }
    None
}

/// Reads the value out of the first line `xprop -id <id> <PROP>` printed
/// (`_NET_WM_PID(CARDINAL) = 1234` gives `1234`).
pub fn xprop_value(line: &str) -> (r: Option<String>)
    ensures
        match r {
            Some(v) => xprop_value_spec(line@) == Some(v@),
            None => xprop_value_spec(line@) is None,
        },
{
    let v = chars_of(line);
    let n = v.len();
    match find_sep(&v, 0) {
        None => None,
        Some(i) => {
            assert(i + 3 <= n);
            let end = match find_sep(&v, i + 3) {
                Some(j) => j,
                None => v.len(),
            };
            let rest = crate::cron::slice_suffix(&v, i + 3);
            let piece = crate::cron::slice_prefix(&rest, end - (i + 3));
            assert(piece@ =~= v@.subrange(i + 3, end as int));
            let t = trim(&piece);
            Some(string_from_chars(&t))
        },
    }
}

} // verus!
