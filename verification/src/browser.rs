//! The browser tool's rules: where Chrome is looked for, the headless
//! command lines, the JavaScript sent over the DevTools protocol, and the
//! reading of a page's title and text.
//!
//! Launching Chrome and speaking the DevTools protocol is the caller's.

use vstd::prelude::*;
use crate::text::{
    append_chars, append_str, chars_of, find_chars_from, find_from, i64_text, int_decimal, lines_spec, lit,
    lowercase, nat_decimal, split_lines, string_from_chars, strings_view, to_lowercase, trim, trim_spec, u64_text,
};
use crate::toon::{utf8_len, utf8_len_of};
use crate::tool::{ToolError, ToolErrorView};

verus! {

/// Browser automation: a headless Chrome, if one was found.
#[derive(Debug, Clone, PartialEq, Eq)]
pub struct BrowserTool {
    pub chrome_path: Option<String>,
}

pub open spec fn no_chrome_text() -> Seq<char> {
    "No Chrome/Chromium found. Install with:\n  sudo apt install chromium-browser\n  sudo pacman -S chromium"@
}

impl BrowserTool {
    /// A tool over the Chrome found at `chrome_path`.
    pub fn new(chrome_path: Option<String>) -> (t: BrowserTool)
        ensures
            t.chrome_path == chrome_path,
    {
        BrowserTool { chrome_path }
    }

    /// The Chrome to run, or why there is none.
    pub fn require_chrome(&self) -> (r: Result<&str, ToolError>)
        ensures
            match self.chrome_path {
                Some(p) => r matches Ok(x) && x@ == p@,
                None => r matches Err(e) && e@ == ToolErrorView::ExecutionFailed(no_chrome_text()),
            },
    {
        match &self.chrome_path {
            Some(p) => Ok(p.as_str()),
            None => Err(
                ToolError::ExecutionFailed(
                    lit("No Chrome/Chromium found. Install with:\n  sudo apt install chromium-browser\n  sudo pacman -S chromium"),
                ),
            ),
        }
    }
}

/// Where Chrome is looked for first, in order; then `which` is asked for
/// [`chrome_names`].
pub fn chrome_candidates() -> (v: Vec<&'static str>)
    ensures
        v@.map_values(|s: &str| s@) == seq![
            "/usr/bin/google-chrome"@,
            "/usr/bin/google-chrome-stable"@,
            "/usr/bin/chromium"@,
            "/usr/bin/chromium-browser"@,
            "/snap/bin/chromium"@,
            "/usr/bin/chrome"@,
        ],
{
    let v = vec![
        "/usr/bin/google-chrome",
        "/usr/bin/google-chrome-stable",
        "/usr/bin/chromium",
        "/usr/bin/chromium-browser",
        "/snap/bin/chromium",
        "/usr/bin/chrome",
    ];
    assert(v@.map_values(|s: &str| s@) =~= seq![
        "/usr/bin/google-chrome"@,
        "/usr/bin/google-chrome-stable"@,
        "/usr/bin/chromium"@,
        "/usr/bin/chromium-browser"@,
        "/snap/bin/chromium"@,
        "/usr/bin/chrome"@,
    ]);
    v
}

/// The program names `which` is asked for, in order.
pub fn chrome_names() -> (v: Vec<&'static str>)
    ensures
        v@.map_values(|s: &str| s@) == seq!["google-chrome-stable"@, "chromium"@, "chromium-browser"@, "chrome"@],
{
    let v = vec!["google-chrome-stable", "chromium", "chromium-browser", "chrome"];
    assert(v@.map_values(|s: &str| s@) =~= seq!["google-chrome-stable"@, "chromium"@, "chromium-browser"@, "chrome"@]);
    v
}

/// The flags every headless run starts with.
pub open spec fn headless() -> Seq<Seq<char>> {
    seq!["--headless"@, "--disable-gpu"@, "--no-sandbox"@]
}

fn headless_args() -> (a: Vec<String>)
    ensures
        strings_view(a@) == headless(),
{
    let mut a: Vec<String> = Vec::new();
    a.push(lit("--headless"));
    a.push(lit("--disable-gpu"));
    a.push(lit("--no-sandbox"));
    assert(strings_view(a@) =~= headless());
    a
}

/// Chrome's arguments to print the rendered DOM of `url`.
pub fn dump_dom_args(url: &str) -> (a: Vec<String>)
    ensures
        strings_view(a@) == headless() + seq!["--dump-dom"@, url@],
{
    let mut a = headless_args();
    a.push(lit("--dump-dom"));
    a.push(lit(url));
    assert(strings_view(a@) =~= headless() + seq!["--dump-dom"@, url@]);
    a
}

/// Chrome's arguments to capture `url` at `width`x`height` into `path`.
pub fn screenshot_args(url: &str, width: u64, height: u64, path: &str) -> (a: Vec<String>)
    ensures
        strings_view(a@) == headless() + seq![
            "--window-size="@ + nat_decimal(width as nat) + ","@ + nat_decimal(height as nat),
            "--screenshot="@ + path@,
            url@,
        ],
{
    let mut a = headless_args();
    let mut size: Vec<char> = Vec::new();
    append_str(&mut size, "--window-size=");
    append_chars(&mut size, &crate::text::fmt_u64(width));
    append_str(&mut size, ",");
    append_chars(&mut size, &crate::text::fmt_u64(height));
    a.push(string_from_chars(&size));
    let mut shot = lit("--screenshot=");
    shot.append(path);
    a.push(shot);
    a.push(lit(url));
    assert(strings_view(a@) =~= headless() + seq![
        "--window-size="@ + nat_decimal(width as nat) + ","@ + nat_decimal(height as nat),
        "--screenshot="@ + path@,
        url@,
    ]);
    a
}

/// Chrome's arguments to print `url` as a PDF into `path`.
pub fn pdf_args(url: &str, path: &str) -> (a: Vec<String>)
    ensures
        strings_view(a@) == headless() + seq!["--print-to-pdf="@ + path@, url@],
{
    let mut a = headless_args();
    let mut p = lit("--print-to-pdf=");
    p.append(path);
    a.push(p);
    a.push(lit(url));
    assert(strings_view(a@) =~= headless() + seq!["--print-to-pdf="@ + path@, url@]);
    a
}

/// A CSS selector as it is put between single quotes: each `'` becomes `\'`.
pub open spec fn quote_selector_spec(s: Seq<char>) -> Seq<char>
    decreases s.len(),
{
    if s.len() == 0 {
        Seq::empty()
    } else {
        quote_selector_spec(s.drop_last()) + if s.last() == '\'' {
            seq!['\\', '\'']
        } else {
            seq![s.last()]
        }
    }
}

pub fn quote_selector(sel: &str) -> (q: Vec<char>)
    ensures
        q@ == quote_selector_spec(sel@),
{
    let v = chars_of(sel);
    let mut out: Vec<char> = Vec::new();
    let mut i: usize = 0;
    while i < v.len()
        invariant
            v@ == sel@,
            i <= v@.len(),
            out@ == quote_selector_spec(v@.take(i as int)),
        decreases v.len() - i,
    {
        proof {
            assert(v@.take(i + 1).drop_last() =~= v@.take(i as int));
            assert(v@.take(i + 1).last() == v@[i as int]);
        }
        if v[i] == '\'' {
            out.push('\\');
            out.push('\'');
        } else {
            out.push(v[i]);
        }
        i = i + 1;
        assert(out@ =~= quote_selector_spec(v@.take(i as int)));
    }
    assert(v@.take(v@.len() as int) =~= v@);
    out
}

fn wrap_selector(before: &str, sel: &str, after: &str) -> (s: String)
    ensures
        s@ == before@ + quote_selector_spec(sel@) + after@,
{
    let mut v: Vec<char> = Vec::new();
    append_str(&mut v, before);
    append_chars(&mut v, &quote_selector(sel));
    append_str(&mut v, after);
    string_from_chars(&v)
}

/// The script that finds the element and gives its centre (or `null`).
pub fn locate_center_js(sel: &str) -> (s: String)
    ensures
        s@ == "(() => {\n                const el = document.querySelector('"@ + quote_selector_spec(sel@) + "');\n                if (!el) return null;\n                const r = el.getBoundingClientRect();\n                return { x: r.x + r.width/2, y: r.y + r.height/2 };\n            })()"@,
{
    wrap_selector(
        "(() => {\n                const el = document.querySelector('",
        sel,
        "');\n                if (!el) return null;\n                const r = el.getBoundingClientRect();\n                return { x: r.x + r.width/2, y: r.y + r.height/2 };\n            })()",
    )
}

/// The script that empties and focuses the element before typing.
pub fn clear_field_js(sel: &str) -> (s: String)
    ensures
        s@ == "(() => {\n                    const el = document.querySelector('"@ + quote_selector_spec(sel@) + "');\n                    if (el) { el.value = ''; el.focus(); }\n                })()"@,
{
    wrap_selector(
        "(() => {\n                    const el = document.querySelector('",
        sel,
        "');\n                    if (el) { el.value = ''; el.focus(); }\n                })()",
    )
}

/// The script that focuses the element.
pub fn focus_js(sel: &str) -> (s: String)
    ensures
        s@ == "document.querySelector('"@ + quote_selector_spec(sel@) + "')?.focus()"@,
{
    wrap_selector("document.querySelector('", sel, "')?.focus()")
}

/// The script that tells whether the element exists.
pub fn element_exists_js(sel: &str) -> (s: String)
    ensures
        s@ == "document.querySelector('"@ + quote_selector_spec(sel@) + "') !== null"@,
{
    wrap_selector("document.querySelector('", sel, "') !== null")
}

/// `window.scrollBy(x, y)`
pub fn scroll_js(x: i64, y: i64) -> (s: String)
    ensures
        s@ == "window.scrollBy("@ + int_decimal(x as int) + ", "@ + int_decimal(y as int) + ")"@,
{
    let mut v: Vec<char> = Vec::new();
    append_str(&mut v, "window.scrollBy(");
    append_chars(&mut v, &crate::text::fmt_i64(x));
    append_str(&mut v, ", ");
    append_chars(&mut v, &crate::text::fmt_i64(y));
    append_str(&mut v, ")");
    string_from_chars(&v)
}

/// The first line (from `from` on) that holds `pat`.
pub open spec fn first_line_with(ls: Seq<Seq<char>>, pat: Seq<char>, from: nat) -> Option<nat>
    decreases ls.len() - from,
{
    if from >= ls.len() {
        None
    } else if find_from(ls[from as int], pat, 0) is Some {
        Some(from)
    } else {
        first_line_with(ls, pat, from + 1)
    }
}

/// Where the title sits on the first line that holds `<title>`: after the
/// first `<title>`, up to the first `</title>` (none if there is none).
pub open spec fn title_span(html: Seq<char>) -> Option<(Seq<char>, nat, nat)> {
    let ls = lines_spec(html);
    match first_line_with(ls, "<title>"@, 0) {
        None => None,
        Some(k) => {
            let l = ls[k as int];
            match (find_from(l, "<title>"@, 0), find_from(l, "</title>"@, 0)) {
                (Some(i), Some(j)) => Some((l, i + 7, j)),
                _ => None,
            }
        },
    }
}

/// Whether the title can be cut out: `</title>` does not come before `<title>`.
pub open spec fn title_in_order(html: Seq<char>) -> bool {
    match title_span(html) {
        Some((_, a, b)) => a <= b,
        None => true,
    }
}

/// The page title `navigate` reports: the text between the tags, trimmed,
/// or empty.
pub open spec fn page_title(html: Seq<char>) -> Seq<char> {
    match title_span(html) {
        Some((l, a, b)) => trim_spec(l.subrange(a as int, b as int)),
        None => Seq::empty(),
    }
}

/// Reads the title of a page (case-sensitive tags, as `navigate` does).
pub fn navigate_title(html: &str) -> (t: String)
    requires
        title_in_order(html@),
    ensures
        t@ == page_title(html@),
{
    let chars = chars_of(html);
    let ls = split_lines(&chars);
    let ghost lv = ls.deep_view();
    let open_tag = chars_of("<title>");
    let close_tag = chars_of("</title>");
    proof {
        reveal_strlit("<title>");
    }
    let mut k: usize = 0;
    while k < ls.len()
        invariant
            lv == ls.deep_view(),
            lv == lines_spec(html@),
            open_tag@ == "<title>"@,
            close_tag@ == "</title>"@,
            k <= lv.len(),
            title_in_order(html@),
            first_line_with(lv, "<title>"@, 0) == first_line_with(lv, "<title>"@, k as nat),
        decreases ls.len() - k,
    {
        let line: &Vec<char> = &ls[k];
        assert(line@ == lv[k as int]);
        match find_chars_from(line, &open_tag, 0) {
            None => {},
            Some(i) => {
                let ghost l = lv[k as int];
                assert(open_tag@.len() == 7) by {
                    reveal_strlit("<title>");
                }
                assert(first_line_with(lv, "<title>"@, 0) == Some(k as nat));
                assert(title_span(html@) == match find_from(l, "</title>"@, 0) {
                    Some(j) => Some((l, (i + 7) as nat, j)),
                    None => None::<(Seq<char>, nat, nat)>,
                });
                match find_chars_from(line, &close_tag, 0) {
                    None => {
                        return String::new();
                    },
                    Some(j) => {
                        let rest = crate::cron::slice_suffix(line.as_slice(), i + 7);
                        let piece = crate::cron::slice_prefix(rest.as_slice(), j - (i + 7));
                        assert(piece@ =~= l.subrange(i + 7, j as int));
                        let t = trim(&piece);
                        return string_from_chars(&t);
                    },
                }
            },
        }
        k = k + 1;
    }
    String::new()
}

/// Whether `</title>` does not come before `<title>` on the title line
/// (reading the title of a page where it does would fail).
pub fn title_tags_in_order(html: &str) -> (b: bool)
    ensures
        b == title_in_order(html@),
{
    let chars = chars_of(html);
    let ls = split_lines(&chars);
    let ghost lv = ls.deep_view();
    let open_tag = chars_of("<title>");
    let close_tag = chars_of("</title>");
    let mut k: usize = 0;
    while k < ls.len()
        invariant
            lv == ls.deep_view(),
            lv == lines_spec(html@),
            open_tag@ == "<title>"@,
            close_tag@ == "</title>"@,
            k <= lv.len(),
            first_line_with(lv, "<title>"@, 0) == first_line_with(lv, "<title>"@, k as nat),
        decreases ls.len() - k,
    {
        let line: &Vec<char> = &ls[k];
        assert(line@ == lv[k as int]);
        match find_chars_from(line, &open_tag, 0) {
            None => {},
            Some(i) => {
                assert(first_line_with(lv, "<title>"@, 0) == Some(k as nat));
                assert(open_tag@.len() == 7) by {
                    reveal_strlit("<title>");
                }
                return match find_chars_from(line, &close_tag, 0) {
                    None => true,
                    Some(j) => j >= 7 && i <= j - 7,
                };
            },
        }
        k = k + 1;
    }
    true
}

/// The char index of `s` at which its UTF-8 encoding has `byte` bytes
/// (a char boundary), if there is one.
pub open spec fn char_at_byte(s: Seq<char>, byte: nat) -> Option<nat> {
    if exists|a: nat| a <= s.len() && utf8_len_of(s.take(a as int)) == byte {
        Some(choose|a: nat| a <= s.len() && utf8_len_of(s.take(a as int)) == byte)
    } else {
        None
    }
}

/// The lines of `html`, each lower-cased.
pub open spec fn lowered_lines(html: Seq<char>) -> Seq<Seq<char>> {
    lines_spec(html).map_values(|l: Seq<char>| lowercase(l))
}

/// Where the title sits when the tags are found ignoring case: the first line
/// whose lower-cased form holds `<title>`, and the byte offsets in that
/// lower-cased form just after the first `<title>` and at the first
/// `</title>` (none if there is no `</title>`).
pub open spec fn title_bytes(html: Seq<char>) -> Option<(Seq<char>, nat, nat)> {
    match first_line_with(lowered_lines(html), "<title>"@, 0) {
        None => None,
        Some(k) => {
            let l = lines_spec(html)[k as int];
            let lower = lowercase(l);
            match (find_from(lower, "<title>"@, 0), find_from(lower, "</title>"@, 0)) {
                (Some(i), Some(j)) => Some((l, utf8_len_of(lower.take(i as int)) + 7, utf8_len_of(lower.take(j as int)))),
                _ => None,
            }
        },
    }
}

/// Whether those byte offsets cut the line itself (not its lower-cased copy):
/// in order, and both on char boundaries of it.
pub open spec fn title_cut_ok(html: Seq<char>) -> bool {
    match title_bytes(html) {
        Some((l, a, b)) => a <= b && char_at_byte(l, a) is Some && char_at_byte(l, b) is Some,
        None => true,
    }
}

/// The title the page readers report: the part of the line between those
/// offsets, trimmed, or empty.
pub open spec fn extracted_title(html: Seq<char>) -> Seq<char> {
    match title_bytes(html) {
        Some((l, a, b)) => trim_spec(l.subrange(char_at_byte(l, a)->0 as int, char_at_byte(l, b)->0 as int)),
        None => Seq::empty(),
    }
}

proof fn lemma_utf8_step(s: Seq<char>, k: int)
    requires
        0 <= k < s.len(),
    ensures
        utf8_len_of(s.take(k + 1)) == utf8_len_of(s.take(k)) + utf8_len(s[k]),
{
    assert(s.take(k + 1).drop_last() =~= s.take(k));
}

/// Longer prefixes take more bytes.
proof fn lemma_utf8_increasing(s: Seq<char>, a: int, b: int)
    requires
        0 <= a < b <= s.len(),
    ensures
        utf8_len_of(s.take(a)) < utf8_len_of(s.take(b)),
    decreases b - a,
{
    lemma_utf8_step(s, b - 1);
    if a < b - 1 {
        lemma_utf8_increasing(s, a, b - 1);
    }
}

fn utf8_width(c: char) -> (w: u128)
    ensures
        w == utf8_len(c),
{
    let n: u32 = c as u32;
    if n < 0x80 {
        1
    } else if n < 0x800 {
        2
    } else if n < 0x10000 {
        3
    } else {
        4
    }
}

/// The UTF-8 length of the first `k` chars of `s`.
fn utf8_prefix_len(s: &Vec<char>, k: usize) -> (n: u128)
    requires
        k <= s@.len(),
    ensures
        n == utf8_len_of(s@.take(k as int)),
        n <= 4 * k,
{
    let mut n: u128 = 0;
    let mut i: usize = 0;
    assert(s@.take(0) =~= Seq::<char>::empty());
    while i < k
        invariant
            k <= s@.len(),
            i <= k,
            n == utf8_len_of(s@.take(i as int)),
            n <= 4 * i,
        decreases k - i,
    {
        proof {
            lemma_utf8_step(s@, i as int);
        }
        n = n + utf8_width(s[i]);
        i = i + 1;
    }
    n
}

/// The char index at which `s` has `byte` bytes, if that is a char boundary.
fn char_index_at_byte(s: &Vec<char>, byte: u128) -> (r: Option<usize>)
    ensures
        match r {
            Some(a) => char_at_byte(s@, byte as nat) == Some(a as nat) && a <= s@.len(),
            None => char_at_byte(s@, byte as nat) is None,
        },
{
    let mut n: u128 = 0;
    let mut i: usize = 0;
    assert(s@.take(0) =~= Seq::<char>::empty());
    while i < s.len()
        invariant
            i <= s@.len(),
            n == utf8_len_of(s@.take(i as int)),
            n <= 4 * i,
            forall|a: nat| a < i ==> utf8_len_of(#[trigger] s@.take(a as int)) != byte,
        decreases s@.len() - i,
    {
        if n == byte {
            proof {
                let w = choose|a: nat| a <= s@.len() && utf8_len_of(s@.take(a as int)) == byte;
                if w != i {
                    if w < i {
                        assert(utf8_len_of(s@.take(w as int)) != byte);
                    } else {
                        lemma_utf8_increasing(s@, i as int, w as int);
                    }
                }
            }
            return Some(i);
        }
        proof {
            lemma_utf8_step(s@, i as int);
        }
        n = n + utf8_width(s[i]);
        i = i + 1;
    }
    if n == byte {
        proof {
            let w = choose|a: nat| a <= s@.len() && utf8_len_of(s@.take(a as int)) == byte;
            if w < i {
                assert(utf8_len_of(s@.take(w as int)) != byte);
            }
        }
        return Some(i);
    }
    proof {
        assert forall|a: nat| a <= s@.len() implies utf8_len_of(#[trigger] s@.take(a as int)) != byte by {
            if a < i {
            }
        }
    }
    None
}

/// The title of a page, its tags found ignoring case (as the page readers
/// find them), or `None` where the byte offsets found in the lower-cased
/// line do not cut the line itself (out of order, or inside a char).
pub fn extract_title_checked(html: &str) -> (r: Option<String>)
    ensures
        r is Some <==> title_cut_ok(html@),
        r matches Some(t) ==> t@ == extracted_title(html@),
{
    let chars = chars_of(html);
    let ls = split_lines(&chars);
    let ghost lv = ls.deep_view();
    let ghost low = lowered_lines(html@);
    let open_tag = chars_of("<title>");
    let close_tag = chars_of("</title>");
    proof {
        reveal_strlit("<title>");
    }
    let mut k: usize = 0;
    while k < ls.len()
        invariant
            lv == ls.deep_view(),
            lv == lines_spec(html@),
            low == lowered_lines(html@),
            open_tag@ == "<title>"@,
            close_tag@ == "</title>"@,
            k <= lv.len(),
            first_line_with(low, "<title>"@, 0) == first_line_with(low, "<title>"@, k as nat),
        decreases ls.len() - k,
    {
        let line: &Vec<char> = &ls[k];
        assert(line@ == lv[k as int]);
        let line_text = string_from_chars(line.as_slice());
        let lower_text = to_lowercase(line_text.as_str());
        let lower = chars_of(lower_text.as_str());
        assert(lower@ == low[k as int]);
        match find_chars_from(&lower, &open_tag, 0) {
            None => {},
            Some(i) => {
                let ghost l = lv[k as int];
                assert(open_tag@.len() == 7) by {
                    reveal_strlit("<title>");
                }
                assert(first_line_with(low, "<title>"@, 0) == Some(k as nat));
                match find_chars_from(&lower, &close_tag, 0) {
                    None => {
                        return Some(String::new());
                    },
                    Some(j) => {
                        let a_byte: u128 = utf8_prefix_len(&lower, i) + 7;
                        let b_byte: u128 = utf8_prefix_len(&lower, j);
                        assert(title_bytes(html@) == Some((l, a_byte as nat, b_byte as nat)));
                        if a_byte > b_byte {
                            return None;
                        }
                        let a = match char_index_at_byte(line, a_byte) {
                            Some(a) => a,
                            None => {
                                return None;
                            },
                        };
                        let b = match char_index_at_byte(line, b_byte) {
                            Some(b) => b,
                            None => {
                                return None;
                            },
                        };
                        proof {
                            let ca = choose|x: nat| x <= l.len() && utf8_len_of(l.take(x as int)) == a_byte;
                            let cb = choose|x: nat| x <= l.len() && utf8_len_of(l.take(x as int)) == b_byte;
                            assert(ca == a && cb == b);
                            if b < a {
                                lemma_utf8_increasing(l, b as int, a as int);
                            }
                        }
                        let rest = crate::cron::slice_suffix(line.as_slice(), a);
                        let piece = crate::cron::slice_prefix(rest.as_slice(), b - a);
                        assert(piece@ =~= l.subrange(a as int, b as int));
                        let t = trim(&piece);
                        return Some(string_from_chars(&t));
                    },
                }
            },
        }
        k = k + 1;
    }
    Some(String::new())
}

/// The title of a page, its tags found ignoring case.
pub fn extract_title(html: &str) -> (t: String)
    requires
        title_cut_ok(html@),
    ensures
        t@ == extracted_title(html@),
{
    match extract_title_checked(html) {
        Some(t) => t,
        None => String::new(),
    }
}

/// `navigate` previews at most this many chars of the page text.
pub fn content_preview(text: &str) -> (p: String)
    ensures
        p@ == (if text@.len() <= 2000 {
            text@
        } else {
            text@.take(2000)
        }),
{
    let v = chars_of(text);
    if v.len() <= 2000 {
        string_from_chars(&v)
    } else {
        string_from_chars(&crate::cron::slice_prefix(&v, 2000))
    }
}

/// A headless run that failed: `chrome <what> failed: <stderr, trimmed>`.
pub fn chrome_failure(what: &str, stderr: &str) -> (e: ToolError)
    ensures
        e@ == ToolErrorView::ExecutionFailed("chrome "@ + what@ + " failed: "@ + trim_spec(stderr@)),
{
    let mut v: Vec<char> = Vec::new();
    append_str(&mut v, "chrome ");
    append_str(&mut v, what);
    append_str(&mut v, " failed: ");
    append_chars(&mut v, &trim(&chars_of(stderr)));
    ToolError::ExecutionFailed(string_from_chars(&v))
}

} // verus!
