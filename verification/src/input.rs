//! Simulated human input: backend choice, argument checks and the
//! translation of hotkeys and mouse-location reports.
//!
//! Backends: `xdotool` (X11, most complete), `ydotool` (Wayland, mouse and
//! keyboard), `wtype` (Wayland, keyboard only); clipboard through `xclip`
//! (X11) or `wl-clipboard` (Wayland). Which programs are installed is found
//! out by the caller and handed to [`InputTool::new`].

use vstd::prelude::*;
use crate::text::{
    i64_text, int_decimal, lit, nat_decimal, u64_text, all_digits, append_chars, chars_eq_str, chars_of, parse_i64, parse_i64_spec, split_char,
    split_on, split_words, str_eq, string_from_chars, strings_view, words,
};
use crate::tool::{command_line, execution_failed, invalid_arguments, missing_string_arg, runs, CommandLine, ToolError, ToolErrorView};

verus! {

/// Simulate human input: mouse movement, clicks, keyboard typing, and hotkeys.
#[derive(Debug, Clone, Copy, PartialEq, Eq)]
pub struct InputTool {
    pub has_xdotool: bool,
    pub has_ydotool: bool,
    pub has_wtype: bool,
    pub has_xclip: bool,
    /// `wl-copy` / `wl-paste`
    pub has_wl_clipboard: bool,
}

/// A keyboard or mouse backend.
#[derive(Debug, Clone, Copy, PartialEq, Eq)]
pub enum InputBackend {
    Xdotool,
    Ydotool,
    Wtype,
}

/// A clipboard backend.
#[derive(Debug, Clone, Copy, PartialEq, Eq)]
pub enum ClipboardBackend {
    Xclip,
    WlClipboard,
}

/// The actions of the input tool.
#[derive(Debug, Clone, Copy, PartialEq, Eq)]
pub enum InputAction {
    MouseMove,
    MouseClick,
    MouseScroll,
    KeyType,
    KeyPress,
    KeyHotkey,
    MousePosition,
    ClipboardGet,
    ClipboardSet,
}

pub open spec fn keyboard_missing_text() -> Seq<char> {
    "No keyboard input backend found. Install one of:\n\
     sudo apt install xdotool       # X11 (recommended)\n\
     sudo apt install ydotool        # Wayland (uinput)\n\
     sudo apt install wtype          # Wayland (virtual-keyboard)"@
}

pub open spec fn mouse_missing_text() -> Seq<char> {
    "No mouse input backend found: xdotool is required (or ydotool on Wayland). Install one of:\n\
     sudo apt install xdotool       # X11 (recommended)\n\
     sudo apt install ydotool        # Wayland (uinput)"@
}

pub open spec fn clipboard_missing_text() -> Seq<char> {
    "No clipboard backend found. Install one of:\n\
     sudo apt install xclip          # X11\n\
     sudo apt install wl-clipboard   # Wayland"@
}

pub open spec fn position_missing_text() -> Seq<char> {
    "mouse_position requires xdotool. ydotool and wtype do not support getmouselocation.\n\
     Install xdotool: sudo apt install xdotool"@
}

impl InputTool {
    /// A tool over the backends found on this machine.
    pub fn new(
        has_xdotool: bool,
        has_ydotool: bool,
        has_wtype: bool,
        has_xclip: bool,
        has_wl_clipboard: bool,
    ) -> (t: InputTool)
        ensures
            t == (InputTool { has_xdotool, has_ydotool, has_wtype, has_xclip, has_wl_clipboard }),
    {
        InputTool { has_xdotool, has_ydotool, has_wtype, has_xclip, has_wl_clipboard }
    }

    /// Whether any keyboard input backend is available.
    pub fn has_keyboard_backend(&self) -> (b: bool)
        ensures
            b == (self.has_xdotool || self.has_ydotool || self.has_wtype),
    {
        self.has_xdotool || self.has_ydotool || self.has_wtype
    }

    /// Whether any mouse backend is available (xdotool or ydotool).
    pub fn has_mouse_backend(&self) -> (b: bool)
        ensures
            b == (self.has_xdotool || self.has_ydotool),
    {
        self.has_xdotool || self.has_ydotool
    }

    /// Whether any clipboard backend is available.
    pub fn has_clipboard_backend(&self) -> (b: bool)
        ensures
            b == (self.has_xclip || self.has_wl_clipboard),
    {
        self.has_xclip || self.has_wl_clipboard
    }

    pub fn require_keyboard(&self) -> (r: Result<(), ToolError>)
        ensures
            r is Ok <==> (self.has_xdotool || self.has_ydotool || self.has_wtype),
            r matches Err(e) ==> e@ == ToolErrorView::ExecutionFailed(keyboard_missing_text()),
    {
        if !self.has_keyboard_backend() {
            return Err(
                execution_failed(
                    "No keyboard input backend found. Install one of:\n\
                     sudo apt install xdotool       # X11 (recommended)\n\
                     sudo apt install ydotool        # Wayland (uinput)\n\
                     sudo apt install wtype          # Wayland (virtual-keyboard)",
                ),
            );
        }
        Ok(())
    }

    pub fn require_mouse(&self) -> (r: Result<(), ToolError>)
        ensures
            r is Ok <==> (self.has_xdotool || self.has_ydotool),
            r matches Err(e) ==> e@ == ToolErrorView::ExecutionFailed(mouse_missing_text()),
    {
        if !self.has_mouse_backend() {
            return Err(
                execution_failed(
                    "No mouse input backend found: xdotool is required (or ydotool on Wayland). Install one of:\n\
                     sudo apt install xdotool       # X11 (recommended)\n\
                     sudo apt install ydotool        # Wayland (uinput)",
                ),
            );
        }
        Ok(())
    }

    pub fn require_clipboard(&self) -> (r: Result<(), ToolError>)
        ensures
            r is Ok <==> (self.has_xclip || self.has_wl_clipboard),
            r matches Err(e) ==> e@ == ToolErrorView::ExecutionFailed(clipboard_missing_text()),
    {
        if !self.has_clipboard_backend() {
            return Err(
                execution_failed(
                    "No clipboard backend found. Install one of:\n\
                     sudo apt install xclip          # X11\n\
                     sudo apt install wl-clipboard   # Wayland",
                ),
            );
        }
        Ok(())
    }

    /// The keyboard backend used: xdotool, else ydotool, else wtype.
    pub fn keyboard_backend(&self) -> (r: Result<InputBackend, ToolError>)
        ensures
            match r {
                Ok(b) => b == (if self.has_xdotool {
                    InputBackend::Xdotool
                } else if self.has_ydotool {
                    InputBackend::Ydotool
                } else {
                    InputBackend::Wtype
                }) && (self.has_xdotool || self.has_ydotool || self.has_wtype),
                Err(e) => !self.has_xdotool && !self.has_ydotool && !self.has_wtype && e@
                    == ToolErrorView::ExecutionFailed(keyboard_missing_text()),
            },
    {
        match self.require_keyboard() {
            Err(e) => Err(e),
            Ok(()) => {
                if self.has_xdotool {
                    Ok(InputBackend::Xdotool)
                } else if self.has_ydotool {
                    Ok(InputBackend::Ydotool)
                } else {
                    Ok(InputBackend::Wtype)
                }
            },
        }
    }

    /// The mouse backend used: xdotool, else ydotool.
    pub fn mouse_backend(&self) -> (r: Result<InputBackend, ToolError>)
        ensures
            match r {
                Ok(b) => b == (if self.has_xdotool {
                    InputBackend::Xdotool
                } else {
                    InputBackend::Ydotool
                }) && (self.has_xdotool || self.has_ydotool),
                Err(e) => !self.has_xdotool && !self.has_ydotool && e@ == ToolErrorView::ExecutionFailed(
                    mouse_missing_text(),
                ),
            },
    {
        match self.require_mouse() {
            Err(e) => Err(e),
            Ok(()) => {
                if self.has_xdotool {
                    Ok(InputBackend::Xdotool)
                } else {
                    Ok(InputBackend::Ydotool)
                }
            },
        }
    }

    /// The clipboard backend used: xclip, else wl-clipboard.
    pub fn clipboard_backend(&self) -> (r: Result<ClipboardBackend, ToolError>)
        ensures
            match r {
                Ok(b) => b == (if self.has_xclip {
                    ClipboardBackend::Xclip
                } else {
                    ClipboardBackend::WlClipboard
                }) && (self.has_xclip || self.has_wl_clipboard),
                Err(e) => !self.has_xclip && !self.has_wl_clipboard && e@ == ToolErrorView::ExecutionFailed(
                    clipboard_missing_text(),
                ),
            },
    {
        match self.require_clipboard() {
            Err(e) => Err(e),
            Ok(()) => {
                if self.has_xclip {
                    Ok(ClipboardBackend::Xclip)
                } else {
                    Ok(ClipboardBackend::WlClipboard)
                }
            },
        }
    }

    /// `mouse_position` works through xdotool only.
    pub fn require_position_backend(&self) -> (r: Result<(), ToolError>)
        ensures
            r is Ok <==> self.has_xdotool,
            r matches Err(e) ==> e@ == ToolErrorView::ExecutionFailed(position_missing_text()),
    {
        if !self.has_xdotool {
            return Err(
                execution_failed(
                    "mouse_position requires xdotool. ydotool and wtype do not support getmouselocation.\n\
                     Install xdotool: sudo apt install xdotool",
                ),
            );
        }
        Ok(())
    }
}

pub open spec fn action_spec(a: Seq<char>) -> Option<InputAction> {
    if a == "mouse_move"@ {
        Some(InputAction::MouseMove)
    } else if a == "mouse_click"@ {
        Some(InputAction::MouseClick)
    } else if a == "mouse_scroll"@ {
        Some(InputAction::MouseScroll)
    } else if a == "key_type"@ {
        Some(InputAction::KeyType)
    } else if a == "key_press"@ {
        Some(InputAction::KeyPress)
    } else if a == "key_hotkey"@ {
        Some(InputAction::KeyHotkey)
    } else if a == "mouse_position"@ {
        Some(InputAction::MousePosition)
    } else if a == "clipboard_get"@ {
        Some(InputAction::ClipboardGet)
    } else if a == "clipboard_set"@ {
        Some(InputAction::ClipboardSet)
    } else {
        None
    }
}

pub open spec fn unknown_action_text(a: Seq<char>) -> Seq<char> {
    "unknown input action: '"@ + a
        + "'. Valid: mouse_move, mouse_click, mouse_scroll, key_type, key_press, key_hotkey, mouse_position, clipboard_get, clipboard_set"@
}

/// Reads the `action` argument (default `mouse_position`).
pub fn parse_input_action(action: Option<&str>) -> (r: Result<InputAction, ToolError>)
    ensures
        ({
            let a = match action { Some(a) => a@, None => "mouse_position"@ };
            match action_spec(a) {
                Some(x) => r == Ok::<InputAction, ToolError>(x),
                None => r matches Err(e) && e@ == ToolErrorView::InvalidArguments(unknown_action_text(a)),
            }
        }),
{
    let a: &str = match action {
        Some(a) => a,
        None => "mouse_position",
    };
    if str_eq(a, "mouse_move") {
        Ok(InputAction::MouseMove)
    } else if str_eq(a, "mouse_click") {
        Ok(InputAction::MouseClick)
    } else if str_eq(a, "mouse_scroll") {
        Ok(InputAction::MouseScroll)
    } else if str_eq(a, "key_type") {
        Ok(InputAction::KeyType)
    } else if str_eq(a, "key_press") {
        Ok(InputAction::KeyPress)
    } else if str_eq(a, "key_hotkey") {
        Ok(InputAction::KeyHotkey)
    } else if str_eq(a, "mouse_position") {
        Ok(InputAction::MousePosition)
    } else if str_eq(a, "clipboard_get") {
        Ok(InputAction::ClipboardGet)
    } else if str_eq(a, "clipboard_set") {
        Ok(InputAction::ClipboardSet)
    } else {
        let mut m = String::from_str("unknown input action: '");
        m.append(a);
        m.append(
            "'. Valid: mouse_move, mouse_click, mouse_scroll, key_type, key_press, key_hotkey, mouse_position, clipboard_get, clipboard_set",
        );
        Err(invalid_arguments(m))
    }
}

pub open spec fn xdotool_button_spec(b: Seq<char>) -> Option<Seq<char>> {
    if b == "left"@ || b == "1"@ {
        Some("1"@)
    } else if b == "middle"@ || b == "2"@ {
        Some("2"@)
    } else if b == "right"@ || b == "3"@ {
        Some("3"@)
    } else if b == "scroll_up"@ || b == "4"@ {
        Some("4"@)
    } else if b == "scroll_down"@ || b == "5"@ {
        Some("5"@)
    } else {
        None
    }
}

/// The xdotool button number for a button name.
pub fn xdotool_button(button: &str) -> (r: Result<&'static str, ToolError>)
    ensures
        match xdotool_button_spec(button@) {
            Some(n) => r matches Ok(x) && x@ == n,
            None => r matches Err(e) && e@ == ToolErrorView::InvalidArguments(
                "unknown button: '"@ + button@
                    + "'. Valid: left, middle, right, scroll_up, scroll_down"@,
            ),
        },
{
    if str_eq(button, "left") || str_eq(button, "1") {
        Ok("1")
    } else if str_eq(button, "middle") || str_eq(button, "2") {
        Ok("2")
    } else if str_eq(button, "right") || str_eq(button, "3") {
        Ok("3")
    } else if str_eq(button, "scroll_up") || str_eq(button, "4") {
        Ok("4")
    } else if str_eq(button, "scroll_down") || str_eq(button, "5") {
        Ok("5")
    } else {
        let mut m = String::from_str("unknown button: '");
        m.append(button);
        m.append("'. Valid: left, middle, right, scroll_up, scroll_down");
        Err(invalid_arguments(m))
    }
}

pub open spec fn ydotool_button_spec(b: Seq<char>) -> Option<Seq<char>> {
    if b == "left"@ || b == "1"@ {
        Some("0x110"@)
    } else if b == "right"@ || b == "3"@ {
        Some("0x111"@)
    } else if b == "middle"@ || b == "2"@ {
        Some("0x112"@)
    } else {
        None
    }
}

/// The Linux input event code that ydotool clicks for a button name.
pub fn ydotool_button(button: &str) -> (r: Result<&'static str, ToolError>)
    ensures
        match ydotool_button_spec(button@) {
            Some(n) => r matches Ok(x) && x@ == n,
            None => r matches Err(e) && e@ == ToolErrorView::InvalidArguments(
                "ydotool: unknown button '"@ + button@ + "'. Valid: left, middle, right"@,
            ),
        },
{
    if str_eq(button, "left") || str_eq(button, "1") {
        Ok("0x110")
    } else if str_eq(button, "right") || str_eq(button, "3") {
        Ok("0x111")
    } else if str_eq(button, "middle") || str_eq(button, "2") {
        Ok("0x112")
    } else {
        let mut m = String::from_str("ydotool: unknown button '");
        m.append(button);
        m.append("'. Valid: left, middle, right");
        Err(invalid_arguments(m))
    }
}

/// The click repeat count: the `repeat` argument (default 1) held to 1..=10.
pub fn click_repeat(repeat: Option<u64>) -> (n: u64)
    ensures
        n == ({
            let r = match repeat { Some(r) => r, None => 1 };
            if r < 1 { 1 } else if r > 10 { 10 } else { r }
        }),
{
    let r: u64 = match repeat {
        Some(r) => r,
        None => 1,
    };
    if r < 1 {
        1
    } else if r > 10 {
        10
    } else {
        r
    }
}

/// How xdotool scrolls by `delta`: the button (`4` up, `5` down) and the
/// number of clicks, `|delta|`.
pub fn scroll_clicks(delta: i64) -> (r: (&'static str, u64))
    ensures
        r.0@ == (if delta > 0 { "4"@ } else { "5"@ }),
        r.1 as int == (if delta < 0 { -delta } else { delta as int }),
{
    let button: &'static str = if delta > 0 {
        "4"
    } else {
        "5"
    };
    let n: u64 = if delta == i64::MIN {
        0x8000_0000_0000_0000
    } else if delta < 0 {
        (-delta) as u64
    } else {
        delta as u64
    };
    (button, n)
}

pub open spec fn is_modifier(p: Seq<char>) -> bool {
    p == "ctrl"@ || p == "alt"@ || p == "shift"@ || p == "super"@ || p == "meta"@
}

/// The last part that is not a modifier (empty if there is none).
pub open spec fn main_key_of(parts: Seq<Seq<char>>) -> Seq<char>
    decreases parts.len(),
{
    if parts.len() == 0 {
        Seq::<char>::empty()
    } else if !is_modifier(parts.last()) {
        parts.last()
    } else {
        main_key_of(parts.drop_last())
    }
}

/// `flag m` for each `m`, in order.
pub open spec fn flag_pairs(mods: Seq<Seq<char>>, flag: Seq<char>) -> Seq<Seq<char>>
    decreases mods.len(),
{
    if mods.len() == 0 {
        Seq::<Seq<char>>::empty()
    } else {
        flag_pairs(mods.drop_last(), flag) + seq![flag, mods.last()]
    }
}

pub open spec fn modifiers_of(parts: Seq<Seq<char>>) -> Seq<Seq<char>> {
    parts.filter(|p: Seq<char>| is_modifier(p))
}

/// wtype's arguments for a hotkey such as `ctrl+c`: each modifier pressed
/// (`-M`) in order, the main key typed (`-k`), and the modifiers released
/// (`-m`) in reverse order; nothing is typed or released without a main key.
pub open spec fn wtype_args_spec(keys: Seq<char>) -> Seq<Seq<char>> {
    let parts = split_char(keys, '+');
    let mods = modifiers_of(parts);
    let main = main_key_of(parts);
    flag_pairs(mods, "-M"@) + if main.len() > 0 {
        seq!["-k"@, main] + flag_pairs(mods.reverse(), "-m"@)
    } else {
        Seq::<Seq<char>>::empty()
    }
}

fn is_modifier_chars(p: &[char]) -> (b: bool)
    ensures
        b == is_modifier(p@),
{
    chars_eq_str(p, "ctrl") || chars_eq_str(p, "alt") || chars_eq_str(p, "shift") || chars_eq_str(
        p,
        "meta",
    ) || chars_eq_str(p, "super")
}

fn copy_chars(p: &[char]) -> (v: Vec<char>)
    ensures
        v@ == p@,
{
    let mut v: Vec<char> = Vec::new();
    append_chars(&mut v, p);
    v
}

/// Converts a hotkey string (e.g. `ctrl+c`) to wtype arguments:
/// `["-M", "ctrl", "-k", "c", "-m", "ctrl"]`. Modifiers are released in
/// reverse order (LIFO), and only when a main key was pressed.
pub fn hotkey_to_wtype_args(keys: &str) -> (args: Vec<String>)
    ensures
        strings_view(args@) == wtype_args_spec(keys@),
{
    let chars = chars_of(keys);
    let parts = split_on(&chars, '+');
    let ghost ps = parts.deep_view();
    let mut mods: Vec<Vec<char>> = Vec::new();
    let mut main: Vec<char> = Vec::new();
    let mut i: usize = 0;
    while i < parts.len()
        invariant
            ps == parts.deep_view(),
            i <= ps.len(),
            mods.deep_view() == modifiers_of(ps.take(i as int)),
            main@ == main_key_of(ps.take(i as int)),
        decreases parts.len() - i,
    {
        let p: &Vec<char> = &parts[i];
        proof {
            assert(ps.take(i + 1).drop_last() =~= ps.take(i as int));
            assert(ps[i as int] == p@);
            ps.take(i as int).lemma_filter_push(p@, |q: Seq<char>| is_modifier(q));
            assert(ps.take(i + 1) =~= ps.take(i as int).push(p@));
        }
        if is_modifier_chars(p) {
            let ghost before = mods.deep_view();
            let c = copy_chars(p);
            mods.push(c);
            assert(mods.deep_view() =~= before.push(p@));
        } else {
            main = copy_chars(p);
        }
        i = i + 1;
    }
    assert(ps.take(ps.len() as int) =~= ps);
    let ghost ms = mods.deep_view();
    let mut args: Vec<String> = Vec::new();
    let mut j: usize = 0;
    while j < mods.len()
        invariant
            ms == mods.deep_view(),
            j <= ms.len(),
            strings_view(args@) == flag_pairs(ms.take(j as int), "-M"@),
        decreases mods.len() - j,
    {
        let ghost before = strings_view(args@);
        let piece = string_from_chars(mods[j].as_slice());
        assert(piece@ == ms[j as int]);
        args.push(lit("-M"));
        args.push(piece);
        proof {
            assert(ms.take(j + 1).drop_last() =~= ms.take(j as int));
            assert(strings_view(args@) =~= before + seq!["-M"@, ms[j as int]]);
        }
        j = j + 1;
    }
    assert(ms.take(ms.len() as int) =~= ms);
    if main.len() > 0 {
        let ghost pressed = strings_view(args@);
        args.push(lit("-k"));
        args.push(string_from_chars(&main));
        assert(strings_view(args@) =~= pressed + seq!["-k"@, main@]);
        let ghost base = strings_view(args@);
        let mut k: usize = mods.len();
        assert(ms.reverse().take(0) =~= Seq::<Seq<char>>::empty());
        while k > 0
            invariant
                ms == mods.deep_view(),
                k <= ms.len(),
                base == pressed + seq!["-k"@, main@],
                strings_view(args@) == base + flag_pairs(ms.reverse().take(ms.len() - k), "-m"@),
            decreases k,
        {
            let ghost before = strings_view(args@);
            let piece = string_from_chars(mods[k - 1].as_slice());
            assert(piece@ == ms[k - 1]);
            args.push(lit("-m"));
            args.push(piece);
            proof {
                let t = ms.len() - k;
                assert(ms.reverse().take(t + 1).drop_last() =~= ms.reverse().take(t));
                assert(ms.reverse()[t] == ms[k - 1]);
                assert(strings_view(args@) =~= before + seq!["-m"@, ms[k - 1]]);
                assert(flag_pairs(ms.reverse().take(t + 1), "-m"@) == flag_pairs(ms.reverse().take(t), "-m"@) + seq!["-m"@, ms[k - 1]]);
                assert(strings_view(args@) =~= base + flag_pairs(ms.reverse().take(t + 1), "-m"@));
            }
            k = k - 1;
        }
        assert(ms.reverse().take(ms.len() as int) =~= ms.reverse());
    } else {
        assert(strings_view(args@) =~= flag_pairs(ms, "-M"@) + Seq::<Seq<char>>::empty());
    }
    args
}

/// Whether a word starts with the label `c:`.
pub open spec fn labelled(w: Seq<char>, c: char) -> bool {
    w.len() >= 2 && w[0] == c && w[1] == ':'
}

pub open spec fn parsed_or_zero(s: Seq<char>) -> i64 {
    match parse_i64_spec(s) {
        Some(v) => v,
        None => 0,
    }
}

/// The coordinates in the words of xdotool's `getmouselocation` report
/// (`x:12 y:34 screen:0 window:5`): the last `x:` and `y:` values, a value
/// that does not parse counting as 0.
pub open spec fn mouse_location_spec(ws: Seq<Seq<char>>) -> (i64, i64)
    decreases ws.len(),
{
    if ws.len() == 0 {
        (0, 0)
    } else {
        let prev = mouse_location_spec(ws.drop_last());
        let w = ws.last();
        if labelled(w, 'x') {
            (parsed_or_zero(w.skip(2)), prev.1)
        } else if labelled(w, 'y') {
            (prev.0, parsed_or_zero(w.skip(2)))
        } else {
            prev
        }
    }
}

fn value_after_label(w: &[char]) -> (v: i64)
    requires
        w@.len() >= 2,
    ensures
        v == parsed_or_zero(w@.skip(2)),
{
    let mut rest: Vec<char> = Vec::new();
    let mut i: usize = 2;
    while i < w.len()
        invariant
            2 <= i <= w@.len(),
            rest@ == w@.subrange(2, i as int),
        decreases w.len() - i,
    {
        rest.push(w[i]);
        i = i + 1;
        assert(rest@ =~= w@.subrange(2, i as int));
    }
    assert(rest@ =~= w@.skip(2));
    match parse_i64(&rest) {
        Some(v) => v,
        None => 0,
    }
}

/// Reads the cursor position out of xdotool's `getmouselocation` output.
pub fn parse_mouse_location(output: &str) -> (r: (i64, i64))
    ensures
        r == mouse_location_spec(words(output@)),
{
    let chars = chars_of(output);
    let ws = split_words(&chars);
    let ghost wv = ws.deep_view();
    let mut x: i64 = 0;
    let mut y: i64 = 0;
    let mut i: usize = 0;
    while i < ws.len()
        invariant
            wv == ws.deep_view(),
            i <= wv.len(),
            (x, y) == mouse_location_spec(wv.take(i as int)),
        decreases ws.len() - i,
    {
        let w: &Vec<char> = &ws[i];
        proof {
            assert(wv.take(i + 1).drop_last() =~= wv.take(i as int));
            assert(wv[i as int] == w@);
        }
        if w.len() >= 2 && w[0] == 'x' && w[1] == ':' {
            x = value_after_label(w.as_slice());
        } else if w.len() >= 2 && w[0] == 'y' && w[1] == ':' {
            y = value_after_label(w.as_slice());
        }
        i = i + 1;
    }
    assert(wv.take(wv.len() as int) =~= wv);
    (x, y)
}

/// The program that drives the mouse: xdotool when present, else ydotool.
pub open spec fn mouse_program(xdotool: bool) -> Seq<char> {
    if xdotool {
        "xdotool"@
    } else {
        "ydotool"@
    }
}

/// The program that types: xdotool, else ydotool, else wtype.
pub open spec fn keyboard_program(t: InputTool) -> Seq<char> {
    if t.has_xdotool {
        "xdotool"@
    } else if t.has_ydotool {
        "ydotool"@
    } else {
        "wtype"@
    }
}

/// Arguments that move the pointer (xdotool moves absolutely unless told
/// `relative`; ydotool moves relatively unless given `--absolute`).
pub open spec fn mouse_move_args(xdotool: bool, x: i64, y: i64, relative: bool) -> Seq<Seq<char>> {
    if xdotool {
        seq![
            if relative {
                "mousemove_relative"@
            } else {
                "mousemove"@
            },
            int_decimal(x as int),
            int_decimal(y as int),
        ]
    } else {
        seq!["mousemove"@] + (if relative {
            Seq::<Seq<char>>::empty()
        } else {
            seq!["--absolute"@]
        }) + seq!["-x"@, int_decimal(x as int), "-y"@, int_decimal(y as int)]
    }
}

/// The clamped click count for a `repeat` argument.
pub open spec fn repeat_spec(repeat: Option<u64>) -> u64 {
    let r = match repeat {
        Some(r) => r,
        None => 1,
    };
    if r < 1 {
        1
    } else if r > 10 {
        10
    } else {
        r
    }
}

/// xdotool's click: `click [--repeat n] <button>`.
pub open spec fn xdotool_click_args(code: Seq<char>, n: nat) -> Seq<Seq<char>> {
    if n > 1 {
        seq!["click"@, "--repeat"@, nat_decimal(n), code]
    } else {
        seq!["click"@, code]
    }
}

/// `|delta|` as a natural number.
pub open spec fn abs_delta(delta: i64) -> nat {
    if delta < 0 {
        (-delta) as nat
    } else {
        delta as nat
    }
}

/// Arguments that scroll by `delta` (positive is up).
pub open spec fn mouse_scroll_args(xdotool: bool, delta: i64) -> Seq<Seq<char>> {
    if xdotool {
        xdotool_click_args(
            if delta > 0 {
                "4"@
            } else {
                "5"@
            },
            abs_delta(delta),
        )
    } else {
        seq!["mousemove"@, "--wheel"@, "-d"@, int_decimal(delta as int)]
    }
}

/// Arguments that type `text` with `delay` ms between keystrokes.
pub open spec fn key_type_args(t: InputTool, text: Seq<char>, delay: u64) -> Seq<Seq<char>> {
    if t.has_xdotool || t.has_ydotool {
        seq!["type"@, "--delay"@, nat_decimal(delay as nat), text]
    } else {
        seq!["-d"@, nat_decimal(delay as nat), text]
    }
}

/// Arguments that press (or, with `hold`, hold down) a key.
pub open spec fn key_press_args(t: InputTool, key: Seq<char>, hold: bool) -> Seq<Seq<char>> {
    if t.has_xdotool || t.has_ydotool {
        seq![
            if hold {
                "keydown"@
            } else {
                "key"@
            },
            key,
        ]
    } else {
        seq![
            if hold {
                "-P"@
            } else {
                "-k"@
            },
            key,
        ]
    }
}

/// Arguments that press a hotkey combination; wtype gets it spelled out.
pub open spec fn key_hotkey_args(t: InputTool, keys: Seq<char>, hold: bool) -> Seq<Seq<char>> {
    if t.has_xdotool || t.has_ydotool {
        key_press_args(t, keys, hold)
    } else {
        wtype_args_spec(keys)
    }
}

impl InputTool {
    /// The command that moves the pointer to `(x, y)`, or by it when `relative`.
    pub fn mouse_move_command(&self, x: i64, y: i64, relative: bool) -> (r: Result<CommandLine, ToolError>)
        ensures
            r is Ok <==> (self.has_xdotool || self.has_ydotool),
            r matches Err(e) ==> e@ == ToolErrorView::ExecutionFailed(mouse_missing_text()),
            r matches Ok(c) ==> runs(c, mouse_program(self.has_xdotool), mouse_move_args(self.has_xdotool, x, y, relative)),
    {
        if let Err(e) = self.require_mouse() {
            return Err(e);
        }
        let mut a: Vec<String> = Vec::new();
        if self.has_xdotool {
            if relative {
                a.push(lit("mousemove_relative"));
            } else {
                a.push(lit("mousemove"));
            }
            a.push(i64_text(x));
            a.push(i64_text(y));
            assert(strings_view(a@) =~= mouse_move_args(true, x, y, relative));
            Ok(command_line("xdotool", a))
        } else {
            a.push(lit("mousemove"));
            if !relative {
                a.push(lit("--absolute"));
            }
            a.push(lit("-x"));
            a.push(i64_text(x));
            a.push(lit("-y"));
            a.push(i64_text(y));
            assert(strings_view(a@) =~= mouse_move_args(false, x, y, relative));
            Ok(command_line("ydotool", a))
        }
    }

    /// The commands that click `button` (default `left`) `repeat` times
    /// (default 1, held to 1..=10), and that count. xdotool clicks in one
    /// command; ydotool is run once per click. An unknown button is refused
    /// before the backend is looked for.
    pub fn mouse_click_commands(&self, button: Option<&str>, repeat: Option<u64>) -> (r: Result<
        (Vec<CommandLine>, u64),
        ToolError,
    >)
        ensures
            ({
                let b = match button {
                    Some(b) => b@,
                    None => "left"@,
                };
                let n = repeat_spec(repeat);
                if !(self.has_xdotool || self.has_ydotool) {
                    match xdotool_button_spec(b) {
                        Some(_) => r matches Err(e) && e@ == ToolErrorView::ExecutionFailed(mouse_missing_text()),
                        None => r matches Err(e) && e@ == ToolErrorView::InvalidArguments(
                            "unknown button: '"@ + b + "'. Valid: left, middle, right, scroll_up, scroll_down"@,
                        ),
                    }
                } else if self.has_xdotool {
                    match xdotool_button_spec(b) {
                        Some(code) => r matches Ok((cs, k)) && k == n && cs@.len() == 1 && runs(
                            cs@[0],
                            "xdotool"@,
                            xdotool_click_args(code, n as nat),
                        ),
                        None => r matches Err(e) && e@ == ToolErrorView::InvalidArguments(
                            "unknown button: '"@ + b + "'. Valid: left, middle, right, scroll_up, scroll_down"@,
                        ),
                    }
                } else {
                    match ydotool_button_spec(b) {
                        Some(code) => r matches Ok((cs, k)) && k == n && cs@.len() == n && forall|i: int|
                            0 <= i < n ==> runs(#[trigger] cs@[i], "ydotool"@, seq!["click"@, "-B"@, code]),
                        None => r matches Err(e) && e@ == ToolErrorView::InvalidArguments(
                            "ydotool: unknown button '"@ + b + "'. Valid: left, middle, right"@,
                        ),
                    }
                }
            }),
    {
        let b: &str = match button {
            Some(b) => b,
            None => "left",
        };
        if !self.has_xdotool && !self.has_ydotool {
            if let Err(e) = xdotool_button(b) {
                return Err(e);
            }
        }
        if let Err(e) = self.require_mouse() {
            return Err(e);
        }
        let n = click_repeat(repeat);
        let mut cs: Vec<CommandLine> = Vec::new();
        if self.has_xdotool {
            let code = match xdotool_button(b) {
                Ok(c) => c,
                Err(e) => {
                    return Err(e);
                },
            };
            let mut a: Vec<String> = Vec::new();
            a.push(lit("click"));
            if n > 1 {
                a.push(lit("--repeat"));
                a.push(u64_text(n));
            }
            a.push(lit(code));
            assert(strings_view(a@) =~= xdotool_click_args(code@, n as nat));
            cs.push(command_line("xdotool", a));
            Ok((cs, n))
        } else {
            let code = match ydotool_button(b) {
                Ok(c) => c,
                Err(e) => {
                    return Err(e);
                },
            };
            let mut i: u64 = 0;
            while i < n
                invariant
                    i <= n,
                    cs@.len() == i,
                    forall|j: int| 0 <= j < i ==> runs(#[trigger] cs@[j], "ydotool"@, seq!["click"@, "-B"@, code@]),
                decreases n - i,
            {
                let mut a: Vec<String> = Vec::new();
                a.push(lit("click"));
                a.push(lit("-B"));
                a.push(lit(code));
                assert(strings_view(a@) =~= seq!["click"@, "-B"@, code@]);
                cs.push(command_line("ydotool", a));
                i = i + 1;
            }
            Ok((cs, n))
        }
    }

    /// The command that scrolls the wheel by `delta` (positive is up).
    pub fn mouse_scroll_command(&self, delta: i64) -> (r: Result<CommandLine, ToolError>)
        ensures
            r is Ok <==> (self.has_xdotool || self.has_ydotool),
            r matches Err(e) ==> e@ == ToolErrorView::ExecutionFailed(mouse_missing_text()),
            r matches Ok(c) ==> runs(c, mouse_program(self.has_xdotool), mouse_scroll_args(self.has_xdotool, delta)),
    {
        if let Err(e) = self.require_mouse() {
            return Err(e);
        }
        let mut a: Vec<String> = Vec::new();
        if self.has_xdotool {
            let (button, clicks) = scroll_clicks(delta);
            a.push(lit("click"));
            if clicks > 1 {
                a.push(lit("--repeat"));
                a.push(u64_text(clicks));
            }
            a.push(lit(button));
            assert(strings_view(a@) =~= mouse_scroll_args(true, delta));
            Ok(command_line("xdotool", a))
        } else {
            a.push(lit("mousemove"));
            a.push(lit("--wheel"));
            a.push(lit("-d"));
            a.push(i64_text(delta));
            assert(strings_view(a@) =~= mouse_scroll_args(false, delta));
            Ok(command_line("ydotool", a))
        }
    }

    /// The command that types `text` (required) with `delay_ms` between keys.
    pub fn key_type_command(&self, text: Option<&str>, delay_ms: u64) -> (r: Result<CommandLine, ToolError>)
        ensures
            !(self.has_xdotool || self.has_ydotool || self.has_wtype) ==> (r matches Err(e) && e@
                == ToolErrorView::ExecutionFailed(keyboard_missing_text())),
            (self.has_xdotool || self.has_ydotool || self.has_wtype) ==> match text {
                None => r matches Err(e) && e@ == ToolErrorView::InvalidArguments("'"@ + "text"@ + "' is required (string)"@),
                Some(t) => r matches Ok(c) && runs(c, keyboard_program(*self), key_type_args(*self, t@, delay_ms)),
            },
    {
        if let Err(e) = self.require_keyboard() {
            return Err(e);
        }
        let t: &str = match text {
            Some(t) => t,
            None => {
                return Err(missing_string_arg("text"));
            },
        };
        let mut a: Vec<String> = Vec::new();
        if self.has_xdotool || self.has_ydotool {
            a.push(lit("type"));
            a.push(lit("--delay"));
            a.push(u64_text(delay_ms));
            a.push(lit(t));
        } else {
            a.push(lit("-d"));
            a.push(u64_text(delay_ms));
            a.push(lit(t));
        }
        assert(strings_view(a@) =~= key_type_args(*self, t@, delay_ms));
        Ok(command_line(self.keyboard_program_name(), a))
    }

    fn keyboard_program_name(&self) -> (p: &'static str)
        ensures
            p@ == keyboard_program(*self),
    {
        if self.has_xdotool {
            "xdotool"
        } else if self.has_ydotool {
            "ydotool"
        } else {
            "wtype"
        }
    }

    /// The command that presses `key` (required), or holds it down.
    pub fn key_press_command(&self, key: Option<&str>, hold: bool) -> (r: Result<CommandLine, ToolError>)
        ensures
            !(self.has_xdotool || self.has_ydotool || self.has_wtype) ==> (r matches Err(e) && e@
                == ToolErrorView::ExecutionFailed(keyboard_missing_text())),
            (self.has_xdotool || self.has_ydotool || self.has_wtype) ==> match key {
                None => r matches Err(e) && e@ == ToolErrorView::InvalidArguments("'"@ + "key"@ + "' is required (string)"@),
                Some(k) => r matches Ok(c) && runs(c, keyboard_program(*self), key_press_args(*self, k@, hold)),
            },
    {
        if let Err(e) = self.require_keyboard() {
            return Err(e);
        }
        let k: &str = match key {
            Some(k) => k,
            None => {
                return Err(missing_string_arg("key"));
            },
        };
        Ok(command_line(self.keyboard_program_name(), self.press_args(k, hold)))
    }

    fn press_args(&self, key: &str, hold: bool) -> (a: Vec<String>)
        ensures
            strings_view(a@) == key_press_args(*self, key@, hold),
    {
        let mut a: Vec<String> = Vec::new();
        if self.has_xdotool || self.has_ydotool {
            a.push(
                lit(
                    if hold {
                        "keydown"
                    } else {
                        "key"
                    },
                ),
            );
        } else {
            a.push(
                lit(
                    if hold {
                        "-P"
                    } else {
                        "-k"
                    },
                ),
            );
        }
        a.push(lit(key));
        assert(strings_view(a@) =~= key_press_args(*self, key@, hold));
        a
    }

    /// The command that presses the combination `keys` (required), e.g. `ctrl+c`.
    pub fn key_hotkey_command(&self, keys: Option<&str>, hold: bool) -> (r: Result<CommandLine, ToolError>)
        ensures
            !(self.has_xdotool || self.has_ydotool || self.has_wtype) ==> (r matches Err(e) && e@
                == ToolErrorView::ExecutionFailed(keyboard_missing_text())),
            (self.has_xdotool || self.has_ydotool || self.has_wtype) ==> match keys {
                None => r matches Err(e) && e@ == ToolErrorView::InvalidArguments("'"@ + "keys"@ + "' is required (string)"@),
                Some(k) => r matches Ok(c) && runs(c, keyboard_program(*self), key_hotkey_args(*self, k@, hold)),
            },
    {
        if let Err(e) = self.require_keyboard() {
            return Err(e);
        }
        let k: &str = match keys {
            Some(k) => k,
            None => {
                return Err(missing_string_arg("keys"));
            },
        };
        if self.has_xdotool || self.has_ydotool {
            Ok(command_line(self.keyboard_program_name(), self.press_args(k, hold)))
        } else {
            Ok(command_line("wtype", hotkey_to_wtype_args(k)))
        }
    }

    /// The command that reports the pointer position (xdotool only).
    pub fn mouse_position_command(&self) -> (r: Result<CommandLine, ToolError>)
        ensures
            r is Ok <==> self.has_xdotool,
            r matches Err(e) ==> e@ == ToolErrorView::ExecutionFailed(position_missing_text()),
            r matches Ok(c) ==> runs(c, "xdotool"@, seq!["getmouselocation"@]),
    {
        if let Err(e) = self.require_position_backend() {
            return Err(e);
        }
        let mut a: Vec<String> = Vec::new();
        a.push(lit("getmouselocation"));
        assert(strings_view(a@) =~= seq!["getmouselocation"@]);
        Ok(command_line("xdotool", a))
    }

    /// The command that prints the clipboard: `xclip -o -selection clipboard`,
    /// else `wl-paste --no-newline`.
    pub fn clipboard_get_command(&self) -> (r: Result<CommandLine, ToolError>)
        ensures
            r is Ok <==> (self.has_xclip || self.has_wl_clipboard),
            r matches Err(e) ==> e@ == ToolErrorView::ExecutionFailed(clipboard_missing_text()),
            r matches Ok(c) ==> if self.has_xclip {
                runs(c, "xclip"@, seq!["-o"@, "-selection"@, "clipboard"@])
            } else {
                runs(c, "wl-paste"@, seq!["--no-newline"@])
            },
    {
        if let Err(e) = self.require_clipboard() {
            return Err(e);
        }
        let mut a: Vec<String> = Vec::new();
        if self.has_xclip {
            a.push(lit("-o"));
            a.push(lit("-selection"));
            a.push(lit("clipboard"));
            assert(strings_view(a@) =~= seq!["-o"@, "-selection"@, "clipboard"@]);
            Ok(command_line("xclip", a))
        } else {
            a.push(lit("--no-newline"));
            assert(strings_view(a@) =~= seq!["--no-newline"@]);
            Ok(command_line("wl-paste", a))
        }
    }

    /// The command that reads new clipboard text (required) from its stdin:
    /// `xclip -selection clipboard`, else `wl-copy`.
    pub fn clipboard_set_command(&self, text: Option<&str>) -> (r: Result<CommandLine, ToolError>)
        ensures
            !(self.has_xclip || self.has_wl_clipboard) ==> (r matches Err(e) && e@ == ToolErrorView::ExecutionFailed(
                clipboard_missing_text(),
            )),
            (self.has_xclip || self.has_wl_clipboard) ==> match text {
                None => r matches Err(e) && e@ == ToolErrorView::InvalidArguments("'"@ + "text"@ + "' is required (string)"@),
                Some(_) => r matches Ok(c) && if self.has_xclip {
                    runs(c, "xclip"@, seq!["-selection"@, "clipboard"@])
                } else {
                    runs(c, "wl-copy"@, Seq::<Seq<char>>::empty())
                },
            },
    {
        if let Err(e) = self.require_clipboard() {
            return Err(e);
        }
        if text.is_none() {
            return Err(missing_string_arg("text"));
        }
        let mut a: Vec<String> = Vec::new();
        if self.has_xclip {
            a.push(lit("-selection"));
            a.push(lit("clipboard"));
            assert(strings_view(a@) =~= seq!["-selection"@, "clipboard"@]);
            Ok(command_line("xclip", a))
        } else {
            assert(strings_view(a@) =~= Seq::<Seq<char>>::empty());
            Ok(command_line("wl-copy", a))
        }
    }
}

} // verus!
