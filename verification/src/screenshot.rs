//! Screen capture and OCR: backend choice, the capture command line, and
//! the parsing of what `xdpyinfo`, `file` and `tesseract` print.
//!
//! Capture backends, in order of preference: scrot, maim, import
//! (ImageMagick), xwd, gnome-screenshot. OCR goes through the Tesseract CLI.
//! Which programs are installed, and whether `$DISPLAY` is set, is found
//! out by the caller.

use vstd::prelude::*;
use crate::text::{
    append_chars, append_str, chars_eq_str, chars_of, lines_spec, nat_decimal, parse_u64,
    parse_u64_spec, split_char, split_lines, split_on, split_words, string_from_chars,
    strings_view, trim, trim_spec, words, is_digit, lit, lowercase,
};
use crate::tool::{command_line, execution_failed, invalid_arguments, runs, CommandLine, ToolError, ToolErrorView};
use crate::cron::slice_suffix;
use crate::store::starts_with;
use base64::Engine;

verus! {

/// The program that takes screenshots.
#[derive(Debug, Clone, Copy, PartialEq, Eq, Structural)]
pub enum CaptureBackend {
    Scrot,
    Maim,
    Import,
    Xwd,
    GnomeScreenshot,
    NoBackend,
}

/// Capture the desktop (full screen, region, or specific window), or read
/// text out of an image.
#[derive(Debug, Clone, Copy, PartialEq, Eq)]
pub struct ScreenshotTool {
    pub backend: CaptureBackend,
    pub has_xdpyinfo: bool,
    pub has_tesseract: bool,
}

/// The first capture program found: scrot, maim, import, xwd, gnome-screenshot.
pub fn detect_backend(
    has_scrot: bool,
    has_maim: bool,
    has_import: bool,
    has_xwd: bool,
    has_gnome_screenshot: bool,
) -> (b: CaptureBackend)
    ensures
        b == (if has_scrot {
            CaptureBackend::Scrot
        } else if has_maim {
            CaptureBackend::Maim
        } else if has_import {
            CaptureBackend::Import
        } else if has_xwd {
            CaptureBackend::Xwd
        } else if has_gnome_screenshot {
            CaptureBackend::GnomeScreenshot
        } else {
            CaptureBackend::NoBackend
        }),
{
    if has_scrot {
        CaptureBackend::Scrot
    } else if has_maim {
        CaptureBackend::Maim
    } else if has_import {
        CaptureBackend::Import
    } else if has_xwd {
        CaptureBackend::Xwd
    } else if has_gnome_screenshot {
        CaptureBackend::GnomeScreenshot
    } else {
        CaptureBackend::NoBackend
    }
}

/// The backend's name as reported to the model (its `Debug` name in lower case).
pub open spec fn backend_name_spec(b: CaptureBackend) -> Seq<char> {
    match b {
        CaptureBackend::Scrot => "scrot"@,
        CaptureBackend::Maim => "maim"@,
        CaptureBackend::Import => "import"@,
        CaptureBackend::Xwd => "xwd"@,
        CaptureBackend::GnomeScreenshot => "gnomescreenshot"@,
        CaptureBackend::NoBackend => "none"@,
    }
}

pub fn backend_name(b: CaptureBackend) -> (s: &'static str)
    ensures
        s@ == backend_name_spec(b),
{
    match b {
        CaptureBackend::Scrot => "scrot",
        CaptureBackend::Maim => "maim",
        CaptureBackend::Import => "import",
        CaptureBackend::Xwd => "xwd",
        CaptureBackend::GnomeScreenshot => "gnomescreenshot",
        CaptureBackend::NoBackend => "none",
    }
}

pub open spec fn no_backend_text() -> Seq<char> {
    "No screen capture tool found. Install one of:\n\
     sudo apt install scrot       # fastest, recommended\n\
     sudo apt install maim        # modern alternative\n\
     sudo apt install imagemagick # adds import + convert\n\
     sudo pacman -S scrot         # Arch\n\
     brew install scrot           # macOS (requires XQuartz)"@
}

pub open spec fn no_display_text() -> Seq<char> {
    "No X11 display found. $DISPLAY is not set. \
     Make sure you are running in a desktop session or set DISPLAY=:0"@
}

pub open spec fn no_tesseract_text() -> Seq<char> {
    "Tesseract OCR is not installed. Install it with:\n\
     sudo apt install tesseract-ocr    # Debian/Ubuntu\n\
     sudo pacman -S tesseract           # Arch\n\
     brew install tesseract             # macOS"@
}

impl ScreenshotTool {
    pub fn new(backend: CaptureBackend, has_xdpyinfo: bool, has_tesseract: bool) -> (t: ScreenshotTool)
        ensures
            t == (ScreenshotTool { backend, has_xdpyinfo, has_tesseract }),
    {
        ScreenshotTool { backend, has_xdpyinfo, has_tesseract }
    }

    /// Capturing needs a backend and an X11 display.
    pub fn require_backend(&self, display_set: bool) -> (r: Result<(), ToolError>)
        ensures
            r is Ok <==> (self.backend != CaptureBackend::NoBackend && display_set),
            r matches Err(e) ==> e@ == ToolErrorView::ExecutionFailed(
                if self.backend == CaptureBackend::NoBackend { no_backend_text() } else { no_display_text() },
            ),
    {
        if self.backend == CaptureBackend::NoBackend {
            return Err(
                execution_failed(
                    "No screen capture tool found. Install one of:\n\
                     sudo apt install scrot       # fastest, recommended\n\
                     sudo apt install maim        # modern alternative\n\
                     sudo apt install imagemagick # adds import + convert\n\
                     sudo pacman -S scrot         # Arch\n\
                     brew install scrot           # macOS (requires XQuartz)",
                ),
            );
        }
        if !display_set {
            return Err(
                execution_failed(
                    "No X11 display found. $DISPLAY is not set. \
                     Make sure you are running in a desktop session or set DISPLAY=:0",
                ),
            );
        }
        Ok(())
    }

    /// OCR needs tesseract.
    pub fn require_ocr(&self) -> (r: Result<(), ToolError>)
        ensures
            r is Ok <==> self.has_tesseract,
            r matches Err(e) ==> e@ == ToolErrorView::ExecutionFailed(no_tesseract_text()),
    {
        if !self.has_tesseract {
            return Err(
                execution_failed(
                    "Tesseract OCR is not installed. Install it with:\n\
                     sudo apt install tesseract-ocr    # Debian/Ubuntu\n\
                     sudo pacman -S tesseract           # Arch\n\
                     brew install tesseract             # macOS",
                ),
            );
        }
        Ok(())
    }
}

/// The capture region: all four of `x`, `y`, `width`, `height` given, with
/// a positive width and height.
pub fn capture_region(x: Option<u64>, y: Option<u64>, width: Option<u64>, height: Option<u64>) -> (r:
    Option<(u64, u64, u64, u64)>)
    ensures
        r == (match (x, y, width, height) {
            (Some(x), Some(y), Some(w), Some(h)) => if w > 0 && h > 0 {
                Some((x, y, w, h))
            } else {
                None
            },
            _ => None,
        }),
{
    match (x, y, width, height) {
        (Some(x), Some(y), Some(w), Some(h)) => {
            if w > 0 && h > 0 {
                Some((x, y, w, h))
            } else {
                None
            }
        },
        _ => None,
    }
}

/// `x,y,w,h`, as scrot and gnome-screenshot take a region.
pub open spec fn comma_region(x: u64, y: u64, w: u64, h: u64) -> Seq<char> {
    nat_decimal(x as nat) + ","@ + nat_decimal(y as nat) + ","@ + nat_decimal(w as nat) + ","@
        + nat_decimal(h as nat)
}

/// `WxH+X+Y`, an X11 geometry, as maim and import take a region.
pub open spec fn geometry(x: u64, y: u64, w: u64, h: u64) -> Seq<char> {
    nat_decimal(w as nat) + "x"@ + nat_decimal(h as nat) + "+"@ + nat_decimal(x as nat) + "+"@
        + nat_decimal(y as nat)
}

/// The program, arguments and image type of a capture into `path`.
pub open spec fn capture_spec(
    b: CaptureBackend,
    region: Option<(u64, u64, u64, u64)>,
    window_id: Option<Seq<char>>,
    path: Seq<char>,
) -> (Seq<char>, Seq<Seq<char>>, Seq<char>) {
    match b {
        CaptureBackend::Scrot => (
            "scrot"@,
            seq!["-z"@] + (match region {
                Some((x, y, w, h)) => seq!["-a"@, comma_region(x, y, w, h)],
                None => Seq::<Seq<char>>::empty(),
            }) + seq![path],
            "image/png"@,
        ),
        CaptureBackend::Maim => (
            "maim"@,
            seq!["-u"@] + (match region {
                Some((x, y, w, h)) => seq!["-g"@, geometry(x, y, w, h)],
                None => Seq::<Seq<char>>::empty(),
            }) + (match window_id {
                Some(id) => seq!["-i"@, id],
                None => Seq::<Seq<char>>::empty(),
            }) + seq![path],
            "image/png"@,
        ),
        CaptureBackend::Import => (
            "import"@,
            (match region {
                Some((x, y, w, h)) => seq!["-window"@, "root"@, "-crop"@, geometry(x, y, w, h)],
                None => match window_id {
                    Some(id) => seq!["-window"@, id],
                    None => seq!["-window"@, "root"@],
                },
            }) + seq![path],
            "image/png"@,
        ),
        CaptureBackend::Xwd => (
            "xwd"@,
            seq!["-out"@, path] + (match window_id {
                Some(id) => seq!["-id"@, id],
                None => seq!["-root"@],
            }),
            "image/x-xwd"@,
        ),
        _ => (
            "gnome-screenshot"@,
            seq!["-f"@, path] + (match region {
                Some((x, y, w, h)) => seq!["-a"@, comma_region(x, y, w, h)],
                None => Seq::<Seq<char>>::empty(),
            }),
            "image/png"@,
        ),
    }
}

/// A capture command line.
pub struct CaptureCommand {
    pub program: &'static str,
    pub args: Vec<String>,
    pub mime_type: &'static str,
}

fn comma_region_text(x: u64, y: u64, w: u64, h: u64) -> (s: String)
    ensures
        s@ == comma_region(x, y, w, h),
{
    let mut v: Vec<char> = Vec::new();
    append_chars(&mut v, &crate::text::fmt_u64(x));
    append_str(&mut v, ",");
    append_chars(&mut v, &crate::text::fmt_u64(y));
    append_str(&mut v, ",");
    append_chars(&mut v, &crate::text::fmt_u64(w));
    append_str(&mut v, ",");
    append_chars(&mut v, &crate::text::fmt_u64(h));
    assert(v@ =~= comma_region(x, y, w, h));
    string_from_chars(&v)
}

fn geometry_text(x: u64, y: u64, w: u64, h: u64) -> (s: String)
    ensures
        s@ == geometry(x, y, w, h),
{
    let mut v: Vec<char> = Vec::new();
    append_chars(&mut v, &crate::text::fmt_u64(w));
    append_str(&mut v, "x");
    append_chars(&mut v, &crate::text::fmt_u64(h));
    append_str(&mut v, "+");
    append_chars(&mut v, &crate::text::fmt_u64(x));
    append_str(&mut v, "+");
    append_chars(&mut v, &crate::text::fmt_u64(y));
    assert(v@ =~= geometry(x, y, w, h));
    string_from_chars(&v)
}

impl ScreenshotTool {
    /// The command that captures the screen (or `region`, or the window
    /// `window_id`) into the file `path`, and the type of image it writes.
    pub fn capture_command(
        &self,
        region: Option<(u64, u64, u64, u64)>,
        window_id: Option<&str>,
        path: &str,
        display_set: bool,
    ) -> (r: Result<CaptureCommand, ToolError>)
        ensures
            r is Ok <==> (self.backend != CaptureBackend::NoBackend && display_set),
            r matches Err(e) ==> e@ == ToolErrorView::ExecutionFailed(
                if self.backend == CaptureBackend::NoBackend { no_backend_text() } else { no_display_text() },
            ),
            r matches Ok(c) ==> {
                let spec = capture_spec(
                    self.backend,
                    region,
                    match window_id { Some(w) => Some(w@), None => None },
                    path@,
                );
                c.program@ == spec.0 && strings_view(c.args@) == spec.1 && c.mime_type@ == spec.2
            },
    {
        match self.require_backend(display_set) {
            Err(e) => {
                return Err(e);
            },
            Ok(()) => {},
        }
        let ghost wid: Option<Seq<char>> = match window_id { Some(w) => Some(w@), None => None };
        let mut args: Vec<String> = Vec::new();
        match self.backend {
            CaptureBackend::Scrot => {
                args.push(lit("-z"));
                if let Some((x, y, w, h)) = region {
                    args.push(lit("-a"));
                    args.push(comma_region_text(x, y, w, h));
                }
                args.push(lit(path));
                let ghost spec = capture_spec(self.backend, region, wid, path@);
                assert(strings_view(args@) =~= spec.1);
                Ok(CaptureCommand { program: "scrot", args, mime_type: "image/png" })
            },
            CaptureBackend::Maim => {
                args.push(lit("-u"));
                if let Some((x, y, w, h)) = region {
                    args.push(lit("-g"));
                    args.push(geometry_text(x, y, w, h));
                }
                if let Some(id) = window_id {
                    args.push(lit("-i"));
                    args.push(lit(id));
                }
                args.push(lit(path));
                let ghost spec = capture_spec(self.backend, region, wid, path@);
                assert(strings_view(args@) =~= spec.1);
                Ok(CaptureCommand { program: "maim", args, mime_type: "image/png" })
            },
            CaptureBackend::Import => {
                if let Some((x, y, w, h)) = region {
                    args.push(lit("-window"));
                    args.push(lit("root"));
                    args.push(lit("-crop"));
                    args.push(geometry_text(x, y, w, h));
                } else if let Some(id) = window_id {
                    args.push(lit("-window"));
                    args.push(lit(id));
                } else {
                    args.push(lit("-window"));
                    args.push(lit("root"));
                }
                args.push(lit(path));
                let ghost spec = capture_spec(self.backend, region, wid, path@);
                assert(strings_view(args@) =~= spec.1);
                Ok(CaptureCommand { program: "import", args, mime_type: "image/png" })
            },
            CaptureBackend::Xwd => {
                args.push(lit("-out"));
                args.push(lit(path));
                if let Some(id) = window_id {
                    args.push(lit("-id"));
                    args.push(lit(id));
                } else {
                    args.push(lit("-root"));
                }
                let ghost spec = capture_spec(self.backend, region, wid, path@);
                assert(strings_view(args@) =~= spec.1);
                Ok(CaptureCommand { program: "xwd", args, mime_type: "image/x-xwd" })
            },
            _ => {
                args.push(lit("-f"));
                args.push(lit(path));
                if let Some((x, y, w, h)) = region {
                    args.push(lit("-a"));
                    args.push(comma_region_text(x, y, w, h));
                }
                let ghost spec = capture_spec(self.backend, region, wid, path@);
                assert(strings_view(args@) =~= spec.1);
                Ok(CaptureCommand { program: "gnome-screenshot", args, mime_type: "image/png" })
            },
        }
    }
}

/// Why a base64 text did not decode (base64's `DecodeError`, by value).
#[derive(Debug, Clone, Copy, PartialEq, Eq)]
pub enum Base64Failure {
    InvalidByte(usize, u8),
    InvalidLength(usize),
    InvalidLastSymbol(usize, u8),
    InvalidPadding,
}

/// What the standard base64 engine decodes a text to.
pub uninterp spec fn base64_decoding(s: Seq<char>) -> Result<Seq<u8>, Base64Failure>;

/// The char of a 6-bit value in the standard base64 alphabet
/// (`A`-`Z`, `a`-`z`, `0`-`9`, `+`, `/`).
pub open spec fn b64_char(v: int) -> char {
    if v < 26 {
        (('A' as int) + v) as char
    } else if v < 52 {
        (('a' as int) + v - 26) as char
    } else if v < 62 {
        (('0' as int) + v - 52) as char
    } else if v == 62 {
        '+'
    } else {
        '/'
    }
}

/// Standard padded base64: each 3 bytes become 4 chars of 6 bits each; a
/// last group of 1 or 2 bytes is completed with zero bits and `=` signs.
pub open spec fn base64_encoding(data: Seq<u8>) -> Seq<char>
    decreases data.len(),
{
    if data.len() == 0 {
        Seq::empty()
    } else if data.len() == 1 {
        let a = data[0] as int;
        seq![b64_char(a / 4), b64_char((a % 4) * 16), '=', '=']
    } else if data.len() == 2 {
        let a = data[0] as int;
        let b = data[1] as int;
        seq![b64_char(a / 4), b64_char((a % 4) * 16 + b / 16), b64_char((b % 16) * 4), '=']
    } else {
        let a = data[0] as int;
        let b = data[1] as int;
        let c = data[2] as int;
        seq![b64_char(a / 4), b64_char((a % 4) * 16 + b / 16), b64_char((b % 16) * 4 + c / 64), b64_char(c % 64)]
            + base64_encoding(data.skip(3))
    }
}

/// Calls base64's `STANDARD.decode` (padded standard alphabet, canonical
/// padding required, no trailing bits allowed) on the text's bytes and hands
/// the error back by value; the outcome is named `base64_decoding`. Claimed
/// too: a text that decodes is the standard encoding of what it decodes to.
#[verifier::external_body]
fn base64_decode(s: &str) -> (r: Result<Vec<u8>, Base64Failure>)
    ensures
        match r {
            Ok(v) => base64_decoding(s@) matches Ok(d) && d == v@ && base64_encoding(v@) == s@,
            Err(f) => base64_decoding(s@) matches Err(g) && g == f,
        },
{
    match base64::engine::general_purpose::STANDARD.decode(s) {
        Ok(v) => Ok(v),
        Err(base64::DecodeError::InvalidByte(i, b)) => Err(Base64Failure::InvalidByte(i, b)),
        Err(base64::DecodeError::InvalidLength(n)) => Err(Base64Failure::InvalidLength(n)),
        Err(base64::DecodeError::InvalidLastSymbol(i, b)) => Err(Base64Failure::InvalidLastSymbol(i, b)),
        Err(base64::DecodeError::InvalidPadding) => Err(Base64Failure::InvalidPadding),
    }
}

/// Calls base64's `STANDARD.encode`; claimed: the text is the standard
/// padded encoding `base64_encoding`. The engine panics when the encoded
/// length overflows `usize`, which the bound rules out.
#[verifier::external_body]
fn base64_encode(data: &[u8]) -> (s: String)
    requires
        data@.len() <= usize::MAX / 2,
    ensures
        s@ == base64_encoding(data@),
{
    base64::engine::general_purpose::STANDARD.encode(data)
}

/// A captured image as base64 text.
pub fn encode_image(data: &[u8]) -> (s: String)
    requires
        data@.len() <= usize::MAX / 2,
    ensures
        s@ == base64_encoding(data@),
{
    base64_encode(data)
}

/// base64's `Display` text for a decode error.
pub open spec fn base64_failure_text(f: Base64Failure) -> Seq<char> {
    match f {
        Base64Failure::InvalidByte(i, b) => "Invalid symbol "@ + nat_decimal(b as nat) + ", offset "@
            + nat_decimal(i as nat) + "."@,
        Base64Failure::InvalidLength(n) => "Invalid input length: "@ + nat_decimal(n as nat),
        Base64Failure::InvalidLastSymbol(i, b) => "Invalid last symbol "@ + nat_decimal(b as nat)
            + ", offset "@ + nat_decimal(i as nat) + "."@,
        Base64Failure::InvalidPadding => "Invalid padding"@,
    }
}

fn base64_failure_message(f: Base64Failure) -> (s: Vec<char>)
    ensures
        s@ == base64_failure_text(f),
{
    let mut v: Vec<char> = Vec::new();
    match f {
        Base64Failure::InvalidByte(i, b) => {
            append_str(&mut v, "Invalid symbol ");
            append_chars(&mut v, &crate::text::fmt_u64(b as u64));
            append_str(&mut v, ", offset ");
            append_chars(&mut v, &crate::text::fmt_u64(i as u64));
            append_str(&mut v, ".");
        },
        Base64Failure::InvalidLength(n) => {
            append_str(&mut v, "Invalid input length: ");
            append_chars(&mut v, &crate::text::fmt_u64(n as u64));
        },
        Base64Failure::InvalidLastSymbol(i, b) => {
            append_str(&mut v, "Invalid last symbol ");
            append_chars(&mut v, &crate::text::fmt_u64(b as u64));
            append_str(&mut v, ", offset ");
            append_chars(&mut v, &crate::text::fmt_u64(i as u64));
            append_str(&mut v, ".");
        },
        Base64Failure::InvalidPadding => {
            append_str(&mut v, "Invalid padding");
        },
    }
    assert(v@ =~= base64_failure_text(f));
    v
}

/// Where the image to read text from comes from.
pub enum OcrSource {
    /// Decoded from the `image_base64` argument.
    Bytes(Vec<u8>),
    /// To be read from the file at this path.
    File(String),
}

pub open spec fn no_ocr_input_text() -> Seq<char> {
    "provide 'image_base64' (from screenshot capture) or 'file_path' (path to image)"@
}

/// Picks the OCR input: `image_base64` (decoded) first, else `file_path`.
pub fn ocr_source(image_base64: Option<&str>, file_path: Option<&str>) -> (r: Result<OcrSource, ToolError>)
    ensures
        match image_base64 {
            Some(b) => match base64_decoding(b@) {
                Ok(bytes) => r matches Ok(OcrSource::Bytes(v)) && v@ == bytes,
                Err(f) => r matches Err(e) && e@ == ToolErrorView::InvalidArguments(
                    "invalid base64: "@ + base64_failure_text(f),
                ),
            },
            None => match file_path {
                Some(p) => r matches Ok(OcrSource::File(q)) && q@ == p@,
                None => r matches Err(e) && e@ == ToolErrorView::InvalidArguments(no_ocr_input_text()),
            },
        },
{
    match image_base64 {
        Some(b) => match base64_decode(b) {
            Ok(bytes) => Ok(OcrSource::Bytes(bytes)),
            Err(f) => {
                let mut v: Vec<char> = Vec::new();
                append_str(&mut v, "invalid base64: ");
                let m = base64_failure_message(f);
                append_chars(&mut v, &m);
                Err(invalid_arguments(string_from_chars(&v)))
            },
        },
        None => match file_path {
            Some(p) => Ok(OcrSource::File(lit(p))),
            None => Err(
                invalid_arguments(
                    lit("provide 'image_base64' (from screenshot capture) or 'file_path' (path to image)"),
                ),
            ),
        },
    }
}

/// The confidence column (the eleventh, tab-separated) of each row of
/// tesseract's TSV output after the header, for rows that have one.
pub open spec fn tsv_confidences_spec(tsv: Seq<char>) -> Seq<Seq<char>> {
    let ls = lines_spec(tsv);
    let rows = if ls.len() > 0 {
        ls.drop_first()
    } else {
        ls
    };
    rows.filter(|l: Seq<char>| split_char(l, '\t').len() > 10).map_values(
        |l: Seq<char>| split_char(l, '\t')[10],
    )
}

/// Collects the confidence fields of tesseract's TSV output (parsing them
/// as numbers and averaging is left to the caller).
pub fn tsv_confidences(tsv: &str) -> (out: Vec<String>)
    ensures
        strings_view(out@) == tsv_confidences_spec(tsv@),
{
    let chars = chars_of(tsv);
    let ls = split_lines(&chars);
    let ghost lv = ls.deep_view();
    let ghost rows = if lv.len() > 0 {
        lv.drop_first()
    } else {
        lv
    };
    let ghost f = |l: Seq<char>| split_char(l, '\t').len() > 10;
    let ghost g = |l: Seq<char>| split_char(l, '\t')[10];
    let mut out: Vec<String> = Vec::new();
    if ls.len() == 0 {
        assert(rows.filter(f) =~= Seq::<Seq<char>>::empty());
        return out;
    }
    let mut i: usize = 1;
    while i < ls.len()
        invariant
            lv == ls.deep_view(),
            lv.len() > 0,
            rows == lv.drop_first(),
            1 <= i <= lv.len(),
            f == (|l: Seq<char>| split_char(l, '\t').len() > 10),
            g == (|l: Seq<char>| split_char(l, '\t')[10]),
            strings_view(out@) == rows.take(i - 1).filter(f).map_values(g),
        decreases ls.len() - i,
    {
        let line: &Vec<char> = &ls[i];
        let cols = split_on(line.as_slice(), '\t');
        proof {
            assert(lv[i as int] == line@);
            assert(rows.take(i as int).drop_last() =~= rows.take(i - 1));
            assert(rows.take(i as int) =~= rows.take(i - 1).push(line@));
            rows.take(i - 1).lemma_filter_push(line@, f);
        }
        let ghost before = strings_view(out@);
        if cols.len() > 10 {
            let c = string_from_chars(cols[10].as_slice());
            assert(c@ == split_char(line@, '\t')[10]);
            out.push(c);
            proof {
                assert(strings_view(out@) =~= before.push(c@));
                assert(rows.take(i as int).filter(f) == rows.take(i - 1).filter(f).push(line@));
                assert(rows.take(i as int).filter(f).map_values(g) =~= rows.take(i - 1).filter(f).map_values(g).push(g(line@)));
            }
        } else {
            assert(rows.take(i as int).filter(f) == rows.take(i - 1).filter(f));
        }
        i = i + 1;
    }
    assert(rows.take(i - 1) =~= rows);
    out
}

/// What one line of `xdpyinfo` output says about the screen size: `None`
/// if it is not the `dimensions:` line or names no size (read on), else the
/// answer (`WxH` read as two `u64`s, `None` if that fails).
pub open spec fn dimensions_line(l: Seq<char>) -> Option<Option<(u64, u64)>> {
    let t = trim_spec(l);
    if "dimensions:"@.is_prefix_of(t) {
        let ws = words(trim_spec(t.skip(11)));
        if ws.len() == 0 {
            None
        } else {
            let pieces = split_char(ws[0], 'x');
            Some(
                if pieces.len() >= 2 {
                    match (parse_u64_spec(pieces[0]), parse_u64_spec(pieces[1])) {
                        (Some(w), Some(h)) => Some((w, h)),
                        _ => None,
                    }
                } else {
                    None
                },
            )
        }
    } else {
        None
    }
}

pub open spec fn screen_dimensions_spec(ls: Seq<Seq<char>>) -> Option<(u64, u64)>
    decreases ls.len(),
{
    if ls.len() == 0 {
        None
    } else {
        match dimensions_line(ls[0]) {
            Some(r) => r,
            None => screen_dimensions_spec(ls.drop_first()),
        }
    }
}

fn dimensions_in_line(l: &[char]) -> (r: Option<Option<(u64, u64)>>)
    ensures
        r == dimensions_line(l@),
{
    let t = trim(l);
    let key = chars_of("dimensions:");
    if !starts_with(&t, &key) {
        return None;
    }
    proof {
        reveal_strlit("dimensions:");
    }
    let rest = slice_suffix(&t, 11);
    let rest_t = trim(&rest);
    let ws = split_words(&rest_t);
    if ws.len() == 0 {
        return None;
    }
    let w0: &Vec<char> = &ws[0];
    assert(w0@ == ws.deep_view()[0]);
    let pieces = split_on(w0.as_slice(), 'x');
    assert(pieces.deep_view() == split_char(ws.deep_view()[0], 'x'));
    if pieces.len() < 2 {
        return Some(None);
    }
    assert(pieces.deep_view()[0] == pieces@[0]@);
    assert(pieces.deep_view()[1] == pieces@[1]@);
    let w = parse_u64(pieces[0].as_slice());
    let h = parse_u64(pieces[1].as_slice());
    match (w, h) {
        (Some(w), Some(h)) => Some(Some((w, h))),
        _ => Some(None),
    }
}

/// The screen size that `xdpyinfo` reports on its `dimensions:` line.
pub fn parse_screen_dimensions(output: &str) -> (r: Option<(u64, u64)>)
    ensures
        r == screen_dimensions_spec(lines_spec(output@)),
{
    let chars = chars_of(output);
    let ls = split_lines(&chars);
    let ghost lv = ls.deep_view();
    let mut i: usize = 0;
    assert(lv.skip(0) =~= lv);
    while i < ls.len()
        invariant
            lv == ls.deep_view(),
            lv == lines_spec(output@),
            i <= lv.len(),
            screen_dimensions_spec(lv) == screen_dimensions_spec(lv.skip(i as int)),
        decreases ls.len() - i,
    {
        let line: &Vec<char> = &ls[i];
        assert(line@ == lv[i as int]);
        assert(lv.skip(i as int)[0] == lv[i as int]);
        assert(lv.skip(i as int).drop_first() =~= lv.skip(i + 1));
        let found = dimensions_in_line(line.as_slice());
        assert(found == dimensions_line(lv.skip(i as int)[0]));
        match found {
            Some(r) => {
                assert(screen_dimensions_spec(lv.skip(i as int)) == r);
                return r;
            },
            None => {},
        }
        i = i + 1;
    }
    assert(lv.skip(i as int) =~= Seq::<Seq<char>>::empty());
    None
}

/// Where the first ASCII digit of `s` is, at or after `from`.
pub open spec fn first_digit_from(s: Seq<char>, from: nat) -> Option<nat>
    decreases s.len() - from,
{
    if from >= s.len() {
        None
    } else if is_digit(s[from as int]) {
        Some(from)
    } else {
        first_digit_from(s, from + 1)
    }
}

/// The separators of the size in `file` output: `x`, `X` or a space.
pub open spec fn is_size_sep(c: char) -> bool {
    c == 'x' || c == 'X' || c == ' '
}

/// Where the first separator of `s` is, at or after `from`.
pub open spec fn first_sep_from(s: Seq<char>, from: nat) -> Option<nat>
    decreases s.len() - from,
{
    if from >= s.len() {
        None
    } else if is_size_sep(s[from as int]) {
        Some(from)
    } else {
        first_sep_from(s, from + 1)
    }
}

/// `splitn(3, sep)`: at most three pieces, the last holding the rest.
pub open spec fn split3(s: Seq<char>) -> Seq<Seq<char>> {
    match first_sep_from(s, 0) {
        None => seq![s],
        Some(i) => {
            let r = s.skip(i as int + 1);
            match first_sep_from(r, 0) {
                None => seq![s.take(i as int), r],
                Some(j) => seq![s.take(i as int), r.take(j as int), r.skip(j as int + 1)],
            }
        },
    }
}

/// The leading ASCII digits of `s`.
pub open spec fn leading_digits(s: Seq<char>) -> Seq<char> {
    match first_non_digit(s, 0) {
        Some(k) => s.take(k as int),
        None => s,
    }
}

pub open spec fn first_non_digit(s: Seq<char>, from: nat) -> Option<nat>
    decreases s.len() - from,
{
    if from >= s.len() {
        None
    } else if !is_digit(s[from as int]) {
        Some(from)
    } else {
        first_non_digit(s, from + 1)
    }
}

/// What one line of `file` output says about an image's size.
pub enum LineSize {
    /// Nothing here; read on.
    Skip,
    /// A size that does not parse: the whole answer is none.
    Abort,
    /// The size.
    Found(u64, u64),
}

/// The size on a line of `file` output: from the first digit of the
/// lower-cased line, the first two non-empty pieces split at `x`, `X` or a
/// space (at most three pieces); the width is the first piece, the height
/// the digits the second starts with.
pub open spec fn line_size(line: Seq<char>) -> LineSize {
    let lower = lowercase(line);
    match first_digit_from(lower, 0) {
        None => LineSize::Skip,
        Some(pos) => {
            let parts = split3(lower.skip(pos as int)).filter(|p: Seq<char>| p.len() > 0);
            if parts.len() < 2 {
                LineSize::Skip
            } else {
                match (parse_u64_spec(trim_spec(parts[0])), parse_u64_spec(leading_digits(parts[1]))) {
                    (Some(w), Some(h)) => if w > 0 && h > 0 {
                        LineSize::Found(w, h)
                    } else {
                        LineSize::Skip
                    },
                    _ => LineSize::Abort,
                }
            }
        },
    }
}

pub open spec fn image_dimensions_spec(ls: Seq<Seq<char>>) -> Option<(u64, u64)>
    decreases ls.len(),
{
    if ls.len() == 0 {
        None
    } else {
        match line_size(ls[0]) {
            LineSize::Found(w, h) => Some((w, h)),
            LineSize::Abort => None,
            LineSize::Skip => image_dimensions_spec(ls.drop_first()),
        }
    }
}

fn find_digit(s: &Vec<char>) -> (r: Option<usize>)
    ensures
        match r {
            Some(i) => first_digit_from(s@, 0) == Some(i as nat) && i < s@.len(),
            None => first_digit_from(s@, 0) is None,
        },
{
    let mut i: usize = 0;
    while i < s.len()
        invariant
            i <= s@.len(),
            first_digit_from(s@, 0) == first_digit_from(s@, i as nat),
        decreases s.len() - i,
    {
        if '0' <= s[i] && s[i] <= '9' {
            return Some(i);
        }
        i = i + 1;
    }
    None
}

fn find_size_sep(s: &Vec<char>) -> (r: Option<usize>)
    ensures
        match r {
            Some(i) => first_sep_from(s@, 0) == Some(i as nat) && i < s@.len(),
            None => first_sep_from(s@, 0) is None,
        },
{
    let mut i: usize = 0;
    while i < s.len()
        invariant
            i <= s@.len(),
            first_sep_from(s@, 0) == first_sep_from(s@, i as nat),
        decreases s.len() - i,
    {
        if s[i] == 'x' || s[i] == 'X' || s[i] == ' ' {
            return Some(i);
        }
        i = i + 1;
    }
    None
}

fn digits_prefix(s: &Vec<char>) -> (r: Vec<char>)
    ensures
        r@ == leading_digits(s@),
{
    let mut i: usize = 0;
    while i < s.len()
        invariant
            i <= s@.len(),
            first_non_digit(s@, 0) == first_non_digit(s@, i as nat),
        decreases s.len() - i,
    {
        if !('0' <= s[i] && s[i] <= '9') {
            return crate::cron::slice_prefix(s.as_slice(), i);
        }
        i = i + 1;
    }
    assert(s@.take(s@.len() as int) =~= s@);
    crate::cron::slice_prefix(s.as_slice(), s.len())
}

fn split_size(s: &Vec<char>) -> (r: Vec<Vec<char>>)
    ensures
        r.deep_view() == split3(s@).filter(|p: Seq<char>| p.len() > 0),
{
    let mut pieces: Vec<Vec<char>> = Vec::new();
    let n = s.len();
    match find_size_sep(s) {
        None => {
            let w = crate::cron::slice_prefix(s.as_slice(), n);
            assert(w@ =~= s@);
            pieces.push(w);
            assert(pieces.deep_view()[0] =~= pieces@[0]@);
            assert(pieces.deep_view() =~= split3(s@));
        },
        Some(i) => {
            assert(i < n);
            let a = crate::cron::slice_prefix(s.as_slice(), i);
            let r = slice_suffix(s.as_slice(), i + 1);
            let rn = r.len();
            match find_size_sep(&r) {
                None => {
                    let ghost rv = r@;
                    pieces.push(a);
                    pieces.push(r);
                    assert(pieces.deep_view()[0] =~= pieces@[0]@);
                    assert(pieces.deep_view()[1] =~= pieces@[1]@);
                    assert(pieces.deep_view() =~= seq![s@.take(i as int), rv]);
                },
                Some(j) => {
                    assert(j < rn);
                    let b = crate::cron::slice_prefix(r.as_slice(), j);
                    let c = slice_suffix(r.as_slice(), j + 1);
                    pieces.push(a);
                    pieces.push(b);
                    pieces.push(c);
                    assert(pieces.deep_view()[0] =~= pieces@[0]@);
                    assert(pieces.deep_view()[1] =~= pieces@[1]@);
                    assert(pieces.deep_view()[2] =~= pieces@[2]@);
                    assert(pieces.deep_view() =~= seq![s@.take(i as int), r@.take(j as int), r@.skip(j + 1)]);
                },
            }
        },
    }
    let ghost all = pieces.deep_view();
    assert(all =~= split3(s@));
    let ghost f = |p: Seq<char>| p.len() > 0;
    let mut out: Vec<Vec<char>> = Vec::new();
    let mut k: usize = 0;
    while k < pieces.len()
        invariant
            k <= pieces@.len(),
            all == pieces.deep_view(),
            f == (|p: Seq<char>| p.len() > 0),
            out.deep_view() == all.take(k as int).filter(f),
        decreases pieces.len() - k,
    {
        proof {
            assert(all.take(k + 1) =~= all.take(k as int).push(all[k as int]));
            all.take(k as int).lemma_filter_push(all[k as int], f);
        }
        if pieces[k].len() > 0 {
            let ghost before = out.deep_view();
            out.push(pieces[k].clone());
            assert(out.deep_view() =~= before.push(all[k as int]));
        }
        k = k + 1;
    }
    assert(all.take(all.len() as int) =~= all);
    out
}

fn size_in_line(line: &[char]) -> (r: LineSize)
    ensures
        r == line_size(line@),
{
    let text = string_from_chars(line);
    let lower = crate::text::to_lowercase(text.as_str());
    let lc = chars_of(lower.as_str());
    match find_digit(&lc) {
        None => LineSize::Skip,
        Some(pos) => {
            let rest = slice_suffix(lc.as_slice(), pos);
            let parts = split_size(&rest);
            if parts.len() < 2 {
                return LineSize::Skip;
            }
            assert(parts.deep_view()[0] == parts@[0]@);
            assert(parts.deep_view()[1] == parts@[1]@);
            let w = parse_u64(&trim(parts[0].as_slice()));
            let h = parse_u64(&digits_prefix(&parts[1]));
            match (w, h) {
                (Some(w), Some(h)) => {
                    if w > 0 && h > 0 {
                        LineSize::Found(w, h)
                    } else {
                        LineSize::Skip
                    }
                },
                _ => LineSize::Abort,
            }
        },
    }
}

/// The image size that the `file` command reports for a file, if it can be read.
pub fn parse_image_dimensions(output: &str) -> (r: Option<(u64, u64)>)
    ensures
        r == image_dimensions_spec(lines_spec(output@)),
{
    let chars = chars_of(output);
    let ls = split_lines(&chars);
    let ghost lv = ls.deep_view();
    let mut i: usize = 0;
    assert(lv.skip(0) =~= lv);
    while i < ls.len()
        invariant
            lv == ls.deep_view(),
            lv == lines_spec(output@),
            i <= lv.len(),
            image_dimensions_spec(lv) == image_dimensions_spec(lv.skip(i as int)),
        decreases ls.len() - i,
    {
        let line: &Vec<char> = &ls[i];
        assert(line@ == lv[i as int]);
        assert(lv.skip(i as int)[0] == lv[i as int]);
        assert(lv.skip(i as int).drop_first() =~= lv.skip(i + 1));
        match size_in_line(line.as_slice()) {
            LineSize::Found(w, h) => {
                return Some((w, h));
            },
            LineSize::Abort => {
                return None;
            },
            LineSize::Skip => {},
        }
        i = i + 1;
    }
    assert(lv.skip(i as int) =~= Seq::<Seq<char>>::empty());
    None
}

/// The OCR language: the `language` argument, `eng` by default.
pub open spec fn ocr_language(language: Option<&str>) -> Seq<char> {
    match language {
        Some(l) => l@,
        None => "eng"@,
    }
}

/// `tesseract <input> stdout -l <language>`: the recognised text on stdout.
pub fn tesseract_text_command(input_path: &str, language: Option<&str>) -> (c: CommandLine)
    ensures
        runs(c, "tesseract"@, seq![input_path@, "stdout"@, "-l"@, ocr_language(language)]),
{
    let l: &str = match language {
        Some(l) => l,
        None => "eng",
    };
    let mut a: Vec<String> = Vec::new();
    a.push(lit(input_path));
    a.push(lit("stdout"));
    a.push(lit("-l"));
    a.push(lit(l));
    assert(strings_view(a@) =~= seq![input_path@, "stdout"@, "-l"@, ocr_language(language)]);
    command_line("tesseract", a)
}

/// `tesseract <input> <output base> -l <language> tsv`: word boxes with
/// confidences, written to `<output base>.tsv`.
pub fn tesseract_tsv_command(input_path: &str, output_base: &str, language: Option<&str>) -> (c: CommandLine)
    ensures
        runs(c, "tesseract"@, seq![input_path@, output_base@, "-l"@, ocr_language(language), "tsv"@]),
{
    let l: &str = match language {
        Some(l) => l,
        None => "eng",
    };
    let mut a: Vec<String> = Vec::new();
    a.push(lit(input_path));
    a.push(lit(output_base));
    a.push(lit("-l"));
    a.push(lit(l));
    a.push(lit("tsv"));
    assert(strings_view(a@) =~= seq![input_path@, output_base@, "-l"@, ocr_language(language), "tsv"@]);
    command_line("tesseract", a)
}

} // verus!
