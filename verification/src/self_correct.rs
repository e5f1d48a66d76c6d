//! Self-correction: judging tool results, counting retries, and the
//! failure details handed back to the model.
//!
//! The checks that need the outside world (a second tool call, `/proc`,
//! OCR, a vision model) are made by the caller; the functions here take
//! what came back and decide.

use vstd::prelude::*;
use crate::text::lit;
use crate::text::{
    append_str, contains_ignore_case, contains_str, lowercase, chars_of, contains_seq, fmt_i64, fmt_u64, int_decimal,
    nat_decimal, str_eq, string_from_chars, trim, trim_spec,
};

verus! {

/// Maximum number of automatic retries for a failed tool execution.
pub const MAX_AUTO_RETRIES: u32 = 3;

/// Result of verifying a tool execution.
#[derive(Debug, Clone, PartialEq, Eq)]
pub enum VerificationResult {
    /// Tool executed successfully: no issues detected.
    Success,
    /// Tool failed with a specific reason and optional suggestion.
    Failed { reason: String, suggestion: Option<String> },
    /// Text-based checks were ambiguous: screenshot verification recommended.
    RequiresScreenshot { reason: String },
    /// OCR text does not match expected text.
    OcrMismatch { expected: String, actual: String, confidence: i32 },
}

/// A `VerificationResult` with its strings seen as char sequences.
pub enum Verdict {
    Success,
    Failed { reason: Seq<char>, suggestion: Option<Seq<char>> },
    RequiresScreenshot { reason: Seq<char> },
    OcrMismatch { expected: Seq<char>, actual: Seq<char>, confidence: int },
}

pub open spec fn opt_view(o: Option<String>) -> Option<Seq<char>> {
    match o {
        Some(s) => Some(s@),
        None => None,
    }
}

impl View for VerificationResult {
    type V = Verdict;

    open spec fn view(&self) -> Verdict {
        match self {
            VerificationResult::Success => Verdict::Success,
            VerificationResult::Failed { reason, suggestion } => Verdict::Failed {
                reason: reason@,
                suggestion: opt_view(*suggestion),
            },
            VerificationResult::RequiresScreenshot { reason } => Verdict::RequiresScreenshot {
                reason: reason@,
            },
            VerificationResult::OcrMismatch { expected, actual, confidence } => Verdict::OcrMismatch {
                expected: expected@,
                actual: actual@,
                confidence: *confidence as int,
            },
        }
    }
}

pub open spec fn failed(reason: Seq<char>, suggestion: Seq<char>) -> Verdict {
    Verdict::Failed { reason, suggestion: Some(suggestion) }
}

/// The status word of a verdict.
pub open spec fn status_text(v: Verdict) -> Seq<char> {
    match v {
        Verdict::Success => "success"@,
        Verdict::Failed { .. } => "failed"@,
        Verdict::RequiresScreenshot { .. } => "ambiguous"@,
        Verdict::OcrMismatch { .. } => "ocr_mismatch"@,
    }
}

impl VerificationResult {
    pub fn is_success(&self) -> (b: bool)
        ensures
            b == (self@ is Success),
    {
        match self {
            VerificationResult::Success => true,
            _ => false,
        }
    }

    pub fn to_status_string(&self) -> (s: &'static str)
        ensures
            s@ == status_text(self@),
    {
        match self {
            VerificationResult::Success => "success",
            VerificationResult::Failed { .. } => "failed",
            VerificationResult::RequiresScreenshot { .. } => "ambiguous",
            VerificationResult::OcrMismatch { .. } => "ocr_mismatch",
        }
    }
}

fn failure(reason: String, suggestion: String) -> (r: VerificationResult)
    ensures
        r@ == failed(reason@, suggestion@),
{
    VerificationResult::Failed { reason, suggestion: Some(suggestion) }
}

/// Tracks retry state for a single tool call within a turn.
#[derive(Debug, Clone)]
pub struct RetryTracker {
    /// How many times this tool call has been retried.
    pub attempt: u32,
    /// Whether the tool call is currently being retried.
    pub is_retrying: bool,
    /// History of failure reasons across attempts.
    pub failure_history: Vec<String>,
}

impl RetryTracker {
    pub fn new() -> (t: RetryTracker)
        ensures
            t.attempt == 0,
            !t.is_retrying,
            t.failure_history@.len() == 0,
    {
        RetryTracker { attempt: 0, is_retrying: false, failure_history: Vec::new() }
    }

    /// Whether we can still retry.
    pub fn can_retry(&self) -> (b: bool)
        ensures
            b == (self.attempt < MAX_AUTO_RETRIES),
    {
        self.attempt < MAX_AUTO_RETRIES
    }

    /// Record a failure and increment the attempt counter.
    pub fn record_failure(&mut self, reason: String)
        requires
            old(self).attempt < u32::MAX,
        ensures
            final(self).attempt == old(self).attempt + 1,
            final(self).is_retrying == (final(self).attempt < MAX_AUTO_RETRIES),
            final(self).failure_history@ == old(self).failure_history@.push(reason),
    {
        self.attempt = self.attempt + 1;
        self.is_retrying = self.can_retry();
        self.failure_history.push(reason);
    }
}

/// Which check a tool's result goes through.
#[derive(Debug, Clone, Copy, PartialEq, Eq)]
pub enum CheckRoute {
    /// The tool itself reported failure.
    ReportedFailure,
    Shell,
    Window,
    Process,
    Input,
    Screenshot,
    Browser,
    /// No specific verification.
    Generic,
}

pub open spec fn route_spec(tool_name: Seq<char>, tool_success: bool) -> CheckRoute {
    if !tool_success {
        CheckRoute::ReportedFailure
    } else if tool_name == "shell"@ {
        CheckRoute::Shell
    } else if tool_name == "window"@ {
        CheckRoute::Window
    } else if tool_name == "process"@ {
        CheckRoute::Process
    } else if tool_name == "input"@ {
        CheckRoute::Input
    } else if tool_name == "screenshot"@ {
        CheckRoute::Screenshot
    } else if tool_name == "browser"@ {
        CheckRoute::Browser
    } else {
        CheckRoute::Generic
    }
}

/// Picks the check for a tool result, as `VerificationEngine::verify` dispatches.
pub fn check_route(tool_name: &str, tool_success: bool) -> (r: CheckRoute)
    ensures
        r == route_spec(tool_name@, tool_success),
{
    if !tool_success {
        CheckRoute::ReportedFailure
    } else if str_eq(tool_name, "shell") {
        CheckRoute::Shell
    } else if str_eq(tool_name, "window") {
        CheckRoute::Window
    } else if str_eq(tool_name, "process") {
        CheckRoute::Process
    } else if str_eq(tool_name, "input") {
        CheckRoute::Input
    } else if str_eq(tool_name, "screenshot") {
        CheckRoute::Screenshot
    } else if str_eq(tool_name, "browser") {
        CheckRoute::Browser
    } else {
        CheckRoute::Generic
    }
}

pub open spec fn reported_failure_spec(error: Option<Seq<char>>) -> Verdict {
    let msg = match error {
        Some(e) => e,
        None => "unknown error"@,
    };
    failed(
        "Tool reported error: "@ + msg,
        "Check the tool arguments and retry with a different approach"@,
    )
}

pub open spec fn opt_str(o: Option<&str>) -> Option<Seq<char>> {
    match o {
        Some(s) => Some(s@),
        None => None,
    }
}

/// The verdict when the tool itself reported failure.
pub fn verify_reported_failure(error: Option<&str>) -> (r: VerificationResult)
    ensures
        r@ == reported_failure_spec(opt_str(error)),
{
    let mut reason = lit("Tool reported error: ");
    match error {
        Some(e) => reason.append(e),
        None => reason.append("unknown error"),
    }
    failure(reason, lit("Check the tool arguments and retry with a different approach"))
}

pub open spec fn shell_spec(action: Seq<char>, exit_code: int, timed_out: bool, stderr: Seq<char>) -> Verdict {
    if timed_out {
        if action == "exec"@ {
            failed(
                "Command timed out. The process was killed."@,
                "Try a simpler command, use `timeout` flag higher, or use `spawn` for long-running processes"@,
            )
        } else {
            Verdict::Success
        }
    } else if exit_code != 0 && exit_code != -1 {
        let err = trim_spec(stderr);
        failed(
            "Command exited with code "@ + int_decimal(exit_code) + if err.len() > 0 {
                ". stderr: "@ + err
            } else {
                Seq::<char>::empty()
            },
            "Check error output and try a corrected command"@,
        )
    } else {
        Verdict::Success
    }
}

/// Shell check. The fields are those of the shell tool's output: the
/// `action` argument (default `exec`), `exit_code` (default -1),
/// `timed_out` (default false) and `stderr` (default empty).
pub fn verify_shell(
    action: Option<&str>,
    exit_code: Option<i64>,
    timed_out: Option<bool>,
    stderr: Option<&str>,
) -> (r: VerificationResult)
    ensures
        r@ == shell_spec(
            match action { Some(a) => a@, None => "exec"@ },
            match exit_code { Some(c) => c as int, None => -1 },
            match timed_out { Some(t) => t, None => false },
            match stderr { Some(s) => s@, None => Seq::<char>::empty() },
        ),
{
    let code: i64 = match exit_code {
        Some(c) => c,
        None => -1,
    };
    let t: bool = match timed_out {
        Some(t) => t,
        None => false,
    };
    if t {
        let is_exec = match action {
            Some(a) => str_eq(a, "exec"),
            None => true,
        };
        if is_exec {
            return failure(
                lit("Command timed out. The process was killed."),
                lit(
                    "Try a simpler command, use `timeout` flag higher, or use `spawn` for long-running processes",
                ),
            );
        } else {
            return VerificationResult::Success;
        }
    }
    if code != 0 && code != -1 {
        let raw: Vec<char> = match stderr {
            Some(s) => chars_of(s),
            None => Vec::new(),
        };
        let err = trim(&raw);
        let mut v: Vec<char> = Vec::new();
        append_str(&mut v, "Command exited with code ");
        let digits = fmt_i64(code);
        crate::text::append_chars(&mut v, &digits);
        if err.len() > 0 {
            append_str(&mut v, ". stderr: ");
            crate::text::append_chars(&mut v, &err);
        }
        let ghost sv: Seq<char> = match stderr { Some(s) => s@, None => Seq::<char>::empty() };
        assert(raw@ == sv);
        assert(v@ =~= "Command exited with code "@ + int_decimal(code as int) + if trim_spec(sv).len() > 0 {
            ". stderr: "@ + trim_spec(sv)
        } else {
            Seq::<char>::empty()
        });
        return failure(string_from_chars(&v), lit("Check error output and try a corrected command"));
    }
    VerificationResult::Success
}

/// Whether a window action is checked afterwards with an `info` call.
pub fn window_needs_check(action: &str) -> (b: bool)
    ensures
        b == (action@ == "focus"@ || action@ == "close"@),
{
    str_eq(action, "focus") || str_eq(action, "close")
}

pub open spec fn window_spec(action: Seq<char>, info: Option<bool>) -> Verdict {
    if action == "focus"@ && info == Some(false) {
        failed(
            "Window focus verification failed. Window may not exist or cannot be activated."@,
            "Try listing windows first to get the correct window_id, then retry focus"@,
        )
    } else if action == "close"@ && info is Some {
        failed(
            "Window still exists after close attempt. Close may have failed."@,
            "Try closing with `force: true` or use `windowkill`"@,
        )
    } else {
        Verdict::Success
    }
}

/// Window check. `info` is what the follow-up `info` call gave: `None`
/// where it could not be made or failed, else whether it reported a geometry.
pub fn verify_window(action: &str, info: Option<bool>) -> (r: VerificationResult)
    ensures
        r@ == window_spec(action@, info),
{
    proof {
        reveal_strlit("focus");
        reveal_strlit("close");
        assert("focus"@[0] != "close"@[0]);
    }
    if str_eq(action, "focus") {
        match info {
            Some(false) => failure(
                lit("Window focus verification failed. Window may not exist or cannot be activated."),
                lit("Try listing windows first to get the correct window_id, then retry focus"),
            ),
            _ => VerificationResult::Success,
        }
    } else if str_eq(action, "close") {
        match info {
            Some(_) => failure(
                lit("Window still exists after close attempt. Close may have failed."),
                lit("Try closing with `force: true` or use `windowkill`"),
            ),
            None => VerificationResult::Success,
        }
    } else {
        VerificationResult::Success
    }
}

/// Whether a process action is checked afterwards against the process table.
pub fn process_needs_check(action: &str, pid: u64) -> (b: bool)
    ensures
        b == (action@ == "kill"@ && pid > 0),
{
    str_eq(action, "kill") && pid > 0
}

pub open spec fn process_spec(action: Seq<char>, pid: u64, still_exists: bool) -> Verdict {
    if action == "kill"@ && pid > 0 && still_exists {
        failed(
            "Process "@ + nat_decimal(pid as nat) + " still exists after kill attempt. Signal may have been ignored."@,
            "Try with signal: KILL instead of TERM, or verify the PID is correct"@,
        )
    } else {
        Verdict::Success
    }
}

/// Process check: after a `kill` of `pid`, whether the process is still there.
pub fn verify_process(action: &str, pid: u64, still_exists: bool) -> (r: VerificationResult)
    ensures
        r@ == process_spec(action@, pid, still_exists),
{
    if process_needs_check(action, pid) && still_exists {
        let mut v: Vec<char> = Vec::new();
        append_str(&mut v, "Process ");
        let digits = fmt_u64(pid);
        crate::text::append_chars(&mut v, &digits);
        append_str(&mut v, " still exists after kill attempt. Signal may have been ignored.");
        failure(
            string_from_chars(&v),
            lit("Try with signal: KILL instead of TERM, or verify the PID is correct"),
        )
    } else {
        VerificationResult::Success
    }
}

pub open spec fn browser_spec(action: Seq<char>, status: Seq<char>, success: bool) -> Verdict {
    if action == "navigate"@ && status != "loaded"@ {
        failed(
            "Page did not load successfully. Status: "@ + status,
            "Check the URL and network connectivity"@,
        )
    } else if (action == "click"@ || action == "type"@) && !success {
        failed(
            "Browser "@ + action + " action reported failure"@,
            "Check the CSS selector and page state"@,
        )
    } else {
        Verdict::Success
    }
}

/// A browser `click` or `type` is judged a success exactly when the tool
/// reported `success: true`; when it reported `false`, or nothing, it failed,
/// with the action named in the reason.
pub proof fn law_browser_action_needs_success(action: Seq<char>, status: Seq<char>, success: Option<bool>)
    requires
        action == "click"@ || action == "type"@,
    ensures
        ({
            let v = browser_spec(action, status, match success { Some(b) => b, None => false });
            &&& (v == Verdict::Success <==> success == Some(true))
            &&& (success != Some(true) ==> v == failed(
                "Browser "@ + action + " action reported failure"@,
                "Check the CSS selector and page state"@,
            ))
        }),
{
    reveal_strlit("navigate");
    reveal_strlit("click");
    reveal_strlit("type");
    assert("navigate"@[0] != "click"@[0]);
    assert("navigate"@[0] != "type"@[0]);
    assert(action != "navigate"@);
}

/// Browser check on the browser tool's `status` (default empty) and
/// `success` (default false) fields.
pub fn verify_browser(action: &str, status: Option<&str>, success: Option<bool>) -> (r: VerificationResult)
    ensures
        r@ == browser_spec(
            action@,
            match status { Some(s) => s@, None => Seq::<char>::empty() },
            match success { Some(b) => b, None => false },
        ),
{
    proof {
        reveal_strlit("navigate");
        reveal_strlit("click");
        reveal_strlit("type");
        reveal_strlit("loaded");
        reveal_strlit("");
        assert("navigate"@[0] != "click"@[0]);
        assert("navigate"@[0] != "type"@[0]);
        assert(""@.len() != "loaded"@.len());
    }
    if str_eq(action, "navigate") {
        let st: &str = match status {
            Some(s) => s,
            None => "",
        };
        if !str_eq(st, "loaded") {
            let mut reason = lit("Page did not load successfully. Status: ");
            reason.append(st);
            return failure(reason, lit("Check the URL and network connectivity"));
        }
        VerificationResult::Success
    } else if str_eq(action, "click") || str_eq(action, "type") {
        let ok: bool = match success {
            Some(b) => b,
            None => false,
        };
        if !ok {
            let mut reason = lit("Browser ");
            reason.append(action);
            reason.append(" action reported failure");
            return failure(reason, lit("Check the CSS selector and page state"));
        }
        VerificationResult::Success
    } else {
        VerificationResult::Success
    }
}

pub open spec fn screenshot_precheck_spec(size: u64, expected: Option<Seq<char>>, has_image: bool) -> Option<Verdict> {
    if size == 0 {
        Some(
            failed(
                "Screenshot returned 0 bytes. Capture may have failed."@,
                "Check DISPLAY setting and screenshot tool availability"@,
            ),
        )
    } else if expected is None {
        Some(Verdict::Success)
    } else if !has_image {
        Some(
            failed(
                "expected_text provided but no image_base64 in screenshot result"@,
                "Ensure screenshot capture returns image_base64"@,
            ),
        )
    } else {
        None
    }
}

/// First stage of the screenshot check, on the capture's `size_bytes`
/// (default 0), the `expected_text` argument and whether the capture
/// carries an `image_base64`. `None`: go on with OCR.
pub fn screenshot_precheck(size_bytes: u64, expected_text: Option<&str>, has_image: bool) -> (r: Option<
    VerificationResult,
>)
    ensures
        match r {
            Some(v) => screenshot_precheck_spec(size_bytes, opt_str(expected_text), has_image) == Some(v@),
            None => screenshot_precheck_spec(size_bytes, opt_str(expected_text), has_image) is None,
        },
{
    if size_bytes == 0 {
        return Some(
            failure(
                lit("Screenshot returned 0 bytes. Capture may have failed."),
                lit("Check DISPLAY setting and screenshot tool availability"),
            ),
        );
    }
    match expected_text {
        None => Some(VerificationResult::Success),
        Some(_) => {
            if !has_image {
                Some(
                    failure(
                        lit("expected_text provided but no image_base64 in screenshot result"),
                        lit("Ensure screenshot capture returns image_base64"),
                    ),
                )
            } else {
                None
            }
        },
    }
}

/// What `str::to_uppercase` returns for a string with these chars.
pub uninterp spec fn uppercase(s: Seq<char>) -> Seq<char>;

/// Calls std's `str::to_uppercase` (full Unicode case mapping, a function of
/// the input alone); the result is named `uppercase`.
#[verifier::external_body]
fn to_uppercase(s: &str) -> (r: String)
    ensures
        r@ == uppercase(s@),
{
    s.to_uppercase()
}

/// Case-insensitive containment, the OCR match test.
pub fn ocr_text_matches(ocr_text: &str, expected: &str) -> (b: bool)
    ensures
        b == contains_seq(lowercase(ocr_text@), lowercase(expected@)),
{
    contains_ignore_case(ocr_text, expected)
}

pub open spec fn ocr_reading_view(r: Result<(String, i32), String>) -> Result<(Seq<char>, int), Seq<char>> {
    match r {
        Ok((t, c)) => Ok((t@, c as int)),
        Err(e) => Err(e@),
    }
}

/// Whether an OCR run matched the expected text; a failed run matches nothing.
pub fn ocr_matches(ocr: &Result<(String, i32), String>, expected: &str) -> (b: bool)
    ensures
        b == match ocr_reading_view(*ocr) {
            Ok((t, _)) => contains_seq(lowercase(t), lowercase(expected@)),
            Err(_) => false,
        },
{
    match ocr {
        Ok((t, _)) => ocr_text_matches(t.as_str(), expected),
        Err(_) => false,
    }
}

/// The OCR tool's answer: its `text` field (default empty) and its
/// `mean_confidence` field (default -1), the latter cut to 32 bits.
pub fn ocr_reading(text: Option<&str>, mean_confidence: Option<i64>) -> (r: (String, i32))
    ensures
        r.0@ == match text { Some(t) => t@, None => Seq::<char>::empty() },
        r.1 == match mean_confidence { Some(c) => c as i32, None => -1i32 },
{
    let t = match text {
        Some(t) => lit(t),
        None => String::new(),
    };
    let c: i32 = match mean_confidence {
        Some(c) => c as i32,
        None => -1,
    };
    (t, c)
}

pub open spec fn vision_spec(analysis: Seq<char>, analysis_upper: Seq<char>, expected: Seq<char>) -> Verdict {
    if contains_seq(analysis_upper, "YES"@) || contains_seq(analysis, "found"@) || contains_seq(analysis, "matches"@) {
        Verdict::Success
    } else {
        failed(
            "Vision model says: "@ + analysis,
            "Expected '"@ + expected
                + "' not confirmed by vision analysis. The screen state may differ from what was expected."@,
        )
    }
}

/// Judges a vision model's answer, given the answer and its upper-cased form.
pub fn judge_vision(analysis: &str, analysis_upper: &str, expected: &str) -> (r: VerificationResult)
    ensures
        r@ == vision_spec(analysis@, analysis_upper@, expected@),
{
    if contains_str(analysis_upper, "YES") || contains_str(analysis, "found") || contains_str(analysis, "matches") {
        VerificationResult::Success
    } else {
        let mut reason = lit("Vision model says: ");
        reason.append(analysis);
        let mut suggestion = lit("Expected '");
        suggestion.append(expected);
        suggestion.append("' not confirmed by vision analysis. The screen state may differ from what was expected.");
        failure(reason, suggestion)
    }
}

/// Judges a vision model's answer.
pub fn vision_verdict(analysis: &str, expected: &str) -> (r: VerificationResult)
    ensures
        r@ == vision_spec(analysis@, uppercase(analysis@), expected@),
{
    let up = to_uppercase(analysis);
    judge_vision(analysis, up.as_str(), expected)
}

/// What is sent to the vision model: which model, the prompt, the question
/// put beside the image, the image as a data URI, and the token limit.
pub struct VisionRequest {
    pub model: String,
    pub prompt: String,
    pub question: String,
    pub image_uri: String,
    pub max_tokens: u32,
}

pub open spec fn vision_prompt_spec(expected: Seq<char>) -> Seq<char> {
    "Look at this screenshot. Is the text '"@ + expected
        + "' visible on the screen? Answer YES if the text is clearly present, NO if it is not. Be brief \u{2014} just YES or NO followed by a short explanation."@
}

/// The vision request for an image, or why there is none: no model router,
/// or no vision-capable model in it (`vision_model` is the id of the best
/// vision profile the router found).
pub fn vision_request(
    has_router: bool,
    vision_model: Option<&str>,
    image_base64: &str,
    expected: &str,
) -> (r: Result<VisionRequest, String>)
    ensures
        match r {
            Ok(q) => has_router && vision_model is Some && q.model@ == vision_model->0@ && q.prompt@
                == vision_prompt_spec(expected@) && q.question@ == "Is the text '"@ + expected@
                + "' visible on this screenshot?"@ && q.image_uri@ == "data:image/png;base64,"@ + image_base64@
                && q.max_tokens == 256,
            Err(m) => if !has_router {
                m@ == "No vision model configured \u{2014} set MODEL_VISION_PROFILE env or configure in TUI"@
            } else {
                vision_model is None && m@ == "No vision-capable model found in registry"@
            },
        },
{
    if !has_router {
        return Err(lit("No vision model configured \u{2014} set MODEL_VISION_PROFILE env or configure in TUI"));
    }
    let model = match vision_model {
        Some(m) => lit(m),
        None => {
            return Err(lit("No vision-capable model found in registry"));
        },
    };
    let mut prompt = lit("Look at this screenshot. Is the text '");
    prompt.append(expected);
    prompt.append(
        "' visible on the screen? Answer YES if the text is clearly present, NO if it is not. Be brief \u{2014} just YES or NO followed by a short explanation.",
    );
    let mut question = lit("Is the text '");
    question.append(expected);
    question.append("' visible on this screenshot?");
    let mut image_uri = lit("data:image/png;base64,");
    image_uri.append(image_base64);
    Ok(VisionRequest { model, prompt, question, image_uri, max_tokens: 256 })
}

/// The error a failed vision call becomes: `Vision model call failed: <error>`.
pub fn vision_call_failed(error: &str) -> (m: String)
    ensures
        m@ == "Vision model call failed: "@ + error@,
{
    let mut m = lit("Vision model call failed: ");
    m.append(error);
    m
}

pub open spec fn vision_failed_spec(expected: Seq<char>, ocr: Result<(Seq<char>, int), Seq<char>>, error: Seq<char>) -> Verdict {
    match ocr {
        Ok((t, c)) => Verdict::OcrMismatch { expected, actual: t, confidence: c },
        Err(_) => failed(
            "Both OCR and vision model failed: "@ + error,
            "Install tesseract-ocr or configure a vision model"@,
        ),
    }
}

/// The verdict when the vision model could not be asked.
pub fn vision_failed(expected: &str, ocr: Result<(String, i32), String>, error: &str) -> (r: VerificationResult)
    ensures
        r@ == vision_failed_spec(expected@, ocr_reading_view(ocr), error@),
{
    match ocr {
        Ok((t, c)) => VerificationResult::OcrMismatch { expected: lit(expected), actual: t, confidence: c },
        Err(_) => {
            let mut reason = lit("Both OCR and vision model failed: ");
            reason.append(error);
            failure(reason, lit("Install tesseract-ocr or configure a vision model"))
        },
    }
}

pub open spec fn details_spec(v: Verdict) -> (Seq<char>, Option<Seq<char>>) {
    match v {
        Verdict::Failed { reason, suggestion } => (reason, suggestion),
        Verdict::OcrMismatch { expected, actual, confidence } => (
            "OCR text mismatch: expected '"@ + expected + "' but screen shows '"@ + actual
                + "' (confidence: "@ + int_decimal(confidence) + ")"@,
            Some(
                "The screen shows '"@ + actual + "' but expected '"@ + expected
                    + "'. Try a different approach or adjust the target area."@,
            ),
        ),
        _ => ("Verification failed"@, None),
    }
}

/// The reason and suggestion that a failure report carries.
pub fn failure_details(v: &VerificationResult) -> (r: (String, Option<String>))
    ensures
        (r.0@, opt_view(r.1)) == details_spec(v@),
{
    match v {
        VerificationResult::Failed { reason, suggestion } => {
            let s = match suggestion {
                Some(x) => Some(x.clone()),
                None => None,
            };
            (reason.clone(), s)
        },
        VerificationResult::OcrMismatch { expected, actual, confidence } => {
            let mut a: Vec<char> = Vec::new();
            append_str(&mut a, "OCR text mismatch: expected '");
            append_str(&mut a, expected.as_str());
            append_str(&mut a, "' but screen shows '");
            append_str(&mut a, actual.as_str());
            append_str(&mut a, "' (confidence: ");
            let d = fmt_i64(*confidence as i64);
            crate::text::append_chars(&mut a, &d);
            append_str(&mut a, ")");
            let mut b = lit("The screen shows '");
            b.append(actual.as_str());
            b.append("' but expected '");
            b.append(expected.as_str());
            b.append("'. Try a different approach or adjust the target area.");
            assert(a@ =~= "OCR text mismatch: expected '"@ + expected@ + "' but screen shows '"@ + actual@
                + "' (confidence: "@ + int_decimal(*confidence as int) + ")"@);
            (string_from_chars(&a), Some(b))
        },
        _ => (lit("Verification failed"), None),
    }
}

} // verus!
