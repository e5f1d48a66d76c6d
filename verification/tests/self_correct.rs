use clawhive::self_correct::{
    check_route, failure_details, ocr_matches, ocr_reading, ocr_text_matches, screenshot_precheck,
    verify_browser, verify_process, verify_reported_failure, verify_shell, verify_window,
    vision_call_failed, vision_failed, vision_request, vision_verdict, judge_vision, CheckRoute, RetryTracker, VerificationResult,
    MAX_AUTO_RETRIES,
};

#[test]
fn test_retry_tracker() {
    let mut tracker = RetryTracker::new();
    assert!(tracker.can_retry());
    assert_eq!(tracker.attempt, 0);

    tracker.record_failure("Error 1".into());
    assert_eq!(tracker.attempt, 1);
    assert!(tracker.is_retrying);
    assert!(tracker.can_retry());

    tracker.record_failure("Error 2".into());
    tracker.record_failure("Error 3".into());
    assert_eq!(tracker.attempt, 3);
    assert!(!tracker.can_retry());
    assert!(!tracker.is_retrying);

    assert_eq!(tracker.failure_history.len(), 3);
}

#[test]
fn test_verification_result_status_string() {
    assert_eq!(VerificationResult::Success.to_status_string(), "success");
    assert_eq!(
        VerificationResult::Failed { reason: "err".into(), suggestion: None }.to_status_string(),
        "failed"
    );
    assert_eq!(
        VerificationResult::RequiresScreenshot { reason: "ambig".into() }.to_status_string(),
        "ambiguous"
    );
}

#[test]
fn test_verification_result_is_success() {
    assert!(VerificationResult::Success.is_success());
    assert!(!VerificationResult::Failed { reason: "err".into(), suggestion: None }.is_success());
}

#[test]
fn status_string_of_ocr_mismatch() {
    let v = VerificationResult::OcrMismatch { expected: "a".into(), actual: "b".into(), confidence: 3 };
    assert_eq!(v.to_status_string(), "ocr_mismatch");
    assert!(!v.is_success());
}

#[test]
fn retry_budget_is_three_and_history_keeps_order() {
    assert_eq!(MAX_AUTO_RETRIES, 3);
    let mut t = RetryTracker::new();
    t.record_failure("a".into());
    t.record_failure("b".into());
    assert_eq!(t.failure_history, vec!["a".to_string(), "b".to_string()]);
    assert!(t.is_retrying);
}

#[test]
fn test_verify_shell_success() {
    let v = verify_shell(Some("exec"), Some(0), Some(false), Some(""));
    assert_eq!(v, VerificationResult::Success);
}

#[test]
fn test_verify_shell_exit_code() {
    let v = verify_shell(Some("exec"), Some(127), Some(false), Some("command not found"));
    assert!(matches!(v, VerificationResult::Failed { .. }));
    if let VerificationResult::Failed { reason, suggestion } = v {
        assert!(reason.contains("127"));
        assert!(reason.contains("command not found"));
        assert_eq!(reason, "Command exited with code 127. stderr: command not found");
        assert_eq!(suggestion.as_deref(), Some("Check error output and try a corrected command"));
    }
}

#[test]
fn test_verify_shell_timed_out() {
    let v = verify_shell(Some("exec"), None, Some(true), Some(""));
    assert!(matches!(v, VerificationResult::Failed { .. }));
}

#[test]
fn shell_timeout_outside_exec_is_fine() {
    assert_eq!(verify_shell(Some("poll"), None, Some(true), None), VerificationResult::Success);
}

#[test]
fn shell_missing_exit_code_is_success_and_stderr_is_trimmed() {
    assert_eq!(verify_shell(None, None, None, None), VerificationResult::Success);
    let v = verify_shell(None, Some(-2), None, Some("  boom \n"));
    assert_eq!(
        v,
        VerificationResult::Failed {
            reason: "Command exited with code -2. stderr: boom".into(),
            suggestion: Some("Check error output and try a corrected command".into()),
        }
    );
    let v = verify_shell(None, Some(1), None, Some("   "));
    assert_eq!(
        v,
        VerificationResult::Failed {
            reason: "Command exited with code 1".into(),
            suggestion: Some("Check error output and try a corrected command".into()),
        }
    );
}

#[test]
fn test_verify_process_kill_success() {
    assert_eq!(verify_process("kill", 99999999, false), VerificationResult::Success);
}

#[test]
fn process_still_alive_after_kill_fails() {
    let v = verify_process("kill", 42, true);
    assert_eq!(
        v,
        VerificationResult::Failed {
            reason: "Process 42 still exists after kill attempt. Signal may have been ignored.".into(),
            suggestion: Some("Try with signal: KILL instead of TERM, or verify the PID is correct".into()),
        }
    );
    assert_eq!(verify_process("list", 42, true), VerificationResult::Success);
    assert_eq!(verify_process("kill", 0, true), VerificationResult::Success);
}

#[test]
fn test_verify_screenshot_zero_bytes() {
    let v = screenshot_precheck(0, None, true);
    assert!(matches!(v, Some(VerificationResult::Failed { .. })));
}

#[test]
fn screenshot_precheck_cases() {
    assert_eq!(screenshot_precheck(10, None, false), Some(VerificationResult::Success));
    assert_eq!(
        screenshot_precheck(10, Some("hi"), false),
        Some(VerificationResult::Failed {
            reason: "expected_text provided but no image_base64 in screenshot result".into(),
            suggestion: Some("Ensure screenshot capture returns image_base64".into()),
        })
    );
    assert_eq!(screenshot_precheck(10, Some("hi"), true), None);
}

#[test]
fn window_checks() {
    assert!(matches!(verify_window("focus", Some(false)), VerificationResult::Failed { .. }));
    assert_eq!(verify_window("focus", Some(true)), VerificationResult::Success);
    assert_eq!(verify_window("focus", None), VerificationResult::Success);
    assert!(matches!(verify_window("close", Some(true)), VerificationResult::Failed { .. }));
    assert_eq!(verify_window("close", None), VerificationResult::Success);
    assert_eq!(verify_window("move", Some(false)), VerificationResult::Success);
}

#[test]
fn browser_checks() {
    assert_eq!(
        verify_browser("navigate", Some("timeout"), None),
        VerificationResult::Failed {
            reason: "Page did not load successfully. Status: timeout".into(),
            suggestion: Some("Check the URL and network connectivity".into()),
        }
    );
    assert_eq!(verify_browser("navigate", Some("loaded"), None), VerificationResult::Success);
    assert_eq!(
        verify_browser("click", None, None),
        VerificationResult::Failed {
            reason: "Browser click action reported failure".into(),
            suggestion: Some("Check the CSS selector and page state".into()),
        }
    );
    assert_eq!(verify_browser("type", None, Some(true)), VerificationResult::Success);
    assert_eq!(verify_browser("scroll", None, None), VerificationResult::Success);
}

#[test]
fn reported_failure_message() {
    assert_eq!(
        verify_reported_failure(None),
        VerificationResult::Failed {
            reason: "Tool reported error: unknown error".into(),
            suggestion: Some("Check the tool arguments and retry with a different approach".into()),
        }
    );
}

#[test]
fn routes_by_tool_name() {
    assert_eq!(check_route("shell", false), CheckRoute::ReportedFailure);
    assert_eq!(check_route("shell", true), CheckRoute::Shell);
    assert_eq!(check_route("screenshot", true), CheckRoute::Screenshot);
    assert_eq!(check_route("calendar", true), CheckRoute::Generic);
}

#[test]
fn ocr_matching_ignores_case() {
    assert!(ocr_text_matches("Hello WORLD", "world"));
    assert!(!ocr_text_matches("Hello", "bye"));
    assert!(ocr_matches(&Ok(("Saved FILE".to_string(), 90)), "file"));
    assert!(!ocr_matches(&Err("no tesseract".to_string()), "file"));
}

#[test]
fn ocr_reading_defaults_and_truncation() {
    let (t, c) = ocr_reading(None, None);
    assert_eq!(t, "");
    assert_eq!(c, -1);
    let (_, c) = ocr_reading(Some("x"), Some(4_294_967_297));
    assert_eq!(c, 1);
}

#[test]
fn vision_verdicts() {
    assert_eq!(vision_verdict("yes, it is there", "Save"), VerificationResult::Success);
    assert_eq!(
        vision_verdict("NO", "Save"),
        VerificationResult::Failed {
            reason: "Vision model says: NO".into(),
            suggestion: Some(
                "Expected 'Save' not confirmed by vision analysis. The screen state may differ from what was expected."
                    .into()
            ),
        }
    );
    assert_eq!(judge_vision("text found", "TEXT FOUND", "x"), VerificationResult::Success);
}

#[test]
fn vision_failure_falls_back_to_ocr() {
    assert_eq!(
        vision_failed("abc", Ok(("abd".to_string(), 77)), "down"),
        VerificationResult::OcrMismatch { expected: "abc".into(), actual: "abd".into(), confidence: 77 }
    );
    assert_eq!(
        vision_failed("abc", Err("x".to_string()), "down"),
        VerificationResult::Failed {
            reason: "Both OCR and vision model failed: down".into(),
            suggestion: Some("Install tesseract-ocr or configure a vision model".into()),
        }
    );
}

#[test]
fn failure_details_texts() {
    let (r, s) = failure_details(&VerificationResult::OcrMismatch {
        expected: "Save".into(),
        actual: "Sane".into(),
        confidence: -1,
    });
    assert_eq!(r, "OCR text mismatch: expected 'Save' but screen shows 'Sane' (confidence: -1)");
    assert_eq!(
        s.as_deref(),
        Some("The screen shows 'Sane' but expected 'Save'. Try a different approach or adjust the target area.")
    );
    let (r, s) = failure_details(&VerificationResult::Success);
    assert_eq!(r, "Verification failed");
    assert_eq!(s, None);
    let (r, s) = failure_details(&VerificationResult::Failed { reason: "x".into(), suggestion: Some("y".into()) });
    assert_eq!((r.as_str(), s.as_deref()), ("x", Some("y")));
}

#[test]
fn vision_requests() {
    match vision_request(false, Some("gpt-4o"), "AAAA", "Save") {
        Err(m) => assert_eq!(m, "No vision model configured \u{2014} set MODEL_VISION_PROFILE env or configure in TUI"),
        Ok(_) => panic!("expected no router"),
    }
    match vision_request(true, None, "AAAA", "Save") {
        Err(m) => assert_eq!(m, "No vision-capable model found in registry"),
        Ok(_) => panic!("expected no model"),
    }
    let q = vision_request(true, Some("gpt-4o"), "AAAA", "Save").ok().unwrap();
    assert_eq!(q.model, "gpt-4o");
    assert_eq!(q.question, "Is the text 'Save' visible on this screenshot?");
    assert_eq!(q.image_uri, "data:image/png;base64,AAAA");
    assert_eq!(q.max_tokens, 256);
    assert!(q.prompt.starts_with("Look at this screenshot. Is the text 'Save' visible on the screen?"));
    assert!(q.prompt.ends_with("just YES or NO followed by a short explanation."));
    assert_eq!(vision_call_failed("timeout"), "Vision model call failed: timeout");
}
