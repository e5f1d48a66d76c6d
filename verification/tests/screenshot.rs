use clawhive::screenshot::{
    backend_name, capture_region, detect_backend, encode_image, ocr_source, parse_screen_dimensions,
    tsv_confidences, CaptureBackend, OcrSource, ScreenshotTool,
};
use clawhive::tool::ToolError;

#[test]
fn test_capture_backend_equality() {
    assert_eq!(CaptureBackend::Scrot, CaptureBackend::Scrot);
    assert_ne!(CaptureBackend::Scrot, CaptureBackend::NoBackend);
}

#[test]
fn backend_preference_order() {
    assert_eq!(detect_backend(false, true, true, false, false), CaptureBackend::Maim);
    assert_eq!(detect_backend(false, false, false, false, true), CaptureBackend::GnomeScreenshot);
    assert_eq!(detect_backend(false, false, false, false, false), CaptureBackend::NoBackend);
    assert_eq!(backend_name(CaptureBackend::GnomeScreenshot), "gnomescreenshot");
}

#[test]
fn test_screenshot_capture_without_backend() {
    let tool = ScreenshotTool::new(CaptureBackend::NoBackend, false, false);
    let err = tool.require_backend(true).unwrap_err();
    assert!(err.detail().contains("No screen capture tool found"));
    let tool = ScreenshotTool::new(CaptureBackend::Scrot, false, false);
    let err = tool.require_backend(false).unwrap_err();
    assert!(err.detail().starts_with("No X11 display found. $DISPLAY is not set. Make sure"));
}

#[test]
fn capture_command_lines() {
    let region = capture_region(Some(10), Some(20), Some(300), Some(200));
    assert_eq!(region, Some((10, 20, 300, 200)));
    assert_eq!(capture_region(Some(10), Some(20), Some(0), Some(200)), None);
    assert_eq!(capture_region(None, Some(20), Some(5), Some(200)), None);

    let scrot = ScreenshotTool::new(CaptureBackend::Scrot, true, true);
    let c = scrot.capture_command(region, None, "/tmp/x.png", true).unwrap();
    assert_eq!(c.program, "scrot");
    assert_eq!(c.args, vec!["-z", "-a", "10,20,300,200", "/tmp/x.png"]);
    assert_eq!(c.mime_type, "image/png");

    let maim = ScreenshotTool::new(CaptureBackend::Maim, true, true);
    let c = maim.capture_command(region, Some("0x42"), "/tmp/x.png", true).unwrap();
    assert_eq!(c.args, vec!["-u", "-g", "300x200+10+20", "-i", "0x42", "/tmp/x.png"]);

    let import = ScreenshotTool::new(CaptureBackend::Import, true, true);
    let c = import.capture_command(None, Some("0x42"), "/p", true).unwrap();
    assert_eq!(c.args, vec!["-window", "0x42", "/p"]);
    let c = import.capture_command(None, None, "/p", true).unwrap();
    assert_eq!(c.args, vec!["-window", "root", "/p"]);

    let xwd = ScreenshotTool::new(CaptureBackend::Xwd, true, true);
    let c = xwd.capture_command(region, None, "/p", true).unwrap();
    assert_eq!(c.args, vec!["-out", "/p", "-root"]);
    assert_eq!(c.mime_type, "image/x-xwd");

    let gnome = ScreenshotTool::new(CaptureBackend::GnomeScreenshot, true, true);
    let c = gnome.capture_command(region, None, "/p", true).unwrap();
    assert_eq!(c.program, "gnome-screenshot");
    assert_eq!(c.args, vec!["-f", "/p", "-a", "10,20,300,200"]);
}

#[test]
fn test_ocr_invalid_no_input() {
    let msg = match ocr_source(None, None) {
        Err(e) => e.detail().clone(),
        Ok(_) => panic!("expected an error"),
    };
    assert!(msg.contains("image_base64") || msg.contains("file_path"));
}

#[test]
fn test_ocr_invalid_base64() {
    let msg = match ocr_source(Some("not-valid-base64!!!"), None) {
        Err(e) => e.detail().clone(),
        Ok(_) => panic!("expected an error"),
    };
    assert!(msg.contains("invalid base64"), "should complain about invalid base64: {msg}");
}

#[test]
fn base64_decode_error_text() {
    match ocr_source(Some("a"), None) {
        Err(ToolError::InvalidArguments(m)) => assert_eq!(m, "invalid base64: Invalid input length: 1"),
        _ => panic!("expected an invalid-argument error"),
    }
    match ocr_source(Some("ab!d"), None) {
        Err(ToolError::InvalidArguments(m)) => assert_eq!(m, "invalid base64: Invalid symbol 33, offset 2."),
        _ => panic!("expected an invalid-argument error"),
    }
}

#[test]
fn ocr_source_decodes_a_capture() {
    let data = vec![0u8, 1, 2, 250, 251, 252, 7];
    let b64 = encode_image(&data);
    assert_eq!(b64, "AAEC+vv8Bw==");
    match ocr_source(Some(&b64), Some("/ignored")) {
        Ok(OcrSource::Bytes(v)) => assert_eq!(v, data),
        _ => panic!("expected decoded bytes"),
    }
    match ocr_source(None, Some("/tmp/a.png")) {
        Ok(OcrSource::File(p)) => assert_eq!(p, "/tmp/a.png"),
        _ => panic!("expected a file source"),
    }
}

#[test]
fn xdpyinfo_dimensions() {
    let out = "name of display:    :0\nscreen #0:\n  dimensions:    1920x1080 pixels (508x285 millimeters)\n";
    assert_eq!(parse_screen_dimensions(out), Some((1920, 1080)));
    assert_eq!(parse_screen_dimensions("nothing here\n"), None);
    assert_eq!(parse_screen_dimensions("  dimensions:   axb pixels\n  dimensions: 1x2\n"), None);
    assert_eq!(parse_screen_dimensions("  dimensions:\n  dimensions: 3x4\n"), Some((3, 4)));
}

#[test]
fn tesseract_tsv_confidence_column() {
    let tsv = "level\tpage_num\tblock_num\tpar_num\tline_num\tword_num\tleft\ttop\twidth\theight\tconf\ttext\n\
               1\t1\t0\t0\t0\t0\t0\t0\t640\t480\t-1\t\n\
               5\t1\t1\t1\t1\t1\t36\t92\t60\t24\t95.5\tHello\n\
               short\tline\n";
    assert_eq!(tsv_confidences(tsv), vec!["-1", "95.5"]);
    assert!(tsv_confidences("").is_empty());
}
