use clawhive::browser::{
    extract_title, extract_title_checked, chrome_candidates, chrome_failure, chrome_names, clear_field_js, content_preview, dump_dom_args, element_exists_js,
    focus_js, locate_center_js, navigate_title, pdf_args, quote_selector, screenshot_args, scroll_js,
    title_tags_in_order, BrowserTool,
};
use clawhive::tool::ToolError;

#[test]
fn chrome_is_required() {
    assert!(BrowserTool::new(None).require_chrome().unwrap_err().detail().starts_with("No Chrome/Chromium found"));
    assert_eq!(BrowserTool::new(Some("/usr/bin/chromium".into())).require_chrome(), Ok("/usr/bin/chromium"));
    assert_eq!(chrome_candidates()[0], "/usr/bin/google-chrome");
    assert_eq!(chrome_candidates().len(), 6);
    assert_eq!(chrome_names(), vec!["google-chrome-stable", "chromium", "chromium-browser", "chrome"]);
}

#[test]
fn headless_command_lines() {
    assert_eq!(dump_dom_args("https://x"), vec!["--headless", "--disable-gpu", "--no-sandbox", "--dump-dom", "https://x"]);
    assert_eq!(
        screenshot_args("u", 1920, 1080, "/tmp/s.png"),
        vec!["--headless", "--disable-gpu", "--no-sandbox", "--window-size=1920,1080", "--screenshot=/tmp/s.png", "u"]
    );
    assert_eq!(pdf_args("u", "/tmp/p.pdf"), vec!["--headless", "--disable-gpu", "--no-sandbox", "--print-to-pdf=/tmp/p.pdf", "u"]);
    assert_eq!(chrome_failure("pdf", " bad \n"), ToolError::ExecutionFailed("chrome pdf failed: bad".into()));
}

#[test]
fn scripts_quote_the_selector() {
    assert_eq!(quote_selector("a[name='q']").into_iter().collect::<String>(), "a[name=\\'q\\']");
    assert_eq!(focus_js("#in"), "document.querySelector('#in')?.focus()");
    assert_eq!(element_exists_js("it's"), "document.querySelector('it\\'s') !== null");
    assert_eq!(scroll_js(0, -300), "window.scrollBy(0, -300)");
    let js = locate_center_js("#b");
    assert!(js.starts_with("(() => {\n                const el = document.querySelector('#b');"));
    assert!(js.ends_with("return { x: r.x + r.width/2, y: r.y + r.height/2 };\n            })()"));
    let js = clear_field_js("#b");
    assert!(js.contains("if (el) { el.value = ''; el.focus(); }"));
}

#[test]
fn titles_and_previews() {
    let html = "<html>\n<head><title> Hello </title></head>\n<title>second</title>";
    assert!(title_tags_in_order(html));
    assert_eq!(navigate_title(html), "Hello");
    assert_eq!(navigate_title("<p>no title</p>"), "");
    assert_eq!(navigate_title("<title>unterminated"), "");
    assert!(!title_tags_in_order("</title><title>"));
    assert!(title_tags_in_order("<TITLE>x</TITLE>"));
    assert_eq!(navigate_title("<TITLE>x</TITLE>"), "");
    let long = "a".repeat(2500);
    assert_eq!(content_preview(&long).len(), 2000);
    assert_eq!(content_preview("short"), "short");
}

#[test]
fn titles_found_ignoring_case() {
    assert_eq!(extract_title("<html>\n<HEAD><TITLE> Hello World </TITLE></HEAD>\n</html>"), "Hello World");
    assert_eq!(extract_title("<title>a</title>\n<title>b</title>"), "a");
    assert_eq!(extract_title("no title here"), "");
    assert_eq!(extract_title("<title>unclosed\n</title>"), "");
    assert_eq!(extract_title(""), "");
    // multi-byte text before and inside the tags keeps its offsets
    assert_eq!(extract_title("<p>caf\u{e9}</p><Title>cr\u{e8}me br\u{fb}l\u{e9}e</Title>"), "cr\u{e8}me br\u{fb}l\u{e9}e");
    assert_eq!(extract_title_checked("<title>x</title>"), Some("x".to_string()));
    // `</title>` before `<title>`: slicing the line there would panic
    assert_eq!(extract_title_checked("</title><title>"), None);
    // a capital I with a dot lower-cases to two chars (one byte more), so the
    // offsets found in the lower-cased line are shifted in the line itself
    assert_eq!(extract_title_checked("\u{130}<title>ab</title>"), Some("b<".to_string()));
    // ... and here the shifted start falls inside a two-byte char
    assert_eq!(extract_title_checked("\u{130}<title>\u{e9}</title>"), None);
}
