use clawhive::input::InputTool;
use clawhive::process::{kill_command, kill_failure, ps_all_command, ps_one_command, status_info};
use clawhive::screenshot::{parse_image_dimensions, tesseract_text_command, tesseract_tsv_command};
use clawhive::tool::{run_failure, xdotool_failure, CommandLine, ToolError};
use clawhive::window::{close_args, move_args, resize_plan, xprop_value};

fn cl(program: &str, args: &[&str]) -> CommandLine {
    CommandLine { program: program.to_string(), args: args.iter().map(|a| a.to_string()).collect() }
}

const X11: InputTool = InputTool { has_xdotool: true, has_ydotool: false, has_wtype: false, has_xclip: true, has_wl_clipboard: false };
const WAYLAND: InputTool = InputTool { has_xdotool: false, has_ydotool: true, has_wtype: true, has_xclip: false, has_wl_clipboard: true };
const WTYPE: InputTool = InputTool { has_xdotool: false, has_ydotool: false, has_wtype: true, has_xclip: false, has_wl_clipboard: false };

#[test]
fn mouse_commands_per_backend() {
    assert_eq!(X11.mouse_move_command(10, -5, false).unwrap(), cl("xdotool", &["mousemove", "10", "-5"]));
    assert_eq!(X11.mouse_move_command(1, 2, true).unwrap(), cl("xdotool", &["mousemove_relative", "1", "2"]));
    assert_eq!(WAYLAND.mouse_move_command(1, 2, false).unwrap(), cl("ydotool", &["mousemove", "--absolute", "-x", "1", "-y", "2"]));
    assert_eq!(WAYLAND.mouse_move_command(1, 2, true).unwrap(), cl("ydotool", &["mousemove", "-x", "1", "-y", "2"]));
    assert!(WTYPE.mouse_move_command(0, 0, false).unwrap_err().detail().contains("xdotool is required"));

    let (cs, n) = X11.mouse_click_commands(None, Some(3)).unwrap();
    assert_eq!((cs, n), (vec![cl("xdotool", &["click", "--repeat", "3", "1"])], 3));
    let (cs, n) = X11.mouse_click_commands(Some("right"), Some(0)).unwrap();
    assert_eq!((cs, n), (vec![cl("xdotool", &["click", "3"])], 1));
    let (cs, n) = WAYLAND.mouse_click_commands(Some("middle"), Some(99)).unwrap();
    assert_eq!(n, 10);
    assert_eq!(cs.len(), 10);
    assert_eq!(cs[9], cl("ydotool", &["click", "-B", "0x112"]));
    assert!(X11.mouse_click_commands(Some("invalid"), None).unwrap_err().detail().contains("unknown button"));
    assert_eq!(
        WAYLAND.mouse_click_commands(Some("scroll_up"), None).unwrap_err(),
        ToolError::InvalidArguments("ydotool: unknown button 'scroll_up'. Valid: left, middle, right".into())
    );

    assert_eq!(X11.mouse_scroll_command(-3).unwrap(), cl("xdotool", &["click", "--repeat", "3", "5"]));
    assert_eq!(X11.mouse_scroll_command(1).unwrap(), cl("xdotool", &["click", "4"]));
    assert_eq!(WAYLAND.mouse_scroll_command(-2).unwrap(), cl("ydotool", &["mousemove", "--wheel", "-d", "-2"]));
    assert_eq!(X11.mouse_position_command().unwrap(), cl("xdotool", &["getmouselocation"]));
    assert!(WAYLAND.mouse_position_command().is_err());
}

#[test]
fn keyboard_and_clipboard_commands() {
    assert_eq!(X11.key_type_command(Some("hi"), 12).unwrap(), cl("xdotool", &["type", "--delay", "12", "hi"]));
    assert_eq!(WTYPE.key_type_command(Some("hi"), 5).unwrap(), cl("wtype", &["-d", "5", "hi"]));
    assert_eq!(X11.key_type_command(None, 12).unwrap_err(), ToolError::InvalidArguments("'text' is required (string)".into()));
    assert_eq!(WAYLAND.key_press_command(Some("Return"), true).unwrap(), cl("ydotool", &["keydown", "Return"]));
    assert_eq!(WTYPE.key_press_command(Some("Return"), false).unwrap(), cl("wtype", &["-k", "Return"]));
    assert_eq!(WTYPE.key_hotkey_command(Some("ctrl+c"), false).unwrap(), cl("wtype", &["-M", "ctrl", "-k", "c", "-m", "ctrl"]));
    assert_eq!(X11.key_hotkey_command(Some("ctrl+c"), false).unwrap(), cl("xdotool", &["key", "ctrl+c"]));
    let none = InputTool { has_xdotool: false, has_ydotool: false, has_wtype: false, has_xclip: false, has_wl_clipboard: false };
    assert!(none.key_press_command(None, false).unwrap_err().detail().starts_with("No keyboard input backend found"));
    assert_eq!(X11.clipboard_get_command().unwrap(), cl("xclip", &["-o", "-selection", "clipboard"]));
    assert_eq!(WAYLAND.clipboard_get_command().unwrap(), cl("wl-paste", &["--no-newline"]));
    assert_eq!(WAYLAND.clipboard_set_command(Some("x")).unwrap(), cl("wl-copy", &[]));
    assert_eq!(X11.clipboard_set_command(Some("x")).unwrap(), cl("xclip", &["-selection", "clipboard"]));
    assert!(none.clipboard_set_command(Some("x")).unwrap_err().detail().starts_with("No clipboard backend found"));
}

#[test]
fn failure_messages() {
    assert_eq!(run_failure("wl-paste", "  boom \n"), ToolError::ExecutionFailed("wl-paste failed: boom".into()));
    let args = vec!["click".to_string(), "1".to_string()];
    assert_eq!(xdotool_failure(&args, "bad\n"), ToolError::ExecutionFailed("xdotool click 1 failed: bad".into()));
}

#[test]
fn window_commands() {
    assert_eq!(close_args("42", true), vec!["windowkill", "42"]);
    assert_eq!(close_args("42", false), vec!["windowclose", "42"]);
    assert_eq!(move_args("42", -1, 7), vec!["windowmove", "42", "-1", "7"]);
    let (size, mv) = resize_plan("9", 800, 600, Some(1), Some(2)).unwrap();
    assert_eq!(size, vec!["windowsize", "9", "800", "600"]);
    assert_eq!(mv, Some(vec!["windowmove".to_string(), "9".into(), "1".into(), "2".into()]));
    assert_eq!(resize_plan("9", 800, 600, Some(1), None).unwrap().1, None);
    assert!(resize_plan("9", 0, 600, None, None).is_err());
    assert_eq!(xprop_value("_NET_WM_PID(CARDINAL) = 1234"), Some("1234".to_string()));
    assert_eq!(xprop_value("WM_CLASS(STRING) = \"term\", \"Term\""), Some("\"term\", \"Term\"".to_string()));
    assert_eq!(xprop_value("a = b = c"), Some("b".to_string()));
    assert_eq!(xprop_value("_NET_WM_PID:  not found."), None);
}

#[test]
fn process_commands_and_status() {
    assert_eq!(kill_command(12, None), cl("kill", &["-s", "TERM", "12"]));
    assert_eq!(kill_command(12, Some("KILL")), cl("kill", &["-s", "KILL", "12"]));
    assert_eq!(kill_failure(12, None, "no such process\n"), ToolError::ExecutionFailed("kill -s TERM 12 failed: no such process".into()));
    assert_eq!(ps_all_command().args[0], "-eo");
    assert_eq!(ps_one_command(5).args[..2], ["-p".to_string(), "5".to_string()]);
    let st = status_info("Name:\tbash\nState:\tS (sleeping)\nThreads:\t1\nVmRSS:\t  4096 kB\nFDSize:\tlots\n");
    assert_eq!(st.name.as_deref(), Some("bash"));
    assert_eq!(st.state.as_deref(), Some("S (sleeping)"));
    assert_eq!(st.threads, Some(1));
    assert_eq!(st.vm_rss_kb, Some(4096));
    assert_eq!(st.vm_peak_kb, None);
    assert_eq!(st.fd_size, None);
    assert_eq!(st.uid, None);
}

#[test]
fn ocr_and_image_size() {
    assert_eq!(tesseract_text_command("/t/in.png", None), cl("tesseract", &["/t/in.png", "stdout", "-l", "eng"]));
    assert_eq!(tesseract_tsv_command("/t/in.png", "/t/conf", Some("deu")), cl("tesseract", &["/t/in.png", "/t/conf", "-l", "deu", "tsv"]));
    assert_eq!(parse_image_dimensions("img: PNG image data, 640x480, 8-bit"), Some((640, 480)));
    assert_eq!(parse_image_dimensions("img: PNG image data, 1 x 1, 8-bit"), None);
    assert_eq!(parse_image_dimensions("no digits here\nimg: data 0x5\nimg: 12x34"), Some((12, 34)));
    assert_eq!(parse_image_dimensions("/tmp/a1b: PNG image data, 2x2"), None);
    assert_eq!(parse_image_dimensions(""), None);
}

#[test]
fn mouse_click_refuses_unknown_button_first() {
    // An unknown button is refused whatever backends are installed.
    for tool in [X11, WAYLAND, WTYPE] {
        match tool.mouse_click_commands(Some("invalid"), None) {
            Err(ToolError::InvalidArguments(m)) => assert!(m.contains("unknown button")),
            _ => panic!("expected an unknown-button error"),
        }
    }
    // With no mouse backend a known button gets the missing-backend error.
    assert!(WTYPE.mouse_click_commands(Some("left"), None).unwrap_err().detail().contains("xdotool is required"));
}
