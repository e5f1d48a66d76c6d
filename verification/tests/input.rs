use clawhive::input::{
    click_repeat, hotkey_to_wtype_args, parse_input_action, parse_mouse_location, scroll_clicks,
    xdotool_button, ydotool_button, InputAction, InputBackend, InputTool,
};
use clawhive::tool::ToolError;

#[test]
fn test_hotkey_to_wtype_args() {
    let args = hotkey_to_wtype_args("ctrl+c");
    assert_eq!(args, vec!["-M", "ctrl", "-k", "c", "-m", "ctrl"]);

    let args = hotkey_to_wtype_args("alt+tab");
    assert_eq!(args, vec!["-M", "alt", "-k", "tab", "-m", "alt"]);

    let args = hotkey_to_wtype_args("ctrl+shift+escape");
    assert_eq!(args, vec!["-M", "ctrl", "-M", "shift", "-k", "escape", "-m", "shift", "-m", "ctrl"]);
}

#[test]
fn test_hotkey_to_wtype_args_edge_cases() {
    let args = hotkey_to_wtype_args("Return");
    assert_eq!(args, vec!["-k", "Return"]);

    let args = hotkey_to_wtype_args("ctrl");
    assert_eq!(args, vec!["-M", "ctrl"]);

    let args = hotkey_to_wtype_args("");
    assert!(args.is_empty());

    let args = hotkey_to_wtype_args("ctrl+shift");
    assert_eq!(args, vec!["-M", "ctrl", "-M", "shift"]);
}

#[test]
fn hotkey_last_main_key_wins() {
    assert_eq!(hotkey_to_wtype_args("a+ctrl+b"), vec!["-M", "ctrl", "-k", "b", "-m", "ctrl"]);
    assert_eq!(hotkey_to_wtype_args("super+meta+x"), vec!["-M", "super", "-M", "meta", "-k", "x", "-m", "meta", "-m", "super"]);
}

#[test]
fn test_input_invalid_action() {
    let e = parse_input_action(Some("fly")).unwrap_err();
    match e {
        ToolError::InvalidArguments(m) => {
            assert!(m.contains("unknown input action"));
            assert_eq!(
                m,
                "unknown input action: 'fly'. Valid: mouse_move, mouse_click, mouse_scroll, key_type, key_press, key_hotkey, mouse_position, clipboard_get, clipboard_set"
            );
        }
        _ => panic!("wrong error"),
    }
    assert_eq!(parse_input_action(None).unwrap(), InputAction::MousePosition);
    assert_eq!(parse_input_action(Some("key_hotkey")).unwrap(), InputAction::KeyHotkey);
}

#[test]
fn test_input_mouse_click_invalid_button() {
    let e = xdotool_button("invalid").unwrap_err();
    assert!(e.detail().contains("unknown button"));
    assert_eq!(xdotool_button("left").unwrap(), "1");
    assert_eq!(xdotool_button("5").unwrap(), "5");
    assert_eq!(xdotool_button("scroll_up").unwrap(), "4");
    assert_eq!(ydotool_button("right").unwrap(), "0x111");
    assert_eq!(ydotool_button("2").unwrap(), "0x112");
    assert_eq!(
        ydotool_button("scroll_up").unwrap_err(),
        ToolError::InvalidArguments("ydotool: unknown button 'scroll_up'. Valid: left, middle, right".into())
    );
}

#[test]
fn repeat_is_clamped() {
    assert_eq!(click_repeat(None), 1);
    assert_eq!(click_repeat(Some(0)), 1);
    assert_eq!(click_repeat(Some(7)), 7);
    assert_eq!(click_repeat(Some(99)), 10);
}

#[test]
fn scroll_direction_and_count() {
    assert_eq!(scroll_clicks(3), ("4", 3));
    assert_eq!(scroll_clicks(-2), ("5", 2));
    assert_eq!(scroll_clicks(0), ("5", 0));
    assert_eq!(scroll_clicks(i64::MIN), ("5", 9_223_372_036_854_775_808));
}

#[test]
fn mouse_location_report() {
    assert_eq!(parse_mouse_location("x:812 y:-4 screen:0 window:123\n"), (812, -4));
    assert_eq!(parse_mouse_location("x:abc y:9"), (0, 9));
    assert_eq!(parse_mouse_location(""), (0, 0));
    assert_eq!(parse_mouse_location("x:1 x:2"), (2, 0));
}

#[test]
fn backend_choice_and_errors() {
    let none = InputTool::new(false, false, false, false, false);
    assert!(!none.has_keyboard_backend());
    let e = none.require_keyboard().unwrap_err();
    assert!(e.detail().starts_with("No keyboard input backend found. Install one of:\nsudo apt install xdotool"));
    assert!(none.require_mouse().is_err());
    assert!(none.require_clipboard().is_err());
    assert!(none.require_position_backend().is_err());

    let wayland = InputTool::new(false, true, true, false, true);
    assert_eq!(wayland.keyboard_backend().unwrap(), InputBackend::Ydotool);
    assert_eq!(wayland.mouse_backend().unwrap(), InputBackend::Ydotool);
    assert!(wayland.require_clipboard().is_ok());

    let typing_only = InputTool::new(false, false, true, false, false);
    assert_eq!(typing_only.keyboard_backend().unwrap(), InputBackend::Wtype);
    assert!(typing_only.mouse_backend().is_err());
}
