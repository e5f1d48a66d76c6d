use clawhive::window::{check_resize, list_search_args, name_search_args, parse_desktop, parse_geometry, window_ids, Geometry, WindowTool};

#[test]
fn test_window_parse_geometry() {
    let output = "X=100\nY=200\nWIDTH=800\nHEIGHT=600\nSCREEN=0";
    let g = parse_geometry(output);
    assert_eq!(g.x, 100);
    assert_eq!(g.y, 200);
    assert_eq!(g.width, 800);
    assert_eq!(g.height, 600);
}

#[test]
fn test_window_parse_geometry_empty() {
    assert_eq!(parse_geometry(""), Geometry { x: 0, y: 0, width: 0, height: 0 });
}

#[test]
fn geometry_odd_lines() {
    let g = parse_geometry("X = -5\nY=a=b\nWIDTH=oops\nHEIGHT=7\nHEIGHT=9\n");
    assert_eq!(g, Geometry { x: -5, y: 0, width: 0, height: 9 });
}

#[test]
fn window_tool_requirements_and_args() {
    let t = WindowTool::new(false);
    assert!(t.require_xdotool().unwrap_err().detail().starts_with("xdotool is required for window management"));
    assert!(WindowTool::new(true).require_xdotool().is_ok());
    assert_eq!(check_resize(0, 5).unwrap_err().detail(), "width and height must be > 0");
    assert!(check_resize(5, 5).is_ok());
    assert_eq!(list_search_args(false), vec!["search", "--desktop", "-1", "--name", "", "--limit", "500"]);
    assert_eq!(list_search_args(true), vec!["search", "--name", "", "--limit", "500"]);
    assert_eq!(name_search_args("Term", false), vec!["search", "--name", "--desktop", "-1", "Term", "--limit", "100"]);
    assert_eq!(window_ids("  123 \n\n456\n   \n"), vec!["123", "456"]);
    assert_eq!(parse_desktop(" 2\n"), Some(2));
    assert_eq!(parse_desktop("x"), None);
}
