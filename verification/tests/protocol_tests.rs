use mybar::protocol::{
    classify_line, parse_focused_workspace_bridge, parse_focused_workspace_line, parse_mode_bridge,
    parse_mode_line, parse_update_all_line, BridgeCommand,
};

fn s(x: &str) -> String {
    x.to_string()
}

#[test]
fn mode_line_values() {
    assert_eq!(parse_mode_line("MODE=resize"), Some(s("resize")));
    assert_eq!(parse_mode_line("  AEROSPACE_MODE= service \n"), Some(s("service")));
    assert_eq!(parse_mode_line("MODE=   "), None);
    assert_eq!(parse_mode_line("FOCUSED_WORKSPACE=3"), None);
    assert_eq!(parse_mode_line("resize"), None);
    assert_eq!(parse_mode_line(""), None);
    assert_eq!(parse_mode_line("mode=resize"), None);
}

#[test]
fn mode_bridge_values() {
    assert_eq!(parse_mode_bridge(s("MODE=main\n")), Some(s("main")));
    assert_eq!(parse_mode_bridge(s("AEROSPACE_MODE=resize")), Some(s("resize")));
    assert_eq!(parse_mode_bridge(s(" service \n")), Some(s("service")));
    assert_eq!(parse_mode_bridge(s("MODE=")), None);
    assert_eq!(parse_mode_bridge(s("  \n")), None);
}

#[test]
fn focused_values() {
    assert_eq!(parse_focused_workspace_line("FOCUSED_WORKSPACE=3"), Some(s("3")));
    assert_eq!(parse_focused_workspace_line("  web  "), Some(s("web")));
    assert_eq!(parse_focused_workspace_line("FOCUSED_WORKSPACE=  "), None);
    assert_eq!(parse_focused_workspace_line(" "), None);
    assert_eq!(parse_focused_workspace_bridge(s("FOCUSED_WORKSPACE= 7 \n")), Some(s("7")));
    assert_eq!(parse_focused_workspace_bridge(s("B\n")), Some(s("B")));
}

#[test]
fn update_all_lines() {
    assert!(parse_update_all_line("UPDATE_ALL"));
    assert!(parse_update_all_line("  UPDATE_ALL \r\n"));
    assert!(!parse_update_all_line("UPDATE_ALL2"));
    assert!(!parse_update_all_line("update_all"));
    assert!(!parse_update_all_line(""));
}

#[test]
fn line_classification() {
    assert!(matches!(classify_line("MODE=resize"), Some(BridgeCommand::SetMode(m)) if m == "resize"));
    assert!(matches!(classify_line("UPDATE_ALL"), Some(BridgeCommand::UpdateAll)));
    assert!(matches!(classify_line("FOCUSED_WORKSPACE=2"), Some(BridgeCommand::Focus(w)) if w == "2"));
    assert!(matches!(classify_line("  9 "), Some(BridgeCommand::Focus(w)) if w == "9"));
    assert!(classify_line("   ").is_none());
    // A mode tag without a value asks for nothing; it names no workspace.
    assert!(classify_line("MODE=").is_none());
    assert!(classify_line("  AEROSPACE_MODE=   ").is_none());
    assert!(matches!(classify_line("MODEL"), Some(BridgeCommand::Focus(w)) if w == "MODEL"));
    assert!(classify_line("FOCUSED_WORKSPACE=").is_none());
}
