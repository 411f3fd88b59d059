use mybar::aerospace::{Data, State};
use mybar::bridge::handle_bridge_line;
use mybar::wm::{
    apply_bridge_poll, apply_force_update, apply_mode_update, apply_workspace_update,
    assemble_wm_data, MonitorGroup, WmData,
};

fn s(x: &str) -> String {
    x.to_string()
}

fn strings(xs: &[&str]) -> Vec<String> {
    xs.iter().map(|x| x.to_string()).collect()
}

fn group(id: u32, ws: &[&str]) -> MonitorGroup {
    MonitorGroup { monitor_id: id, workspaces: strings(ws) }
}

fn sample() -> WmData {
    WmData {
        mode: s("main"),
        used_workspaces: strings(&["1", "2", "10"]),
        monitor_groups: vec![group(1, &["1", "2"]), group(2, &["10"])],
        focused_workspace: Some(s("1")),
        apps_in_focused_workspace: strings(&["Safari"]),
    }
}

fn group_lists(wm: &WmData) -> Vec<(u32, Vec<String>)> {
    wm.monitor_groups.iter().map(|g| (g.monitor_id, g.workspaces.clone())).collect()
}

#[test]
fn mode_update_reports_change_once() {
    let mut wm = sample();
    assert!(apply_mode_update(&mut wm, s("resize")));
    assert_eq!(wm.mode, "resize");
    assert!(!apply_mode_update(&mut wm, s("resize")));
    assert_eq!(wm.used_workspaces, strings(&["1", "2", "10"]));
}

#[test]
fn workspace_update_adds_everywhere_and_focuses() {
    let mut wm = sample();
    let u = apply_workspace_update(&mut wm, s("3"));
    assert!(u.redraw);
    assert!(u.load_apps);
    assert_eq!(wm.used_workspaces, strings(&["1", "2", "3", "10"]));
    assert_eq!(group_lists(&wm), vec![(1, strings(&["1", "2", "3"])), (2, strings(&["3", "10"]))]);
    assert_eq!(wm.focused_workspace, Some(s("3")));
    assert_eq!(wm.apps_in_focused_workspace, strings(&["Safari"]));
    // The same update again asks for nothing.
    let again = apply_workspace_update(&mut wm, s("3"));
    assert!(!again.redraw);
    assert!(!again.load_apps);
    assert_eq!(wm.used_workspaces, strings(&["1", "2", "3", "10"]));
}

#[test]
fn workspace_update_of_listed_workspace() {
    let mut wm = sample();
    let u = apply_workspace_update(&mut wm, s("2"));
    // "2" is missing from monitor 2's group only.
    assert!(u.redraw);
    assert!(u.load_apps);
    assert_eq!(group_lists(&wm), vec![(1, strings(&["1", "2"])), (2, strings(&["2", "10"]))]);
    let mut wm = sample();
    wm.monitor_groups.clear();
    let u = apply_workspace_update(&mut wm, s("1"));
    assert!(!u.redraw);
    assert!(!u.load_apps);
}

#[test]
fn force_update_installs_loaded_state() {
    let mut wm = sample();
    let loaded = WmData {
        mode: s("service"),
        used_workspaces: strings(&["4"]),
        monitor_groups: Vec::new(),
        focused_workspace: Some(s("4")),
        apps_in_focused_workspace: Vec::new(),
    };
    apply_force_update(&mut wm, loaded, Some(strings(&["Terminal"])));
    assert_eq!(wm.mode, "service");
    assert_eq!(wm.used_workspaces, strings(&["4"]));
    assert_eq!(wm.apps_in_focused_workspace, strings(&["Terminal"]));
    let loaded = WmData::default();
    apply_force_update(&mut wm, loaded, None);
    assert_eq!(wm.mode, "");
    assert!(wm.apps_in_focused_workspace.is_empty());
    assert!(wm.focused_workspace.is_none());
}

#[test]
fn bridge_poll() {
    let mut wm = sample();
    let u = apply_bridge_poll(&mut wm, Some(s("1")), None);
    assert!(!u.redraw && !u.load_apps);
    let u = apply_bridge_poll(&mut wm, Some(s("1")), Some(s("resize")));
    assert!(u.redraw && !u.load_apps);
    assert_eq!(wm.mode, "resize");
    let u = apply_bridge_poll(&mut wm, Some(s("5")), Some(s("resize")));
    assert!(u.redraw && u.load_apps);
    assert_eq!(wm.used_workspaces, strings(&["1", "2", "5", "10"]));
    assert_eq!(group_lists(&wm), vec![(1, strings(&["1", "2"])), (2, strings(&["10"]))]);
    let u = apply_bridge_poll(&mut wm, None, None);
    assert!(u.redraw && !u.load_apps);
    assert!(wm.focused_workspace.is_none());
}

#[test]
fn assemble_loaded_state() {
    let wm = assemble_wm_data(None, strings(&["2", "1"]), vec![group(1, &["1"])], Some(s("3")));
    assert_eq!(wm.mode, "main");
    assert_eq!(wm.used_workspaces, strings(&["1", "2", "3"]));
    assert_eq!(group_lists(&wm), vec![(1, strings(&["1", "3"]))]);
    assert_eq!(wm.focused_workspace, Some(s("3")));
    assert!(wm.apps_in_focused_workspace.is_empty());
    // Without a focus, the lists are taken as they are.
    let wm = assemble_wm_data(Some(s("resize")), strings(&["2", "1"]), Vec::new(), None);
    assert_eq!(wm.mode, "resize");
    assert_eq!(wm.used_workspaces, strings(&["2", "1"]));
}

#[test]
fn bridge_lines_drive_the_state() {
    let mut wm = sample();
    let e = handle_bridge_line(&mut wm, "MODE=resize");
    assert!(e.redraw && e.load_apps_for.is_none() && !e.reload_all);
    assert_eq!(wm.mode, "resize");
    let e = handle_bridge_line(&mut wm, "AEROSPACE_MODE=resize");
    assert!(!e.redraw);
    let e = handle_bridge_line(&mut wm, "UPDATE_ALL");
    assert!(e.reload_all && !e.redraw);
    let e = handle_bridge_line(&mut wm, "FOCUSED_WORKSPACE=2");
    assert!(e.redraw);
    assert_eq!(e.load_apps_for, Some(s("2")));
    assert_eq!(wm.focused_workspace, Some(s("2")));
    let e = handle_bridge_line(&mut wm, "2");
    assert!(!e.redraw && e.load_apps_for.is_none());
    let e = handle_bridge_line(&mut wm, "   ");
    assert!(!e.redraw && e.load_apps_for.is_none() && !e.reload_all);
}

#[test]
fn empty_mode_tag_changes_nothing() {
    let mut wm = sample();
    wm.focused_workspace = None;
    for line in ["MODE=", " AEROSPACE_MODE= \n"] {
        let e = handle_bridge_line(&mut wm, line);
        assert!(!e.redraw && e.load_apps_for.is_none() && !e.reload_all);
        assert_eq!(wm.mode, "main");
        assert_eq!(wm.focused_workspace, None);
        assert_eq!(wm.used_workspaces, strings(&["1", "2", "10"]));
        assert_eq!(group_lists(&wm), vec![(1, strings(&["1", "2"])), (2, strings(&["10"]))]);
    }
}

#[test]
fn state_defaults_and_setters() {
    let mut st = State::default();
    assert_eq!(st.data().mode, "main");
    assert!(st.data().used_workspaces.is_empty());
    st.set_mode(Some(s("resize")));
    assert_eq!(st.data().mode, "resize");
    st.set_mode(None);
    assert_eq!(st.data().mode, "resize");
    st.set_apps_in_focused_workspace(strings(&["Mail"]));
    assert_eq!(st.data().apps_in_focused_workspace, strings(&["Mail"]));
    let d = Data::default();
    assert_eq!(d.mode, "main");
    assert!(d.focused_workspace.is_none());
}

#[test]
fn state_focus() {
    let mut st = State::default();
    st.apply(Data {
        mode: s("main"),
        used_workspaces: strings(&["1", "10"]),
        focused_workspace: None,
        apps_in_focused_workspace: Vec::new(),
    });
    assert!(st.set_focused_workspace(Some(s("2"))));
    assert_eq!(st.data().used_workspaces, strings(&["1", "2", "10"]));
    assert_eq!(st.data().focused_workspace, Some(s("2")));
    assert!(!st.set_focused_workspace(Some(s("2"))));
    assert!(st.set_focused_workspace(Some(s("1"))));
    assert_eq!(st.data().used_workspaces, strings(&["1", "2", "10"]));
    assert!(st.set_focused_workspace(None));
    assert!(st.data().focused_workspace.is_none());
    assert!(!st.set_focused_workspace(None));
}
