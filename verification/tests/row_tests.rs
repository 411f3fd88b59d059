use mybar::row::{drawn_row, measured_row, RowItem, WorkspaceRow};
use mybar::wm::{MonitorGroup, WmData};

fn s(x: &str) -> String {
    x.to_string()
}

fn strings(xs: &[&str]) -> Vec<String> {
    xs.iter().map(|x| x.to_string()).collect()
}

fn describe(row: &WorkspaceRow) -> Vec<String> {
    match row {
        WorkspaceRow::Placeholder => vec![s("--")],
        WorkspaceRow::Items(items) => items
            .iter()
            .map(|i| match i {
                RowItem::Pill { workspace, active } => {
                    if *active { format!("[{}]", workspace) } else { workspace.clone() }
                }
                RowItem::Divider => s("|"),
            })
            .collect(),
    }
}

fn wm(used: &[&str], groups: Vec<(u32, &[&str])>, focused: Option<&str>) -> WmData {
    WmData {
        mode: s("main"),
        used_workspaces: strings(used),
        monitor_groups: groups
            .into_iter()
            .map(|(id, ws)| MonitorGroup { monitor_id: id, workspaces: strings(ws) })
            .collect(),
        focused_workspace: focused.map(s),
        apps_in_focused_workspace: Vec::new(),
    }
}

#[test]
fn flat_row() {
    let w = wm(&["1", "2"], vec![], Some("2"));
    assert_eq!(describe(&drawn_row(&w)), strings(&["1", "[2]"]));
    assert_eq!(describe(&measured_row(&w)), strings(&["1", "[2]"]));
}

#[test]
fn grouped_row() {
    let w = wm(&["1", "2", "3"], vec![(1, &["1", "2"]), (2, &["3"]), (3, &[])], Some("1"));
    assert_eq!(describe(&drawn_row(&w)), strings(&["[1]", "2", "|", "3", "|"]));
}

#[test]
fn placeholder() {
    let w = wm(&[], vec![], None);
    assert_eq!(describe(&drawn_row(&w)), strings(&["--"]));
    assert_eq!(describe(&measured_row(&w)), strings(&["--"]));
    // Groups without used workspaces: measured as groups, drawn as the placeholder.
    let w = wm(&[], vec![(1, &["1"])], None);
    assert_eq!(describe(&drawn_row(&w)), strings(&["--"]));
    assert_eq!(describe(&measured_row(&w)), strings(&["1"]));
}
