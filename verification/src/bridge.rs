//! The decisions of the bridge listener: one line read from a bridge
//! connection, applied to the window-manager state, and what the listener
//! must do next.

use vstd::prelude::*;
use crate::protocol::{classify_line, line_command, BridgeCommand, BridgeCommandModel};
use crate::text::{opt_view, views};
use crate::wm::{
    apply_mode_update, apply_workspace_update, focused_on, groups_view, mode_applied,
    some_group_lacks, WmData,
};

verus! {

/// What the listener must do after a line.
pub struct BridgeEffect {
    /// Redraw the bar (after loading applications, when asked to).
    pub redraw: bool,
    /// Load the applications of this workspace and install them.
    pub load_apps_for: Option<String>,
    /// Reload the whole window-manager state.
    pub reload_all: bool,
}

/// Applies one bridge line to `wm`. A blank or meaningless line changes
/// nothing; a mode line sets the mode (redraw when it changed); the refresh
/// request asks for a full reload; a workspace line focuses that workspace
/// (redraw when anything changed, load its applications when the focus
/// moved).
pub fn handle_bridge_line(wm: &mut WmData, line: &str) -> (r: BridgeEffect)
    ensures
        match line_command(line@) {
            None => *final(wm) == *old(wm) && !r.redraw && r.load_apps_for is None && !r.reload_all,
            Some(BridgeCommandModel::SetMode(m)) => mode_applied(
                *old(wm),
                *final(wm),
                m,
                r.redraw,
            ) && r.load_apps_for is None && !r.reload_all,
            Some(BridgeCommandModel::UpdateAll) => *final(wm) == *old(wm) && !r.redraw
                && r.load_apps_for is None && r.reload_all,
            Some(BridgeCommandModel::Focus(ws)) => {
                &&& focused_on(*old(wm), *final(wm), ws)
                &&& !r.reload_all
                &&& opt_view(r.load_apps_for) == if opt_view(old(wm).focused_workspace) != Some(
                    ws,
                ) {
                    Some(ws)
                } else {
                    None
                }
                &&& r.redraw == (opt_view(old(wm).focused_workspace) != Some(ws) || !views(
                    old(wm).used_workspaces@,
                ).contains(ws) || some_group_lacks(groups_view(old(wm).monitor_groups@), ws))
            },
        },
{
    match classify_line(line) {
        None => BridgeEffect { redraw: false, load_apps_for: None, reload_all: false },
        Some(BridgeCommand::SetMode(m)) => {
            let changed = apply_mode_update(wm, m);
            BridgeEffect { redraw: changed, load_apps_for: None, reload_all: false }
        },
        Some(BridgeCommand::UpdateAll) => BridgeEffect {
            redraw: false,
            load_apps_for: None,
            reload_all: true,
        },
        Some(BridgeCommand::Focus(ws)) => {
            let target = ws.clone();
            let u = apply_workspace_update(wm, ws);
            BridgeEffect {
                redraw: u.redraw,
                load_apps_for: if u.load_apps {
                    Some(target)
                } else {
                    None
                },
                reload_all: false,
            }
        },
    }
}

} // verus!
