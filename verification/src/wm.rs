//! The window-manager state shown by the bar, and the transitions that the
//! bridge and the periodic refreshes apply to it.

use vstd::prelude::*;
use crate::order::{unique_sorted_workspaces, workspace_order_of};
use crate::aerospace::{lemma_with_workspace_lists, main_mode, main_mode_name};
use crate::text::{contains_string, opt_view, views};

verus! {

/// The workspaces shown on one monitor.
#[derive(Clone, Debug)]
pub struct MonitorGroup {
    pub monitor_id: u32,
    pub workspaces: Vec<String>,
}

/// Window-manager state: mode, workspaces in use (overall and per monitor),
/// the focused workspace and the applications open on it.
#[derive(Clone, Debug)]
pub struct WmData {
    pub mode: String,
    pub used_workspaces: Vec<String>,
    pub monitor_groups: Vec<MonitorGroup>,
    pub focused_workspace: Option<String>,
    pub apps_in_focused_workspace: Vec<String>,
}

/// The track that is playing.
#[derive(Clone, Debug)]
pub struct NowPlayingData {
    pub title: String,
    pub artist: String,
}

/// A monitor group as its id and the views of its workspaces.
pub open spec fn group_view(g: MonitorGroup) -> (int, Seq<Seq<char>>) {
    (g.monitor_id as int, views(g.workspaces@))
}

pub open spec fn groups_view(gs: Seq<MonitorGroup>) -> Seq<(int, Seq<Seq<char>>)> {
    gs.map_values(|g: MonitorGroup| group_view(g))
}

/// `new` is `old` with `ws` added in workspace order, unless `old` already
/// lists `ws`, in which case it is `old` itself.
pub open spec fn with_workspace(old: Seq<Seq<char>>, new: Seq<Seq<char>>, ws: Seq<char>) -> bool {
    if old.contains(ws) {
        new == old
    } else {
        workspace_order_of(new, old.push(ws))
    }
}

/// Each group of `new` is the group of `old` at its place, same monitor, with
/// `ws` added.
pub open spec fn groups_with_workspace(
    old: Seq<(int, Seq<Seq<char>>)>,
    new: Seq<(int, Seq<Seq<char>>)>,
    ws: Seq<char>,
) -> bool {
    &&& new.len() == old.len()
    &&& forall|i: int|
        #![trigger new[i]]
        0 <= i < new.len() ==> new[i].0 == old[i].0 && with_workspace(old[i].1, new[i].1, ws)
}

/// Some group of `groups` lacks `ws`.
pub open spec fn some_group_lacks(groups: Seq<(int, Seq<Seq<char>>)>, ws: Seq<char>) -> bool {
    exists|i: int| 0 <= i < groups.len() && !(#[trigger] groups[i]).1.contains(ws)
}

/// A copy of `v`.
pub fn copy_strings(v: &Vec<String>) -> (r: Vec<String>)
    ensures
        r@ == v@,
{
    let mut r: Vec<String> = Vec::new();
    let mut i: usize = 0;
    while i < v.len()
        invariant
            i <= v.len(),
            r@ == v@.take(i as int),
        decreases v.len() - i,
    {
        r.push(v[i].clone());
        assert(r@ =~= v@.take(i + 1));
        i = i + 1;
    }
    assert(v@.take(v.len() as int) =~= v@);
    r
}

/// `list` with `ws` added in workspace order when it is missing; the flag
/// tells whether it was missing.
pub fn ensure_listed(list: Vec<String>, ws: &String) -> (r: (Vec<String>, bool))
    ensures
        with_workspace(views(list@), views(r.0@), ws@),
        r.1 == !views(list@).contains(ws@),
{
    if contains_string(&list, ws) {
        (list, false)
    } else {
        let mut l = list;
        let ghost before = l@;
        l.push(ws.clone());
        assert(views(l@) =~= views(before).push(ws@));
        (unique_sorted_workspaces(l), true)
    }
}

/// Every group with `ws` added where it is missing; the flag tells whether
/// some group lacked it.
pub fn ensure_in_groups(groups: Vec<MonitorGroup>, ws: &String) -> (r: (Vec<MonitorGroup>, bool))
    ensures
        groups_with_workspace(groups_view(groups@), groups_view(r.0@), ws@),
        r.1 == some_group_lacks(groups_view(groups@), ws@),
{
    let ghost old = groups_view(groups@);
    let mut rest = groups;
    let mut out: Vec<MonitorGroup> = Vec::new();
    let mut changed = false;
    let n = rest.len();
    let mut k: usize = 0;
    while k < n
        invariant
            k <= n == old.len(),
            rest.len() == n - k,
            groups_view(rest@) == old.skip(k as int),
            out.len() == k,
            forall|i: int|
                #![trigger out@[i]]
                0 <= i < k ==> group_view(out@[i]).0 == old[i].0 && with_workspace(
                    old[i].1,
                    group_view(out@[i]).1,
                    ws@,
                ),
            changed == exists|i: int| 0 <= i < k && !(#[trigger] old[i]).1.contains(ws@),
        decreases n - k,
    {
        let ghost rest_before = rest@;
        let g = rest.remove(0);
        assert(group_view(g) == old[k as int]) by {
            assert(groups_view(rest_before)[0] == old.skip(k as int)[0]);
        }
        assert(groups_view(rest@) =~= old.skip(k + 1)) by {
            assert forall|i: int| 0 <= i < rest@.len() implies groups_view(rest@)[i] == old.skip(
                k + 1,
            )[i] by {
                assert(rest@[i] == rest_before[i + 1]);
                assert(groups_view(rest_before)[i + 1] == old.skip(k as int)[i + 1]);
            }
        }
        let (ws_list, added) = ensure_listed(g.workspaces, ws);
        if added {
            changed = true;
        }
        let ghost out_before = out@;
        out.push(MonitorGroup { monitor_id: g.monitor_id, workspaces: ws_list });
        proof {
            assert forall|i: int| #![trigger out@[i]] 0 <= i < k + 1 implies group_view(
                out@[i],
            ).0 == old[i].0 && with_workspace(old[i].1, group_view(out@[i]).1, ws@) by {
                if i < k {
                    assert(out@[i] == out_before[i]);
                }
            }
            if added {
                assert(!old[k as int].1.contains(ws@));
            }
        }
        k = k + 1;
    }
    proof {
        let nw = groups_view(out@);
        assert forall|i: int| #![trigger nw[i]] 0 <= i < nw.len() implies nw[i].0 == old[i].0
            && with_workspace(old[i].1, nw[i].1, ws@) by {
            assert(nw[i] == group_view(out@[i]));
        }
    }
    (out, changed)
}

/// What a change of focus asks of the caller.
pub struct FocusUpdate {
    /// The bar must be redrawn.
    pub redraw: bool,
    /// The applications of the newly focused workspace must be loaded.
    pub load_apps: bool,
}

/// The workspace lists and focus after `ws` is focused.
pub open spec fn focused_on(old: WmData, new: WmData, ws: Seq<char>) -> bool {
    &&& with_workspace(views(old.used_workspaces@), views(new.used_workspaces@), ws)
    &&& groups_with_workspace(groups_view(old.monitor_groups@), groups_view(new.monitor_groups@), ws)
    &&& opt_view(new.focused_workspace) == Some(ws)
    &&& new.mode@ == old.mode@
    &&& views(new.apps_in_focused_workspace@) == views(old.apps_in_focused_workspace@)
}

/// `new` is `old` with mode `mode`; `changed` tells whether the mode differed.
pub open spec fn mode_applied(old: WmData, new: WmData, mode: Seq<char>, changed: bool) -> bool {
    &&& changed == (old.mode@ != mode)
    &&& new.mode@ == mode
    &&& new.used_workspaces == old.used_workspaces
    &&& new.monitor_groups == old.monitor_groups
    &&& new.focused_workspace == old.focused_workspace
    &&& new.apps_in_focused_workspace == old.apps_in_focused_workspace
}

/// Applies a mode pushed by the bridge; tells whether the mode changed.
pub fn apply_mode_update(wm: &mut WmData, mode: String) -> (changed: bool)
    ensures
        mode_applied(*old(wm), *final(wm), mode@, changed),
{
    if wm.mode != mode {
        wm.mode = mode;
        true
    } else {
        false
    }
}

/// Applies a focused workspace pushed by the bridge: the workspace is added
/// to the used list and to every monitor group that lacks it, and focused.
/// The applications are to be reloaded when the focus moved; the bar is to
/// be redrawn when anything changed.
pub fn apply_workspace_update(wm: &mut WmData, ws: String) -> (r: FocusUpdate)
    ensures
        focused_on(*old(wm), *final(wm), ws@),
        r.load_apps == (opt_view(old(wm).focused_workspace) != Some(ws@)),
        r.redraw == (!views(old(wm).used_workspaces@).contains(ws@) || some_group_lacks(
            groups_view(old(wm).monitor_groups@),
            ws@,
        ) || r.load_apps),
{
    let used = copy_strings(&wm.used_workspaces);
    let (used, used_changed) = ensure_listed(used, &ws);
    wm.used_workspaces = used;
    let mut groups: Vec<MonitorGroup> = Vec::new();
    std::mem::swap(&mut groups, &mut wm.monitor_groups);
    let (groups, groups_changed) = ensure_in_groups(groups, &ws);
    wm.monitor_groups = groups;
    let focus_changed = match &wm.focused_workspace {
        Some(f) => *f != ws,
        None => true,
    };
    if focus_changed {
        wm.focused_workspace = Some(ws);
    }
    FocusUpdate { redraw: used_changed || groups_changed || focus_changed, load_apps: focus_changed }
}

/// What one poll of the bridge files asks of the caller.
pub struct PollUpdate {
    /// The bar must be redrawn.
    pub redraw: bool,
    /// The applications of the newly focused workspace must be loaded.
    pub load_apps: bool,
}

/// Applies one poll of the bridge files: a mode, when the file names one,
/// replaces the current mode; a focus different from the current one is
/// recorded, and a newly focused workspace missing from the used list is
/// added to it in workspace order. Monitor groups and applications are left
/// as they are.
pub fn apply_bridge_poll(wm: &mut WmData, focused: Option<String>, mode: Option<String>) -> (r:
    PollUpdate)
    ensures
        final(wm).mode@ == match mode {
            Some(m) => m@,
            None => old(wm).mode@,
        },
        final(wm).monitor_groups == old(wm).monitor_groups,
        final(wm).apps_in_focused_workspace == old(wm).apps_in_focused_workspace,
        opt_view(focused) == opt_view(old(wm).focused_workspace) ==> final(wm).used_workspaces
            == old(wm).used_workspaces && final(wm).focused_workspace == old(
            wm,
        ).focused_workspace,
        opt_view(focused) != opt_view(old(wm).focused_workspace) ==> opt_view(
            final(wm).focused_workspace,
        ) == opt_view(focused) && match focused {
            Some(ws) => with_workspace(
                views(old(wm).used_workspaces@),
                views(final(wm).used_workspaces@),
                ws@,
            ),
            None => final(wm).used_workspaces == old(wm).used_workspaces,
        },
        r.redraw == ((mode is Some && mode->0@ != old(wm).mode@) || opt_view(focused) != opt_view(
            old(wm).focused_workspace,
        )),
        r.load_apps == (focused is Some && opt_view(focused) != opt_view(
            old(wm).focused_workspace,
        )),
{
    let mut mode_changed = false;
    if let Some(m) = mode {
        if wm.mode != m {
            wm.mode = m;
            mode_changed = true;
        }
    }
    let same = match (&wm.focused_workspace, &focused) {
        (Some(a), Some(b)) => *a == *b,
        (None, None) => true,
        _ => false,
    };
    if same {
        return PollUpdate { redraw: mode_changed, load_apps: false };
    }
    let load_apps = focused.is_some();
    match focused {
        Some(ws) => {
            let used = copy_strings(&wm.used_workspaces);
            let (used, _) = ensure_listed(used, &ws);
            wm.used_workspaces = used;
            wm.focused_workspace = Some(ws);
        },
        None => {
            wm.focused_workspace = None;
        },
    }
    PollUpdate { redraw: true, load_apps }
}

/// The state loaded from the window manager: the mode (the default mode when
/// none is reported), the used workspaces and monitor groups, with the
/// focused workspace added to both where it is missing, and no applications.
pub fn assemble_wm_data(
    mode: Option<String>,
    used_workspaces: Vec<String>,
    monitor_groups: Vec<MonitorGroup>,
    focused_workspace: Option<String>,
) -> (r: WmData)
    ensures
        r.mode@ == match mode {
            Some(m) => m@,
            None => main_mode(),
        },
        opt_view(r.focused_workspace) == opt_view(focused_workspace),
        r.apps_in_focused_workspace@.len() == 0,
        match focused_workspace {
            Some(ws) => with_workspace(views(used_workspaces@), views(r.used_workspaces@), ws@)
                && groups_with_workspace(
                groups_view(monitor_groups@),
                groups_view(r.monitor_groups@),
                ws@,
            ),
            None => r.used_workspaces == used_workspaces && r.monitor_groups == monitor_groups,
        },
{
    let mode = match mode {
        Some(m) => m,
        None => main_mode_name(),
    };
    match focused_workspace {
        Some(ws) => {
            let (used, _) = ensure_listed(used_workspaces, &ws);
            let (groups, _) = ensure_in_groups(monitor_groups, &ws);
            WmData {
                mode,
                used_workspaces: used,
                monitor_groups: groups,
                focused_workspace: Some(ws),
                apps_in_focused_workspace: Vec::new(),
            }
        },
        None => WmData {
            mode,
            used_workspaces,
            monitor_groups,
            focused_workspace: None,
            apps_in_focused_workspace: Vec::new(),
        },
    }
}

impl Default for WmData {
    fn default() -> (r: WmData)
        ensures
            r.mode@.len() == 0,
            r.used_workspaces@.len() == 0,
            r.monitor_groups@.len() == 0,
            r.focused_workspace is None,
            r.apps_in_focused_workspace@.len() == 0,
    {
        WmData {
            mode: String::new(),
            used_workspaces: Vec::new(),
            monitor_groups: Vec::new(),
            focused_workspace: None,
            apps_in_focused_workspace: Vec::new(),
        }
    }
}

/// Installs a full reload: the loaded state, with the applications of its
/// focused workspace when they were loaded.
pub fn apply_force_update(wm: &mut WmData, loaded: WmData, apps: Option<Vec<String>>)
    ensures
        final(wm).mode == loaded.mode,
        final(wm).used_workspaces == loaded.used_workspaces,
        final(wm).monitor_groups == loaded.monitor_groups,
        final(wm).focused_workspace == loaded.focused_workspace,
        final(wm).apps_in_focused_workspace == match apps {
            Some(a) => a,
            None => loaded.apps_in_focused_workspace,
        },
{
    let mut next = loaded;
    if let Some(a) = apps {
        next.apps_in_focused_workspace = a;
    }
    *wm = next;
}

/// Law: a second identical mode update reports no change.
pub proof fn law_mode_update_settles(
    w0: WmData,
    w1: WmData,
    w2: WmData,
    mode: Seq<char>,
    c1: bool,
    c2: bool,
)
    requires
        mode_applied(w0, w1, mode, c1),
        mode_applied(w1, w2, mode, c2),
    ensures
        !c2,
        w2.mode@ == w1.mode@,
{
}

/// Law: after a workspace is focused through the bridge it is listed as used
/// and in every monitor group, so focusing it again changes no list and asks
/// for neither a redraw nor an application reload.
pub proof fn law_focus_update_settles(w0: WmData, w1: WmData, w2: WmData, ws: Seq<char>)
    requires
        focused_on(w0, w1, ws),
        focused_on(w1, w2, ws),
    ensures
        views(w1.used_workspaces@).contains(ws),
        !some_group_lacks(groups_view(w1.monitor_groups@), ws),
        opt_view(w1.focused_workspace) == Some(ws),
        views(w2.used_workspaces@) == views(w1.used_workspaces@),
        groups_view(w2.monitor_groups@) == groups_view(w1.monitor_groups@),
{
    lemma_with_workspace_lists(views(w0.used_workspaces@), views(w1.used_workspaces@), ws);
    let g0 = groups_view(w0.monitor_groups@);
    let g1 = groups_view(w1.monitor_groups@);
    let g2 = groups_view(w2.monitor_groups@);
    assert forall|i: int| 0 <= i < g1.len() implies (#[trigger] g1[i]).1.contains(ws) by {
        lemma_with_workspace_lists(g0[i].1, g1[i].1, ws);
    }
    assert forall|i: int| 0 <= i < g2.len() implies g2[i] == g1[i] by {
        assert(with_workspace(g1[i].1, g2[i].1, ws));
    }
    assert(g2 =~= g1);
}

} // verus!
