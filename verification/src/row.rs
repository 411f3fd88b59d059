//! The row of workspace pills drawn by the window-manager widget: one pill
//! per workspace, grouped by monitor with a divider between groups when the
//! monitors are known, else one pill per used workspace; the focused
//! workspace's pill is active.

use vstd::prelude::*;
use crate::text::{opt_view, views};
use crate::wm::{groups_view, MonitorGroup, WmData};

verus! {

/// One element of the row.
pub enum RowItem {
    /// A workspace pill, active when it is the focused workspace.
    Pill { workspace: String, active: bool },
    /// The divider between two monitors' groups.
    Divider,
}

pub enum RowItemModel {
    Pill(Seq<char>, bool),
    Divider,
}

impl View for RowItem {
    type V = RowItemModel;

    open spec fn view(&self) -> RowItemModel {
        match self {
            RowItem::Pill { workspace, active } => RowItemModel::Pill(workspace@, *active),
            RowItem::Divider => RowItemModel::Divider,
        }
    }
}

/// What the widget shows in place of workspaces.
pub enum WorkspaceRow {
    /// The placeholder text `--`.
    Placeholder,
    /// These items, left to right.
    Items(Vec<RowItem>),
}

pub open spec fn items_view(v: Seq<RowItem>) -> Seq<RowItemModel> {
    v.map_values(|i: RowItem| i@)
}

/// The pills of `ws`.
pub open spec fn pills(ws: Seq<Seq<char>>, focused: Option<Seq<char>>) -> Seq<RowItemModel>
    decreases ws.len(),
{
    if ws.len() == 0 {
        Seq::empty()
    } else {
        pills(ws.drop_last(), focused).push(RowItemModel::Pill(ws.last(), focused == Some(ws.last())))
    }
}

/// The pills of each group, with a divider before every group but the first.
pub open spec fn grouped_items(groups: Seq<(int, Seq<Seq<char>>)>, focused: Option<Seq<char>>) -> Seq<
    RowItemModel,
>
    decreases groups.len(),
{
    if groups.len() == 0 {
        Seq::empty()
    } else {
        let prev = grouped_items(groups.drop_last(), focused);
        let divider = if groups.len() > 1 {
            seq![RowItemModel::Divider]
        } else {
            Seq::empty()
        };
        prev + divider + pills(groups.last().1, focused)
    }
}

/// The items of the row: grouped by monitor when monitor groups are known,
/// else the used workspaces.
pub open spec fn row_items(wm: WmData) -> Seq<RowItemModel> {
    if wm.monitor_groups@.len() > 0 {
        grouped_items(groups_view(wm.monitor_groups@), opt_view(wm.focused_workspace))
    } else {
        pills(views(wm.used_workspaces@), opt_view(wm.focused_workspace))
    }
}

fn is_focused(workspace: &String, focused: &Option<String>) -> (r: bool)
    ensures
        r == (opt_view(*focused) == Some(workspace@)),
{
    match focused {
        Some(f) => *f == *workspace,
        None => false,
    }
}

/// Appends the pills of `ws` to `out`.
fn push_pills(out: &mut Vec<RowItem>, ws: &Vec<String>, focused: &Option<String>)
    ensures
        items_view(final(out)@) == items_view(old(out)@) + pills(views(ws@), opt_view(*focused)),
{
    let mut i: usize = 0;
    assert(views(ws@).take(0) =~= Seq::<Seq<char>>::empty());
    assert(items_view(out@) =~= items_view(old(out)@) + pills(views(ws@).take(0), opt_view(*focused)));
    while i < ws.len()
        invariant
            i <= ws.len(),
            items_view(out@) == items_view(old(out)@) + pills(views(ws@).take(i as int), opt_view(*focused)),
        decreases ws.len() - i,
    {
        let active = is_focused(&ws[i], focused);
        let ghost before = out@;
        out.push(RowItem::Pill { workspace: ws[i].clone(), active });
        proof {
            let t = views(ws@).take(i + 1);
            assert(t.drop_last() =~= views(ws@).take(i as int));
            assert(t.last() == ws@[i as int]@);
            assert(items_view(out@) =~= items_view(before).push(out@[out.len() - 1]@));
        }
        i = i + 1;
    }
    assert(views(ws@).take(ws.len() as int) =~= views(ws@));
}

/// The items of the row for `wm`.
fn items_of(wm: &WmData) -> (r: Vec<RowItem>)
    ensures
        items_view(r@) == row_items(*wm),
{
    let mut out: Vec<RowItem> = Vec::new();
    if wm.monitor_groups.len() == 0 {
        push_pills(&mut out, &wm.used_workspaces, &wm.focused_workspace);
        assert(items_view(out@) =~= row_items(*wm));
        return out;
    }
    let groups: &Vec<MonitorGroup> = &wm.monitor_groups;
    let ghost gv = groups_view(groups@);
    let ghost focused = opt_view(wm.focused_workspace);
    let mut g: usize = 0;
    assert(gv.take(0) =~= Seq::<(int, Seq<Seq<char>>)>::empty());
    while g < groups.len()
        invariant
            g <= groups.len(),
            gv == groups_view(groups@),
            focused == opt_view(wm.focused_workspace),
            items_view(out@) == grouped_items(gv.take(g as int), focused),
        decreases groups.len() - g,
    {
        let ghost before = items_view(out@);
        assert(gv.take(g + 1).drop_last() =~= gv.take(g as int));
        assert(gv.take(g + 1).last() == gv[g as int]);
        if g > 0 {
            let ghost b2 = out@;
            out.push(RowItem::Divider);
            assert(items_view(out@) =~= items_view(b2).push(RowItemModel::Divider));
        }
        let ghost mid = items_view(out@);
        push_pills(&mut out, &groups[g].workspaces, &wm.focused_workspace);
        proof {
            let divider = if g + 1 > 1 {
                seq![RowItemModel::Divider]
            } else {
                Seq::<RowItemModel>::empty()
            };
            assert(mid =~= before + divider);
            assert(gv[g as int].1 == views(groups@[g as int].workspaces@));
            assert(items_view(out@) =~= before + divider + pills(gv[g as int].1, focused));
        }
        g = g + 1;
    }
    assert(gv.take(groups.len() as int) =~= gv);
    out
}

/// The row as measured: monitor groups when known (even with no used
/// workspaces), else the placeholder when no workspace is used, else the
/// used workspaces.
pub fn measured_row(wm: &WmData) -> (r: WorkspaceRow)
    ensures
        match r {
            WorkspaceRow::Placeholder => wm.monitor_groups@.len() == 0 && wm.used_workspaces@.len() == 0,
            WorkspaceRow::Items(items) => (wm.monitor_groups@.len() > 0 || wm.used_workspaces@.len() > 0) && items_view(items@) == row_items(*wm),
        },
{
    if wm.monitor_groups.len() == 0 && wm.used_workspaces.len() == 0 {
        WorkspaceRow::Placeholder
    } else {
        WorkspaceRow::Items(items_of(wm))
    }
}

/// The row as drawn: the placeholder when no workspace is used, else the
/// monitor groups when known, else the used workspaces.
pub fn drawn_row(wm: &WmData) -> (r: WorkspaceRow)
    ensures
        match r {
            WorkspaceRow::Placeholder => wm.used_workspaces@.len() == 0,
            WorkspaceRow::Items(items) => wm.used_workspaces@.len() > 0 && items_view(items@) == row_items(*wm),
        },
{
    if wm.used_workspaces.len() == 0 {
        WorkspaceRow::Placeholder
    } else {
        WorkspaceRow::Items(items_of(wm))
    }
}

/// A pill is active exactly when its workspace is the focused one; a
/// divider carries no workspace.
pub open spec fn active_iff_focused(item: RowItemModel, focused: Option<Seq<char>>) -> bool {
    match item {
        RowItemModel::Pill(w, active) => active == (focused == Some(w)),
        RowItemModel::Divider => true,
    }
}

proof fn lemma_pills_active(ws: Seq<Seq<char>>, focused: Option<Seq<char>>)
    ensures
        pills(ws, focused).len() == ws.len(),
        forall|k: int|
            0 <= k < ws.len() ==> #[trigger] pills(ws, focused)[k] == RowItemModel::Pill(
                ws[k],
                focused == Some(ws[k]),
            ),
    decreases ws.len(),
{
    if ws.len() > 0 {
        lemma_pills_active(ws.drop_last(), focused);
    }
}

proof fn lemma_grouped_active(groups: Seq<(int, Seq<Seq<char>>)>, focused: Option<Seq<char>>)
    ensures
        forall|k: int|
            0 <= k < grouped_items(groups, focused).len() ==> active_iff_focused(
                #[trigger] grouped_items(groups, focused)[k],
                focused,
            ),
    decreases groups.len(),
{
    if groups.len() > 0 {
        lemma_grouped_active(groups.drop_last(), focused);
        lemma_pills_active(groups.last().1, focused);
        let prev = grouped_items(groups.drop_last(), focused);
        let divider = if groups.len() > 1 {
            seq![RowItemModel::Divider]
        } else {
            Seq::<RowItemModel>::empty()
        };
        let ps = pills(groups.last().1, focused);
        let all = grouped_items(groups, focused);
        assert(all == prev + divider + ps);
        assert forall|k: int| 0 <= k < all.len() implies active_iff_focused(
            #[trigger] all[k],
            focused,
        ) by {
            if k < prev.len() {
                assert(all[k] == prev[k]);
            } else if k < prev.len() + divider.len() {
                assert(all[k] == divider[k - prev.len()]);
            } else {
                assert(all[k] == ps[k - prev.len() - divider.len()]);
            }
        }
    }
}

/// Law: in the row of workspaces, whatever the monitor grouping, every pill
/// is active exactly when its workspace is the focused workspace.
pub proof fn law_pill_active_iff_focused(wm: WmData)
    ensures
        forall|k: int|
            0 <= k < row_items(wm).len() ==> active_iff_focused(
                #[trigger] row_items(wm)[k],
                opt_view(wm.focused_workspace),
            ),
{
    let focused = opt_view(wm.focused_workspace);
    if wm.monitor_groups@.len() > 0 {
        lemma_grouped_active(groups_view(wm.monitor_groups@), focused);
    } else {
        lemma_pills_active(views(wm.used_workspaces@), focused);
    }
}

/// The workspaces of the pills of `items`, in order.
pub open spec fn pill_workspaces(items: Seq<RowItemModel>) -> Seq<Seq<char>>
    decreases items.len(),
{
    if items.len() == 0 {
        Seq::empty()
    } else {
        let prev = pill_workspaces(items.drop_last());
        match items.last() {
            RowItemModel::Pill(w, _) => prev.push(w),
            RowItemModel::Divider => prev,
        }
    }
}

/// The number of dividers in `items`.
pub open spec fn divider_count(items: Seq<RowItemModel>) -> nat
    decreases items.len(),
{
    if items.len() == 0 {
        0
    } else {
        let prev = divider_count(items.drop_last());
        match items.last() {
            RowItemModel::Pill(_, _) => prev,
            RowItemModel::Divider => prev + 1,
        }
    }
}

/// The workspace lists of `groups`, one after the other.
pub open spec fn concat_groups(groups: Seq<(int, Seq<Seq<char>>)>) -> Seq<Seq<char>>
    decreases groups.len(),
{
    if groups.len() == 0 {
        Seq::empty()
    } else {
        concat_groups(groups.drop_last()) + groups.last().1
    }
}

proof fn lemma_counts_concat(a: Seq<RowItemModel>, b: Seq<RowItemModel>)
    ensures
        pill_workspaces(a + b) == pill_workspaces(a) + pill_workspaces(b),
        divider_count(a + b) == divider_count(a) + divider_count(b),
    decreases b.len(),
{
    if b.len() == 0 {
        assert(a + b =~= a);
        assert(pill_workspaces(a) + pill_workspaces(b) =~= pill_workspaces(a));
    } else {
        assert((a + b).drop_last() =~= a + b.drop_last());
        assert((a + b).last() == b.last());
        lemma_counts_concat(a, b.drop_last());
        match b.last() {
            RowItemModel::Pill(w, _) => {
                assert(pill_workspaces(a + b) =~= pill_workspaces(a) + pill_workspaces(b));
            },
            RowItemModel::Divider => {},
        }
    }
}

proof fn lemma_pills_counts(ws: Seq<Seq<char>>, focused: Option<Seq<char>>)
    ensures
        pill_workspaces(pills(ws, focused)) == ws,
        divider_count(pills(ws, focused)) == 0,
    decreases ws.len(),
{
    if ws.len() > 0 {
        lemma_pills_counts(ws.drop_last(), focused);
        let p = pills(ws, focused);
        assert(p.drop_last() =~= pills(ws.drop_last(), focused));
        assert(ws.drop_last().push(ws.last()) =~= ws);
    }
}

proof fn lemma_grouped_counts(groups: Seq<(int, Seq<Seq<char>>)>, focused: Option<Seq<char>>)
    ensures
        pill_workspaces(grouped_items(groups, focused)) == concat_groups(groups),
        groups.len() > 0 ==> divider_count(grouped_items(groups, focused)) == groups.len() - 1,
    decreases groups.len(),
{
    if groups.len() > 0 {
        lemma_grouped_counts(groups.drop_last(), focused);
        lemma_pills_counts(groups.last().1, focused);
        let prev = grouped_items(groups.drop_last(), focused);
        let divider = if groups.len() > 1 {
            seq![RowItemModel::Divider]
        } else {
            Seq::<RowItemModel>::empty()
        };
        let ps = pills(groups.last().1, focused);
        lemma_counts_concat(prev, divider);
        lemma_counts_concat(prev + divider, ps);
        if groups.len() > 1 {
            assert(divider.drop_last() =~= Seq::<RowItemModel>::empty());
            assert(divider.last() == RowItemModel::Divider);
            assert(pill_workspaces(divider.drop_last()) == Seq::<Seq<char>>::empty());
            assert(divider_count(divider.drop_last()) == 0);
            assert(pill_workspaces(divider) =~= Seq::<Seq<char>>::empty());
            assert(divider_count(divider) == 1);
        } else {
            assert(groups.drop_last().len() == 0);
            assert(prev =~= Seq::<RowItemModel>::empty());
            assert(divider_count(prev) == 0);
            assert(pill_workspaces(divider) =~= Seq::<Seq<char>>::empty());
            assert(divider_count(divider) == 0);
        }
        assert(pill_workspaces(prev) + pill_workspaces(divider) + groups.last().1 =~= concat_groups(
            groups,
        ));
    }
}

/// Law: the pills of the row name, in order, the workspaces of each monitor
/// group one group after the other, with one divider between consecutive
/// groups; without monitor groups, the used workspaces, with no divider.
pub proof fn law_row_lists_every_workspace(wm: WmData)
    ensures
        wm.monitor_groups@.len() > 0 ==> pill_workspaces(row_items(wm)) == concat_groups(
            groups_view(wm.monitor_groups@),
        ) && divider_count(row_items(wm)) == wm.monitor_groups@.len() - 1,
        wm.monitor_groups@.len() == 0 ==> pill_workspaces(row_items(wm)) == views(
            wm.used_workspaces@,
        ) && divider_count(row_items(wm)) == 0,
{
    let focused = opt_view(wm.focused_workspace);
    if wm.monitor_groups@.len() > 0 {
        lemma_grouped_counts(groups_view(wm.monitor_groups@), focused);
    } else {
        lemma_pills_counts(views(wm.used_workspaces@), focused);
    }
}

} // verus!
