//! The AeroSpace widget's state: mode, workspaces in use, focused workspace
//! and the applications on it.

use vstd::prelude::*;
use crate::text::{opt_view, views};
use crate::wm::{copy_strings, ensure_listed, with_workspace};

verus! {

/// The mode shown before the window manager reports one.
pub open spec fn main_mode() -> Seq<char> {
    seq!['m', 'a', 'i', 'n']
}

/// The name of the default mode.
pub fn main_mode_name() -> (r: String)
    ensures
        r@ == main_mode(),
{
    proof {
        reveal_strlit("main");
    }
    String::from_str("main")
}

/// What the widget shows.
#[derive(Clone, Debug)]
pub struct Data {
    pub mode: String,
    pub used_workspaces: Vec<String>,
    pub focused_workspace: Option<String>,
    pub apps_in_focused_workspace: Vec<String>,
}

/// `new` is `old` after focusing `focused`, and `changed` tells whether the
/// focus moved: an unchanged focus leaves everything as it was; a new focus
/// is recorded and, when it names a workspace missing from the used list,
/// that workspace is added in workspace order.
pub open spec fn refocused(old: Data, new: Data, focused: Option<Seq<char>>, changed: bool) -> bool {
    if opt_view(old.focused_workspace) == focused {
        !changed && new == old
    } else {
        &&& changed
        &&& opt_view(new.focused_workspace) == focused
        &&& new.mode == old.mode
        &&& new.apps_in_focused_workspace == old.apps_in_focused_workspace
        &&& match focused {
            Some(ws) => with_workspace(
                views(old.used_workspaces@),
                views(new.used_workspaces@),
                ws,
            ),
            None => new.used_workspaces == old.used_workspaces,
        }
    }
}

impl Default for Data {
    fn default() -> (r: Data)
        ensures
            r.mode@ == main_mode(),
            r.used_workspaces@.len() == 0,
            r.focused_workspace is None,
            r.apps_in_focused_workspace@.len() == 0,
    {
        Data {
            mode: main_mode_name(),
            used_workspaces: Vec::new(),
            focused_workspace: None,
            apps_in_focused_workspace: Vec::new(),
        }
    }
}

/// The widget's state.
#[derive(Clone, Debug)]
pub struct State {
    data: Data,
}

impl View for State {
    type V = Data;

    closed spec fn view(&self) -> Data {
        self.data
    }
}

impl Default for State {
    fn default() -> (r: State)
        ensures
            r@.mode@ == main_mode(),
            r@.used_workspaces@.len() == 0,
            r@.focused_workspace is None,
            r@.apps_in_focused_workspace@.len() == 0,
    {
        State { data: Data::default() }
    }
}

impl State {
    /// The data the widget shows.
    pub fn data(&self) -> (r: &Data)
        ensures
            *r == self@,
    {
        &self.data
    }

    /// Replaces all the data.
    pub fn apply(&mut self, data: Data)
        ensures
            final(self)@ == data,
    {
        self.data = data;
    }

    /// Focuses `focused_workspace`; tells whether the focus moved. A newly
    /// focused workspace missing from the used list is added to it, and the
    /// list is kept in workspace order.
    pub fn set_focused_workspace(&mut self, focused_workspace: Option<String>) -> (changed: bool)
        ensures
            refocused(old(self)@, final(self)@, opt_view(focused_workspace), changed),
    {
        let same = match (&self.data.focused_workspace, &focused_workspace) {
            (Some(a), Some(b)) => *a == *b,
            (None, None) => true,
            _ => false,
        };
        if same {
            return false;
        }
        match focused_workspace {
            Some(workspace) => {
                let used = copy_strings(&self.data.used_workspaces);
                let (used, _) = ensure_listed(used, &workspace);
                self.data.used_workspaces = used;
                self.data.focused_workspace = Some(workspace);
            },
            None => {
                self.data.focused_workspace = None;
            },
        }
        true
    }

    /// Replaces the applications of the focused workspace.
    pub fn set_apps_in_focused_workspace(&mut self, apps: Vec<String>)
        ensures
            final(self)@.apps_in_focused_workspace == apps,
            final(self)@.mode == old(self)@.mode,
            final(self)@.used_workspaces == old(self)@.used_workspaces,
            final(self)@.focused_workspace == old(self)@.focused_workspace,
    {
        self.data.apps_in_focused_workspace = apps;
    }

    /// Switches to `mode` when there is one; `None` keeps the current mode.
    pub fn set_mode(&mut self, mode: Option<String>)
        ensures
            final(self)@.mode == match mode {
                Some(m) => m,
                None => old(self)@.mode,
            },
            final(self)@.used_workspaces == old(self)@.used_workspaces,
            final(self)@.focused_workspace == old(self)@.focused_workspace,
            final(self)@.apps_in_focused_workspace == old(self)@.apps_in_focused_workspace,
    {
        if let Some(mode) = mode {
            self.data.mode = mode;
        }
    }
}

/// A workspace list after `ws` was ensured in it lists `ws`.
pub proof fn lemma_with_workspace_lists(old: Seq<Seq<char>>, new: Seq<Seq<char>>, ws: Seq<char>)
    requires
        with_workspace(old, new, ws),
    ensures
        new.contains(ws),
{
    if !old.contains(ws) {
        assert(old.push(ws)[old.len() as int] == ws);
        assert(old.push(ws).contains(ws));
    }
}

/// Law: after focusing a workspace, it is listed among the used workspaces.
pub proof fn law_focused_workspace_is_listed(old: Data, new: Data, ws: Seq<char>, changed: bool)
    requires
        refocused(old, new, Some(ws), changed),
        opt_view(old.focused_workspace) != Some(ws) || views(old.used_workspaces@).contains(ws),
    ensures
        views(new.used_workspaces@).contains(ws),
{
    if opt_view(old.focused_workspace) != Some(ws) {
        lemma_with_workspace_lists(views(old.used_workspaces@), views(new.used_workspaces@), ws);
    }
}

/// Law: focusing the same workspace twice changes nothing the second time,
/// and the second call reports no change.
pub proof fn law_refocus_is_noop(
    d0: Data,
    d1: Data,
    d2: Data,
    focused: Option<Seq<char>>,
    c1: bool,
    c2: bool,
)
    requires
        refocused(d0, d1, focused, c1),
        refocused(d1, d2, focused, c2),
    ensures
        !c2,
        d2 == d1,
{
}

} // verus!
