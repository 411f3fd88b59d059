//! Parsing of the listings printed by the window manager's command-line tool
//! and by the now-playing tool.

use vstd::prelude::*;
use crate::order::{parse_u32_chars, parse_u32_value, unique_sorted_workspaces, workspace_order_of};
use crate::text::{
    all_space, is_space, lemma_split_on_join, lemma_split_on_none, lemma_trim_padded,
    lemma_trimmed_ends, chars_of, lines_of, non_empty, opt_view, parse_lines, split_bounds, split_on, trim,
    trim_bounds, views,
};
use crate::unique::{first_occurrences, unique_preserve_order};
use crate::wm::{group_view, groups_view, MonitorGroup, NowPlayingData};

verus! {

// ---------------------------------------------------------------------------
// Workspaces per monitor: lines `<workspace>\t<monitor id>`
// ---------------------------------------------------------------------------

/// The monitor id and workspace named by one listing line: the first
/// tab-separated field is the workspace (trimmed, not empty), the second the
/// monitor id (trimmed, a `u32`).
pub open spec fn monitor_entry(line: Seq<char>) -> Option<(int, Seq<char>)> {
    let parts = split_on(line, '\t');
    let ws = trim(parts[0]);
    if parts.len() >= 2 && ws.len() > 0 && parse_u32_value(trim(parts[1])) is Some {
        Some((parse_u32_value(trim(parts[1]))->0, ws))
    } else {
        None
    }
}

/// The entries of the lines that name both a workspace and a monitor.
pub open spec fn monitor_entries(lines: Seq<Seq<char>>) -> Seq<(int, Seq<char>)>
    decreases lines.len(),
{
    if lines.len() == 0 {
        Seq::empty()
    } else {
        let prev = monitor_entries(lines.drop_last());
        match monitor_entry(lines.last()) {
            Some(e) => prev.push(e),
            None => prev,
        }
    }
}

/// The workspaces listed on monitor `m`, in listing order.
pub open spec fn workspaces_on(entries: Seq<(int, Seq<char>)>, m: int) -> Seq<Seq<char>>
    decreases entries.len(),
{
    if entries.len() == 0 {
        Seq::empty()
    } else {
        let prev = workspaces_on(entries.drop_last(), m);
        if entries.last().0 == m {
            prev.push(entries.last().1)
        } else {
            prev
        }
    }
}

/// Some entry is on monitor `m`.
pub open spec fn has_monitor(entries: Seq<(int, Seq<char>)>, m: int) -> bool {
    exists|k: int| 0 <= k < entries.len() && (#[trigger] entries[k]).0 == m
}

/// `out` has one group per monitor named by `entries`, by increasing id, each
/// holding that monitor's distinct workspaces in workspace order.
pub open spec fn monitor_groups_of(
    out: Seq<(int, Seq<Seq<char>>)>,
    entries: Seq<(int, Seq<char>)>,
) -> bool {
    &&& forall|i: int, j: int| 0 <= i < j < out.len() ==> (#[trigger] out[i]).0 < (#[trigger] out[j]).0
    &&& forall|m: int| has_monitor(entries, m) <==> exists|i: int| 0 <= i < out.len() && (#[trigger] out[i]).0 == m
    &&& forall|i: int|
        #![trigger out[i]]
        0 <= i < out.len() ==> workspace_order_of(out[i].1, workspaces_on(entries, out[i].0))
            && out[i].1.len() > 0
}

proof fn lemma_workspaces_on_nonempty(entries: Seq<(int, Seq<char>)>, m: int)
    requires
        has_monitor(entries, m),
    ensures
        workspaces_on(entries, m).len() > 0,
    decreases entries.len(),
{
    let k = choose|k: int| 0 <= k < entries.len() && (#[trigger] entries[k]).0 == m;
    if entries.last().0 != m {
        assert(entries.drop_last()[k] == entries[k]);
        lemma_workspaces_on_nonempty(entries.drop_last(), m);
    }
}

/// The characters `v[a..b]`.
pub fn sub_chars(v: &Vec<char>, a: usize, b: usize) -> (r: Vec<char>)
    requires
        a <= b <= v.len(),
    ensures
        r@ == v@.subrange(a as int, b as int),
{
    let mut r: Vec<char> = Vec::new();
    let mut i = a;
    while i < b
        invariant
            a <= i <= b <= v.len(),
            r@ == v@.subrange(a as int, i as int),
        decreases b - i,
    {
        r.push(v[i]);
        assert(r@ =~= v@.subrange(a as int, i + 1));
        i = i + 1;
    }
    r
}

/// The entry of one listing line.
fn monitor_entry_of(line: &String) -> (r: Option<(u32, String)>)
    ensures
        match r {
            Some(e) => monitor_entry(line@) == Some((e.0 as int, e.1@)),
            None => monitor_entry(line@) is None,
        },
{
    let s = line.as_str();
    let v = chars_of(s);
    let parts = split_bounds(&v, '\t');
    let ghost spec_parts = split_on(v@, '\t');
    if parts.len() < 2 {
        return None;
    }
    assert(v@.subrange(parts@[0].0 as int, parts@[0].1 as int) == spec_parts[0]);
    let (a0, e0) = trim_bounds(&v, parts[0].0, parts[0].1);
    if a0 == e0 {
        return None;
    }
    assert(v@.subrange(parts@[1].0 as int, parts@[1].1 as int) == spec_parts[1]);
    let (a1, e1) = trim_bounds(&v, parts[1].0, parts[1].1);
    let monitor = sub_chars(&v, a1, e1);
    match parse_u32_chars(&monitor) {
        Some(m) => Some((m, String::from_str(s.substring_char(a0, e0)))),
        None => None,
    }
}

/// The workspaces of each monitor, from lines `<workspace>\t<monitor id>`:
/// one group per monitor, by increasing monitor id, each with its distinct
/// workspaces in workspace order. Lines that lack either field are skipped.
pub fn parse_monitor_workspace_lines(output: String) -> (r: Vec<MonitorGroup>)
    ensures
        monitor_groups_of(groups_view(r@), monitor_entries(lines_of(output@))),
{
    let lines = parse_lines(output);
    let ghost all_lines = views(lines@);
    // The entries, as parallel lists of monitor ids and workspace names.
    let mut ids: Vec<u32> = Vec::new();
    let mut names: Vec<String> = Vec::new();
    let mut i: usize = 0;
    while i < lines.len()
        invariant
            i <= lines.len(),
            all_lines == views(lines@),
            ids.len() == names.len(),
            ids.len() == monitor_entries(all_lines.take(i as int)).len(),
            forall|k: int|
                #![trigger ids@[k]]
                0 <= k < ids.len() ==> monitor_entries(all_lines.take(i as int))[k] == (
                    ids@[k] as int,
                    names@[k]@,
                ),
        decreases lines.len() - i,
    {
        let ghost before = monitor_entries(all_lines.take(i as int));
        assert(all_lines.take(i + 1).drop_last() =~= all_lines.take(i as int));
        assert(all_lines.take(i + 1).last() == lines@[i as int]@);
        match monitor_entry_of(&lines[i]) {
            Some((m, name)) => {
                let ghost ids_before = ids@;
                let ghost names_before = names@;
                ids.push(m);
                names.push(name);
                assert forall|k: int| #![trigger ids@[k]] 0 <= k < ids.len() implies monitor_entries(
                    all_lines.take(i + 1),
                )[k] == (ids@[k] as int, names@[k]@) by {
                    if k < ids_before.len() {
                        assert(ids@[k] == ids_before[k]);
                        assert(names@[k] == names_before[k]);
                    }
                }
            },
            None => {},
        }
        i = i + 1;
    }
    assert(all_lines.take(lines.len() as int) =~= all_lines);
    let ghost entries = monitor_entries(all_lines);
    // The distinct monitor ids, increasing.
    let mut keys: Vec<u32> = Vec::new();
    let mut j: usize = 0;
    while j < ids.len()
        invariant
            j <= ids.len() == names.len() == entries.len(),
            forall|k: int|
                #![trigger ids@[k]]
                0 <= k < ids.len() ==> entries[k] == (ids@[k] as int, names@[k]@),
            forall|a: int, b: int| 0 <= a < b < keys.len() ==> keys@[a] < keys@[b],
            forall|m: u32|
                keys@.contains(m) <==> exists|k: int| 0 <= k < j && #[trigger] ids@[k] == m,
        decreases ids.len() - j,
    {
        let id = ids[j];
        let mut p: usize = 0;
        while p < keys.len() && keys[p] < id
            invariant
                p <= keys.len(),
                forall|a: int| 0 <= a < p ==> keys@[a] < id,
            decreases keys.len() - p,
        {
            p = p + 1;
        }
        let ghost keys_before = keys@;
        if p < keys.len() && keys[p] == id {
            assert(keys_before.contains(id));
        } else {
            keys.insert(p, id);
            proof {
                assert forall|a: int| 0 <= a < keys.len() implies keys@[a] == if a < p {
                    keys_before[a]
                } else if a == p {
                    id
                } else {
                    keys_before[a - 1]
                } by {}
            }
        }
        proof {
            assert forall|m: u32| keys@.contains(m) <==> exists|k: int|
                0 <= k < j + 1 && #[trigger] ids@[k] == m by {
                if keys@.contains(m) && m != id {
                    let a = choose|a: int| 0 <= a < keys.len() && keys@[a] == m;
                    if a < p {
                        assert(keys_before[a] == m);
                    } else if p < keys_before.len() && keys_before[p as int] == id {
                        assert(keys_before[a] == m);
                    } else {
                        assert(keys_before[a - 1] == m);
                    }
                    assert(keys_before.contains(m));
                }
                if m == id {
                    assert(ids@[j as int] == m);
                    if !(p < keys_before.len() && keys_before[p as int] == id) {
                        assert(keys@[p as int] == id);
                    }
                }
                if exists|k: int| 0 <= k < j + 1 && #[trigger] ids@[k] == m {
                    if m != id {
                        let k = choose|k: int| 0 <= k < j + 1 && #[trigger] ids@[k] == m;
                        assert(k < j);
                        assert(keys_before.contains(m));
                        let a = choose|a: int| 0 <= a < keys_before.len() && keys_before[a] == m;
                        if p < keys_before.len() && keys_before[p as int] == id {
                            assert(keys@[a] == m);
                        } else if a < p {
                            assert(keys@[a] == m);
                        } else {
                            assert(keys@[a + 1] == m);
                        }
                    }
                }
            }
        }
        j = j + 1;
    }
    // One group per id.
    let mut out: Vec<MonitorGroup> = Vec::new();
    let mut g: usize = 0;
    while g < keys.len()
        invariant
            g <= keys.len(),
            ids.len() == names.len() == entries.len(),
            forall|k: int|
                #![trigger ids@[k]]
                0 <= k < ids.len() ==> entries[k] == (ids@[k] as int, names@[k]@),
            forall|a: int, b: int| 0 <= a < b < keys.len() ==> keys@[a] < keys@[b],
            forall|m: u32|
                keys@.contains(m) <==> exists|k: int| 0 <= k < ids.len() && #[trigger] ids@[k] == m,
            out.len() == g,
            forall|a: int| #![trigger out@[a]] 0 <= a < g ==> out@[a].monitor_id == keys@[a],
            forall|a: int|
                #![trigger out@[a]]
                0 <= a < g ==> workspace_order_of(
                    views(out@[a].workspaces@),
                    workspaces_on(entries, keys@[a] as int),
                ) && views(out@[a].workspaces@).len() > 0,
        decreases keys.len() - g,
    {
        let id = keys[g];
        let mut raw: Vec<String> = Vec::new();
        let mut k: usize = 0;
        while k < ids.len()
            invariant
                k <= ids.len() == names.len() == entries.len(),
                forall|q: int|
                    #![trigger ids@[q]]
                    0 <= q < ids.len() ==> entries[q] == (ids@[q] as int, names@[q]@),
                views(raw@) == workspaces_on(entries.take(k as int), id as int),
            decreases ids.len() - k,
        {
            assert(entries.take(k + 1).drop_last() =~= entries.take(k as int));
            assert(entries.take(k + 1).last() == entries[k as int]);
            assert(entries[k as int] == (ids@[k as int] as int, names@[k as int]@));
            if ids[k] == id {
                let ghost raw_before = raw@;
                raw.push(names[k].clone());
                assert(views(raw@) =~= views(raw_before).push(names@[k as int]@));
            }
            k = k + 1;
        }
        assert(entries.take(ids.len() as int) =~= entries);
        proof {
            assert(keys@.contains(id));
            let q = choose|q: int| 0 <= q < ids.len() && #[trigger] ids@[q] == id;
            assert(entries[q].0 == id as int);
            assert(has_monitor(entries, id as int));
            lemma_workspaces_on_nonempty(entries, id as int);
        }
        let sorted = unique_sorted_workspaces(raw);
        proof {
            let w = workspaces_on(entries, id as int);
            assert(w.contains(w[0]));
            assert(views(sorted@).contains(w[0]));
        }
        let ghost out_before = out@;
        out.push(MonitorGroup { monitor_id: id, workspaces: sorted });
        assert forall|a: int| #![trigger out@[a]] 0 <= a < g + 1 implies out@[a].monitor_id
            == keys@[a] && workspace_order_of(
            views(out@[a].workspaces@),
            workspaces_on(entries, keys@[a] as int),
        ) && views(out@[a].workspaces@).len() > 0 by {
            if a < g {
                assert(out@[a] == out_before[a]);
            }
        }
        g = g + 1;
    }
    proof {
        let ov = groups_view(out@);
        assert forall|a: int| #![trigger ov[a]] 0 <= a < ov.len() implies ov[a] == group_view(
            out@[a],
        ) && ov[a].0 == keys@[a] as int by {}
        assert forall|a: int, b: int| 0 <= a < b < ov.len() implies (#[trigger] ov[a]).0 < (
        #[trigger] ov[b]).0 by {
            assert(keys@[a] < keys@[b]);
        }
        assert forall|m: int| has_monitor(entries, m) <==> exists|a: int|
            0 <= a < ov.len() && (#[trigger] ov[a]).0 == m by {
            if has_monitor(entries, m) {
                let k = choose|k: int| 0 <= k < entries.len() && (#[trigger] entries[k]).0 == m;
                assert(ids@[k] as int == m);
                let mu = ids@[k];
                assert(keys@.contains(mu));
                let a = choose|a: int| 0 <= a < keys.len() && keys@[a] == mu;
                assert(ov[a].0 == m);
            }
            if exists|a: int| 0 <= a < ov.len() && (#[trigger] ov[a]).0 == m {
                let a = choose|a: int| 0 <= a < ov.len() && (#[trigger] ov[a]).0 == m;
                assert(keys@.contains(keys@[a]));
                let k = choose|k: int| 0 <= k < ids.len() && #[trigger] ids@[k] == keys@[a];
                assert(entries[k].0 == m);
            }
        }
        assert forall|a: int| #![trigger ov[a]] 0 <= a < ov.len() implies workspace_order_of(
            ov[a].1,
            workspaces_on(entries, ov[a].0),
        ) && ov[a].1.len() > 0 by {
            assert(out@[a].monitor_id == keys@[a]);
        }
    }
    out
}

// ---------------------------------------------------------------------------
// Applications from a window listing: lines `<id> | <app name> | <title>`
// ---------------------------------------------------------------------------

/// The application named by one window line: its second `|`-separated
/// field, trimmed, when that is not empty.
pub open spec fn window_app(line: Seq<char>) -> Option<Seq<char>> {
    let parts = split_on(line, '|');
    if parts.len() >= 2 {
        non_empty(trim(parts[1]))
    } else {
        None
    }
}

/// The applications named by the window lines, in order.
pub open spec fn window_apps(lines: Seq<Seq<char>>) -> Seq<Seq<char>>
    decreases lines.len(),
{
    if lines.len() == 0 {
        Seq::empty()
    } else {
        let prev = window_apps(lines.drop_last());
        match window_app(lines.last()) {
            Some(a) => prev.push(a),
            None => prev,
        }
    }
}

fn window_app_of(line: &String) -> (r: Option<String>)
    ensures
        opt_view(r) == window_app(line@),
{
    let s = line.as_str();
    let v = chars_of(s);
    let parts = split_bounds(&v, '|');
    if parts.len() < 2 {
        return None;
    }
    assert(v@.subrange(parts@[1].0 as int, parts@[1].1 as int) == split_on(v@, '|')[1]);
    let (a, b) = trim_bounds(&v, parts[1].0, parts[1].1);
    if a < b {
        Some(String::from_str(s.substring_char(a, b)))
    } else {
        None
    }
}

/// The distinct applications named by a window listing, in order of first
/// appearance.
pub fn app_names_from_window_lines(lines: Vec<String>) -> (r: Vec<String>)
    ensures
        views(r@) == first_occurrences(window_apps(views(lines@))),
{
    let mut apps: Vec<String> = Vec::new();
    let mut i: usize = 0;
    while i < lines.len()
        invariant
            i <= lines.len(),
            views(apps@) == window_apps(views(lines@).take(i as int)),
        decreases lines.len() - i,
    {
        assert(views(lines@).take(i + 1).drop_last() =~= views(lines@).take(i as int));
        assert(views(lines@).take(i + 1).last() == lines@[i as int]@);
        match window_app_of(&lines[i]) {
            Some(a) => {
                let ghost before = apps@;
                apps.push(a);
                assert(views(apps@) =~= views(before).push(apps@[apps.len() - 1]@));
            },
            None => {},
        }
        i = i + 1;
    }
    assert(views(lines@).take(lines.len() as int) =~= views(lines@));
    unique_preserve_order(apps)
}

// ---------------------------------------------------------------------------
// Now playing: the title and the artist on the first two non-blank lines
// ---------------------------------------------------------------------------

/// The track described by the tool's output: `None` when it printed nothing
/// but blank lines; else the first line is the title and the second, if any,
/// the artist.
pub open spec fn now_playing_of(content: Seq<char>) -> Option<(Seq<char>, Seq<char>)> {
    let lines = lines_of(content);
    if lines.len() == 0 {
        None
    } else {
        Some(
            (
                lines[0],
                if lines.len() > 1 {
                    lines[1]
                } else {
                    Seq::empty()
                },
            ),
        )
    }
}

/// The track described by the now-playing tool's output.
pub fn parse_now_playing(content: String) -> (r: Option<NowPlayingData>)
    ensures
        match r {
            Some(np) => now_playing_of(content@) == Some((np.title@, np.artist@)),
            None => now_playing_of(content@) is None,
        },
{
    let mut lines = parse_lines(content);
    let ghost all = views(lines@);
    if lines.len() == 0 {
        return None;
    }
    let title = lines.remove(0);
    assert(title@ == all[0]);
    let artist = if lines.len() > 0 {
        let a = lines.remove(0);
        assert(a@ == all[1]);
        a
    } else {
        String::new()
    };
    Some(NowPlayingData { title, artist })
}

/// Law: the application of a window line is its whole second
/// `|`-separated field, trimmed (inner spaces kept), whatever follows it:
/// for a window id and a field without `|`, `<id>|<field>|<rest>` names the
/// trimmed field, or nothing when the field is blank.
pub proof fn law_window_app_is_second_field(id: Seq<char>, field: Seq<char>, rest: Seq<char>)
    requires
        !id.contains('|'),
        !field.contains('|'),
    ensures
        window_app(id + seq!['|'] + field + seq!['|'] + rest) == non_empty(trim(field)),
{
    let line = id + seq!['|'] + field + seq!['|'] + rest;
    let tail = field + seq!['|'] + rest;
    assert(line =~= id + seq!['|'] + tail);
    lemma_split_on_join(id, '|', tail);
    lemma_split_on_join(field, '|', rest);
    lemma_split_on_none(id, '|');
    lemma_split_on_none(field, '|');
    let parts = split_on(line, '|');
    assert(parts == seq![id] + (seq![field] + split_on(rest, '|')));
    assert(parts[1] == field);
}

/// Law: in the listing's usual layout `<id> | <app> | <title>`, the
/// application is `<app>` exactly, spaces inside it included, for any
/// whitespace around the separators.
pub proof fn law_window_app_padded(
    id: Seq<char>,
    before: Seq<char>,
    app: Seq<char>,
    after: Seq<char>,
    title: Seq<char>,
)
    requires
        !id.contains('|'),
        all_space(before),
        all_space(after),
        app.len() > 0,
        trim(app) == app,
        !app.contains('|'),
    ensures
        window_app(id + seq!['|'] + before + app + after + seq!['|'] + title) == Some(app),
{
    let field = before + app + after;
    assert(!field.contains('|')) by {
        if field.contains('|') {
            let k = choose|k: int| 0 <= k < field.len() && field[k] == '|';
            if k < before.len() {
                assert(is_space(before[k]));
            } else if k < before.len() + app.len() {
                assert(app[k - before.len()] == '|');
            } else {
                assert(is_space(after[k - before.len() - app.len()]));
            }
        }
    }
    lemma_trimmed_ends(app);
    lemma_trim_padded(before, app, after);
    assert(id + seq!['|'] + before + app + after + seq!['|'] + title =~= id + seq!['|'] + field
        + seq!['|'] + title);
    law_window_app_is_second_field(id, field, title);
}

} // verus!
