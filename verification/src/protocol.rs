//! The line protocol spoken by the window-manager bridge: `MODE=<value>`,
//! `AEROSPACE_MODE=<value>`, `FOCUSED_WORKSPACE=<value>`, a bare workspace
//! name, and `UPDATE_ALL`. The same tags appear in the bridge files that
//! hold the focused workspace and the current mode.

use vstd::prelude::*;
use crate::text::{
    all_space, chars_of, has_prefix, lemma_trim_padded, lemma_trimmed_ends, is_space, non_empty, opt_view, starts_with, trim, trim_bounds, trim_end,
    trim_start, trim_str,
};

verus! {

/// The tag of a mode line.
pub open spec fn mode_key() -> Seq<char> {
    seq!['M', 'O', 'D', 'E', '=']
}

/// The longer tag of a mode line.
pub open spec fn aerospace_mode_key() -> Seq<char> {
    seq!['A', 'E', 'R', 'O', 'S', 'P', 'A', 'C', 'E', '_', 'M', 'O', 'D', 'E', '=']
}

/// The tag of a focused-workspace line.
pub open spec fn focused_key() -> Seq<char> {
    seq![
        'F', 'O', 'C', 'U', 'S', 'E', 'D', '_', 'W', 'O', 'R', 'K', 'S', 'P', 'A', 'C', 'E', '=',
    ]
}

/// The line that asks for a full refresh.
pub open spec fn update_all_word() -> Seq<char> {
    seq!['U', 'P', 'D', 'A', 'T', 'E', '_', 'A', 'L', 'L']
}

/// The value that follows `key` in `t`, trimmed; `None` when nothing is left.
pub open spec fn value_after(t: Seq<char>, key: Seq<char>) -> Option<Seq<char>> {
    non_empty(trim(t.skip(key.len() as int)))
}

/// The mode carried by a mode line: the trimmed line must start with one of
/// the two mode tags.
pub open spec fn mode_line_value(line: Seq<char>) -> Option<Seq<char>> {
    let t = trim(line);
    if t.len() == 0 {
        None
    } else if has_prefix(t, mode_key()) {
        value_after(t, mode_key())
    } else if has_prefix(t, aerospace_mode_key()) {
        value_after(t, aerospace_mode_key())
    } else {
        None
    }
}

/// The mode held by the mode bridge file: a tagged value, or else the whole
/// trimmed content.
pub open spec fn mode_bridge_value(content: Seq<char>) -> Option<Seq<char>> {
    let t = trim(content);
    if t.len() == 0 {
        None
    } else if has_prefix(t, mode_key()) {
        value_after(t, mode_key())
    } else if has_prefix(t, aerospace_mode_key()) {
        value_after(t, aerospace_mode_key())
    } else {
        Some(t)
    }
}

/// The workspace named by a focused-workspace line or file: a tagged value,
/// or else the whole trimmed text.
pub open spec fn focused_value(line: Seq<char>) -> Option<Seq<char>> {
    let t = trim(line);
    if t.len() == 0 {
        None
    } else if has_prefix(t, focused_key()) {
        value_after(t, focused_key())
    } else {
        Some(t)
    }
}

/// The line is the full-refresh request.
pub open spec fn is_update_all(line: Seq<char>) -> bool {
    trim(line) == update_all_word()
}

fn mode_key_chars() -> (r: Vec<char>)
    ensures
        r@ == mode_key(),
{
    let r = vec!['M', 'O', 'D', 'E', '='];
    assert(r@ =~= mode_key());
    r
}

fn aerospace_mode_key_chars() -> (r: Vec<char>)
    ensures
        r@ == aerospace_mode_key(),
{
    let r = vec!['A', 'E', 'R', 'O', 'S', 'P', 'A', 'C', 'E', '_', 'M', 'O', 'D', 'E', '='];
    assert(r@ =~= aerospace_mode_key());
    r
}

fn focused_key_chars() -> (r: Vec<char>)
    ensures
        r@ == focused_key(),
{
    let r = vec![
        'F', 'O', 'C', 'U', 'S', 'E', 'D', '_', 'W', 'O', 'R', 'K', 'S', 'P', 'A', 'C', 'E', '=',
    ];
    assert(r@ =~= focused_key());
    r
}

fn update_all_chars() -> (r: Vec<char>)
    ensures
        r@ == update_all_word(),
{
    let r = vec!['U', 'P', 'D', 'A', 'T', 'E', '_', 'A', 'L', 'L'];
    assert(r@ =~= update_all_word());
    r
}

/// The trimmed rest of `t` after its first `k` characters, or `None`.
fn rest_after(t: &str, tv: &Vec<char>, k: usize) -> (r: Option<String>)
    requires
        tv@ == t@,
        k <= tv.len(),
    ensures
        opt_view(r) == non_empty(trim(t@.skip(k as int))),
{
    let (a, b) = trim_bounds(tv, k, tv.len());
    assert(tv@.subrange(k as int, tv.len() as int) =~= t@.skip(k as int));
    if a < b {
        Some(String::from_str(t.substring_char(a, b)))
    } else {
        None
    }
}

/// The mode value of a bridge line, when it carries one.
pub fn parse_mode_line(line: &str) -> (r: Option<String>)
    ensures
        opt_view(r) == mode_line_value(line@),
{
    let t = trim_str(line);
    let tv = chars_of(t.as_str());
    if tv.len() == 0 {
        return None;
    }
    let k1 = mode_key_chars();
    if starts_with(&tv, &k1) {
        return rest_after(t.as_str(), &tv, k1.len());
    }
    let k2 = aerospace_mode_key_chars();
    if starts_with(&tv, &k2) {
        return rest_after(t.as_str(), &tv, k2.len());
    }
    None
}

/// The mode held by the mode bridge file's content.
pub fn parse_mode_bridge(content: String) -> (r: Option<String>)
    ensures
        opt_view(r) == mode_bridge_value(content@),
{
    let t = trim_str(content.as_str());
    let tv = chars_of(t.as_str());
    if tv.len() == 0 {
        return None;
    }
    let k1 = mode_key_chars();
    if starts_with(&tv, &k1) {
        return rest_after(t.as_str(), &tv, k1.len());
    }
    let k2 = aerospace_mode_key_chars();
    if starts_with(&tv, &k2) {
        return rest_after(t.as_str(), &tv, k2.len());
    }
    Some(t)
}

/// The workspace named by a bridge line, tagged or bare.
pub fn parse_focused_workspace_line(line: &str) -> (r: Option<String>)
    ensures
        opt_view(r) == focused_value(line@),
{
    let t = trim_str(line);
    let tv = chars_of(t.as_str());
    if tv.len() == 0 {
        return None;
    }
    let k = focused_key_chars();
    if starts_with(&tv, &k) {
        return rest_after(t.as_str(), &tv, k.len());
    }
    Some(t)
}

/// The workspace held by the focused-workspace bridge file's content.
pub fn parse_focused_workspace_bridge(content: String) -> (r: Option<String>)
    ensures
        opt_view(r) == focused_value(content@),
{
    parse_focused_workspace_line(content.as_str())
}

/// Whether the line asks for a full refresh.
pub fn parse_update_all_line(line: &str) -> (r: bool)
    ensures
        r == is_update_all(line@),
{
    let t = trim_str(line);
    let tv = chars_of(t.as_str());
    let k = update_all_chars();
    let r = tv.len() == k.len() && starts_with(&tv, &k);
    proof {
        if tv.len() == k.len() {
            assert(tv@.take(k@.len() as int) =~= tv@);
        }
    }
    r
}

/// What one bridge line asks for.
pub enum BridgeCommand {
    /// Switch to this mode.
    SetMode(String),
    /// Reload the whole window-manager state.
    UpdateAll,
    /// Focus this workspace.
    Focus(String),
}

/// The model of a bridge command.
pub enum BridgeCommandModel {
    SetMode(Seq<char>),
    UpdateAll,
    Focus(Seq<char>),
}

impl View for BridgeCommand {
    type V = BridgeCommandModel;

    open spec fn view(&self) -> BridgeCommandModel {
        match self {
            BridgeCommand::SetMode(m) => BridgeCommandModel::SetMode(m@),
            BridgeCommand::UpdateAll => BridgeCommandModel::UpdateAll,
            BridgeCommand::Focus(w) => BridgeCommandModel::Focus(w@),
        }
    }
}

/// The trimmed line starts with one of the two mode tags.
pub open spec fn is_mode_tagged(line: Seq<char>) -> bool {
    has_prefix(trim(line), mode_key()) || has_prefix(trim(line), aerospace_mode_key())
}

/// What a line asks for: a line tagged as a mode line is one, and sets its
/// value (a tag without a value asks for nothing); then the refresh request;
/// then a (tagged or bare) workspace. Blank lines ask for nothing.
pub open spec fn line_command(line: Seq<char>) -> Option<BridgeCommandModel> {
    if trim(line).len() == 0 {
        None
    } else if is_mode_tagged(line) {
        match mode_line_value(line) {
            Some(m) => Some(BridgeCommandModel::SetMode(m)),
            None => None,
        }
    } else if is_update_all(line) {
        Some(BridgeCommandModel::UpdateAll)
    } else if focused_value(line) is Some {
        Some(BridgeCommandModel::Focus(focused_value(line)->0))
    } else {
        None
    }
}

/// Whether the trimmed line starts with one of the two mode tags.
fn mode_tagged(line: &str) -> (r: bool)
    ensures
        r == is_mode_tagged(line@),
{
    let t = trim_str(line);
    let tv = chars_of(t.as_str());
    let k1 = mode_key_chars();
    let k2 = aerospace_mode_key_chars();
    starts_with(&tv, &k1) || starts_with(&tv, &k2)
}

/// Classifies one line read from the bridge socket.
pub fn classify_line(line: &str) -> (r: Option<BridgeCommand>)
    ensures
        match r {
            Some(c) => line_command(line@) == Some(c@),
            None => line_command(line@) is None,
        },
{
    let t = trim_str(line);
    if t.unicode_len() == 0 {
        return None;
    }
    if mode_tagged(line) {
        return match parse_mode_line(line) {
            Some(mode) => Some(BridgeCommand::SetMode(mode)),
            None => None,
        };
    }
    if parse_update_all_line(line) {
        return Some(BridgeCommand::UpdateAll);
    }
    match parse_focused_workspace_line(line) {
        Some(ws) => Some(BridgeCommand::Focus(ws)),
        None => None,
    }
}

proof fn lemma_trim_start_len(s: Seq<char>)
    ensures
        trim_start(s).len() <= s.len(),
    decreases s.len(),
{
    if s.len() > 0 && is_space(s[0]) {
        lemma_trim_start_len(s.drop_first());
    }
}

proof fn lemma_trim_end_len(s: Seq<char>)
    ensures
        trim_end(s).len() <= s.len(),
    decreases s.len(),
{
    if s.len() > 0 && is_space(s.last()) {
        lemma_trim_end_len(s.drop_last());
    }
}

/// A text that trimming leaves alone starts and ends with non-whitespace.
proof fn lemma_trimmed_edges(v: Seq<char>)
    requires
        v.len() > 0,
        trim(v) == v,
    ensures
        !is_space(v[0]),
        !is_space(v.last()),
{
    if is_space(v[0]) {
        lemma_trim_start_len(v.drop_first());
        lemma_trim_end_len(trim_start(v));
    } else if is_space(v.last()) {
        lemma_trim_end_len(v.drop_last());
    }
}

/// A text without whitespace at either end is left alone by trimming.
proof fn lemma_trim_fixed(s: Seq<char>)
    requires
        s.len() > 0,
        !is_space(s[0]),
        !is_space(s.last()),
    ensures
        trim(s) == s,
{
}

/// `key + v` trims to itself when `v` does.
proof fn lemma_tagged_trimmed(key: Seq<char>, v: Seq<char>)
    requires
        key.len() > 0,
        !is_space(key[0]),
        v.len() > 0,
        trim(v) == v,
    ensures
        trim(key + v) == key + v,
        (key + v).take(key.len() as int) == key,
        (key + v).skip(key.len() as int) == v,
{
    lemma_trimmed_edges(v);
    let l = key + v;
    assert(l[0] == key[0]);
    assert(l.last() == v.last());
    lemma_trim_fixed(l);
    assert(l.take(key.len() as int) =~= key);
    assert(l.skip(key.len() as int) =~= v);
}

/// Law: `MODE=<v>` and `AEROSPACE_MODE=<v>` set the mode `v` (for any `v`
/// that has no whitespace at its ends).
pub proof fn law_mode_lines(v: Seq<char>)
    requires
        v.len() > 0,
        trim(v) == v,
    ensures
        line_command(mode_key() + v) == Some(BridgeCommandModel::SetMode(v)),
        line_command(aerospace_mode_key() + v) == Some(BridgeCommandModel::SetMode(v)),
{
    lemma_tagged_trimmed(mode_key(), v);
    lemma_tagged_trimmed(aerospace_mode_key(), v);
    let l = aerospace_mode_key() + v;
    assert(l.take(5)[0] != mode_key()[0]);
}

/// Law: `FOCUSED_WORKSPACE=<v>` focuses the workspace `v` (for any `v` that
/// has no whitespace at its ends).
pub proof fn law_focus_line(v: Seq<char>)
    requires
        v.len() > 0,
        trim(v) == v,
    ensures
        line_command(focused_key() + v) == Some(BridgeCommandModel::Focus(v)),
{
    lemma_tagged_trimmed(focused_key(), v);
    let l = focused_key() + v;
    assert(l.take(5)[0] != mode_key()[0]);
    assert(l.take(15)[0] != aerospace_mode_key()[0]);
    assert(l[0] != update_all_word()[0]);
}

/// Law: a bare workspace name focuses that workspace, unless it is tagged or
/// is the refresh request.
pub proof fn law_bare_focus_line(v: Seq<char>)
    requires
        v.len() > 0,
        trim(v) == v,
        !has_prefix(v, mode_key()),
        !has_prefix(v, aerospace_mode_key()),
        !has_prefix(v, focused_key()),
        v != update_all_word(),
    ensures
        line_command(v) == Some(BridgeCommandModel::Focus(v)),
{
}

/// Law: a mode tag without a value (`MODE=` or `AEROSPACE_MODE=`, with any
/// whitespace around or after it) asks for nothing: it neither sets a mode
/// nor names a workspace.
pub proof fn law_empty_mode_tag(line: Seq<char>)
    requires
        trim(line) == mode_key() || trim(line) == aerospace_mode_key(),
    ensures
        line_command(line) is None,
{
    let t = trim(line);
    assert(t.take(t.len() as int) =~= t);
    assert(t.skip(t.len() as int) =~= Seq::<char>::empty());
}

/// Law: `UPDATE_ALL` asks for a full reload.
pub proof fn law_update_all_line()
    ensures
        line_command(update_all_word()) == Some(BridgeCommandModel::UpdateAll),
{
    let w = update_all_word();
    lemma_trim_fixed(w);
    assert(w.take(5)[0] != mode_key()[0]);
}

/// Law: a line whose trimmed text is `UPDATE_ALL` asks for a full reload,
/// whatever whitespace surrounds it (such as the newline that a socket read
/// keeps).
pub proof fn law_update_all_any_whitespace(line: Seq<char>)
    requires
        trim(line) == update_all_word(),
    ensures
        line_command(line) == Some(BridgeCommandModel::UpdateAll),
{
    let w = update_all_word();
    assert(w.take(5)[0] != mode_key()[0]);
}

/// Law: `UPDATE_ALL` with whitespace before and after it asks for a full
/// reload.
pub proof fn law_update_all_padded(p: Seq<char>, w: Seq<char>)
    requires
        all_space(p),
        all_space(w),
    ensures
        line_command(p + update_all_word() + w) == Some(BridgeCommandModel::UpdateAll),
{
    let u = update_all_word();
    assert(!is_space(u[0]) && !is_space(u.last()));
    lemma_trim_padded(p, u, w);
    law_update_all_any_whitespace(p + u + w);
}

/// A tagged value with whitespace around it trims to the tag followed by the
/// value.
proof fn lemma_tagged_padded(p: Seq<char>, key: Seq<char>, v: Seq<char>, w: Seq<char>)
    requires
        all_space(p),
        all_space(w),
        key.len() > 0,
        !is_space(key[0]),
        v.len() > 0,
        trim(v) == v,
    ensures
        trim(p + key + v + w) == key + v,
        (key + v).take(key.len() as int) == key,
        (key + v).skip(key.len() as int) == v,
{
    lemma_trimmed_ends(v);
    let x = key + v;
    assert(x[0] == key[0]);
    assert(x.last() == v.last());
    assert(p + key + v + w =~= p + x + w);
    lemma_trim_padded(p, x, w);
    assert(x.take(key.len() as int) =~= key);
    assert(x.skip(key.len() as int) =~= v);
}

/// Law: the mode read from the mode bridge file, or from a mode line, is the
/// tagged value without the whitespace around it: for a value `v` that
/// trimming leaves alone, `MODE=v` and `AEROSPACE_MODE=v` with any leading
/// and trailing whitespace (such as a file's final newline) give `v`.
pub proof fn law_mode_value_is_tagged_value(p: Seq<char>, v: Seq<char>, w: Seq<char>)
    requires
        all_space(p),
        all_space(w),
        v.len() > 0,
        trim(v) == v,
    ensures
        mode_bridge_value(p + mode_key() + v + w) == Some(v),
        mode_bridge_value(p + aerospace_mode_key() + v + w) == Some(v),
        mode_line_value(p + mode_key() + v + w) == Some(v),
        mode_line_value(p + aerospace_mode_key() + v + w) == Some(v),
        line_command(p + mode_key() + v + w) == Some(BridgeCommandModel::SetMode(v)),
        line_command(p + aerospace_mode_key() + v + w) == Some(BridgeCommandModel::SetMode(v)),
{
    lemma_tagged_padded(p, mode_key(), v, w);
    lemma_tagged_padded(p, aerospace_mode_key(), v, w);
    let a = aerospace_mode_key() + v;
    assert(a.take(5)[0] != mode_key()[0]);
}

/// Law: an untagged mode bridge file holds its trimmed content as the mode,
/// and an untagged line names its trimmed text as a workspace (unless it is
/// the refresh request), whatever whitespace surrounds them.
pub proof fn law_untagged_values(p: Seq<char>, v: Seq<char>, w: Seq<char>)
    requires
        all_space(p),
        all_space(w),
        v.len() > 0,
        trim(v) == v,
        !has_prefix(v, mode_key()),
        !has_prefix(v, aerospace_mode_key()),
        !has_prefix(v, focused_key()),
    ensures
        mode_bridge_value(p + v + w) == Some(v),
        focused_value(p + v + w) == Some(v),
        v != update_all_word() ==> line_command(p + v + w) == Some(BridgeCommandModel::Focus(v)),
{
    lemma_trimmed_ends(v);
    lemma_trim_padded(p, v, w);
}

/// Law: the workspace read from the focused-workspace bridge file, or from a
/// focus line, is the tagged value without the whitespace around it.
pub proof fn law_focused_value_is_tagged_value(p: Seq<char>, v: Seq<char>, w: Seq<char>)
    requires
        all_space(p),
        all_space(w),
        v.len() > 0,
        trim(v) == v,
    ensures
        focused_value(p + focused_key() + v + w) == Some(v),
        line_command(p + focused_key() + v + w) == Some(BridgeCommandModel::Focus(v)),
{
    lemma_tagged_padded(p, focused_key(), v, w);
    let l = focused_key() + v;
    assert(l.take(5)[0] != mode_key()[0]);
    assert(l.take(15)[0] != aerospace_mode_key()[0]);
    assert(l[0] != update_all_word()[0]);
}

} // verus!
