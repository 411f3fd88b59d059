//! Application icons of the icon font: a table of entries, each an icon's
//! ligature name and the applications it stands for.

use vstd::prelude::*;
use crate::text::{contains_string, views};

verus! {

/// One entry of the icon table.
#[derive(Clone, Debug)]
pub struct IconEntry {
    pub icon_name: String,
    pub app_names: Vec<String>,
}

/// An entry as its icon name and the views of its application names.
pub open spec fn entry_view(e: IconEntry) -> (Seq<char>, Seq<Seq<char>>) {
    (e.icon_name@, views(e.app_names@))
}

pub open spec fn entries_view(es: Seq<IconEntry>) -> Seq<(Seq<char>, Seq<Seq<char>>)> {
    es.map_values(|e: IconEntry| entry_view(e))
}

/// The name given to an application that no entry names.
pub open spec fn default_icon() -> Seq<char> {
    seq![':', 'd', 'e', 'f', 'a', 'u', 'l', 't', ':']
}

/// The icon of `app`: that of the first entry naming it, else `:default:`.
pub open spec fn icon_of(entries: Seq<(Seq<char>, Seq<Seq<char>>)>, app: Seq<char>) -> Seq<char>
    decreases entries.len(),
{
    if entries.len() == 0 {
        default_icon()
    } else if entries[0].1.contains(app) {
        entries[0].0
    } else {
        icon_of(entries.drop_first(), app)
    }
}

/// The icon ligature of an application: the icon of the first entry that
/// names it, or `:default:` when none does.
pub fn app_name_to_icon(entries: &Vec<IconEntry>, app: &String) -> (r: String)
    ensures
        r@ == icon_of(entries_view(entries@), app@),
{
    let ghost all = entries_view(entries@);
    let mut i: usize = 0;
    assert(all.skip(0) =~= all);
    while i < entries.len()
        invariant
            i <= entries.len(),
            all == entries_view(entries@),
            icon_of(all, app@) == icon_of(all.skip(i as int), app@),
        decreases entries.len() - i,
    {
        let ghost rest = all.skip(i as int);
        assert(rest[0] == entry_view(entries@[i as int]));
        assert(rest.drop_first() =~= all.skip(i + 1));
        if contains_string(&entries[i].app_names, app) {
            return entries[i].icon_name.clone();
        }
        i = i + 1;
    }
    let d = ":default:";
    proof {
        reveal_strlit(":default:");
        assert(all.skip(i as int) =~= Seq::<(Seq<char>, Seq<Seq<char>>)>::empty());
        assert(d@ =~= default_icon());
    }
    String::from_str(d)
}

/// Law: every entry of the table is consulted: when entry `i` is the first
/// that names the application, its icon is entry `i`'s icon name, wherever
/// `i` stands in the table (the last entry and a one-entry table included).
pub proof fn law_first_naming_entry_wins(
    entries: Seq<(Seq<char>, Seq<Seq<char>>)>,
    app: Seq<char>,
    i: int,
)
    requires
        0 <= i < entries.len(),
        entries[i].1.contains(app),
        forall|j: int| 0 <= j < i ==> !(#[trigger] entries[j]).1.contains(app),
    ensures
        icon_of(entries, app) == entries[i].0,
    decreases i,
{
    if i > 0 {
        assert(!entries[0].1.contains(app));
        let rest = entries.drop_first();
        assert forall|j: int| 0 <= j < i - 1 implies !(#[trigger] rest[j]).1.contains(app) by {
            assert(rest[j] == entries[j + 1]);
        }
        law_first_naming_entry_wins(rest, app, i - 1);
    }
}

/// Law: an application that no entry names gets `:default:`.
pub proof fn law_unnamed_application_default(entries: Seq<(Seq<char>, Seq<Seq<char>>)>, app: Seq<char>)
    requires
        forall|j: int| 0 <= j < entries.len() ==> !(#[trigger] entries[j]).1.contains(app),
    ensures
        icon_of(entries, app) == default_icon(),
    decreases entries.len(),
{
    if entries.len() > 0 {
        assert(!entries[0].1.contains(app));
        let rest = entries.drop_first();
        assert forall|j: int| 0 <= j < rest.len() implies !(#[trigger] rest[j]).1.contains(app) by {
            assert(rest[j] == entries[j + 1]);
        }
        law_unnamed_application_default(rest, app);
    }
}

} // verus!
