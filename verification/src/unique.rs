//! De-duplication that keeps the first occurrence of each string.

use vstd::prelude::*;
use crate::order::{no_dup, same_elements};
use crate::text::{contains_string, views};

verus! {

/// The first occurrence of each element of `s`, in order.
pub open spec fn first_occurrences(s: Seq<Seq<char>>) -> Seq<Seq<char>>
    decreases s.len(),
{
    if s.len() == 0 {
        Seq::empty()
    } else {
        let prev = first_occurrences(s.drop_last());
        if prev.contains(s.last()) {
            prev
        } else {
            prev.push(s.last())
        }
    }
}

/// The first occurrences hold each element of `s` exactly once.
pub proof fn lemma_first_occurrences(s: Seq<Seq<char>>)
    ensures
        no_dup(first_occurrences(s)),
        same_elements(first_occurrences(s), s),
    decreases s.len(),
{
    if s.len() > 0 {
        let p = s.drop_last();
        let x = s.last();
        lemma_first_occurrences(p);
        let prev = first_occurrences(p);
        let r = first_occurrences(s);
        assert forall|y: Seq<char>| r.contains(y) <==> s.contains(y) by {
            if r.contains(y) {
                let k = choose|k: int| 0 <= k < r.len() && r[k] == y;
                if k < prev.len() {
                    assert(prev.contains(y));
                    assert(p.contains(y));
                    let m = choose|m: int| 0 <= m < p.len() && p[m] == y;
                    assert(s[m] == y);
                } else {
                    assert(s[s.len() - 1] == y);
                }
            }
            if s.contains(y) {
                let m = choose|m: int| 0 <= m < s.len() && s[m] == y;
                if m < s.len() - 1 {
                    assert(p[m] == y);
                    assert(prev.contains(y));
                    let k = choose|k: int| 0 <= k < prev.len() && prev[k] == y;
                    assert(r[k] == y);
                } else if prev.contains(x) {
                    let k = choose|k: int| 0 <= k < prev.len() && prev[k] == y;
                    assert(r[k] == y);
                } else {
                    assert(r[prev.len() as int] == y);
                }
            }
        }
        if !prev.contains(x) {
            assert forall|i: int, j: int| 0 <= i < r.len() && 0 <= j < r.len() && i != j implies r[i]
                != r[j] by {
                if i == prev.len() {
                    assert(prev.contains(r[j]));
                } else if j == prev.len() {
                    assert(prev.contains(r[i]));
                }
            }
        }
    }
}

/// Law: de-duplication keeps the order of first appearance: what is kept of
/// a list stays, in the same order, at the front of what is kept of any
/// longer list that starts with it.
pub proof fn law_first_occurrences_extend(s: Seq<Seq<char>>, t: Seq<Seq<char>>)
    ensures
        first_occurrences(s).len() <= first_occurrences(s + t).len(),
        first_occurrences(s + t).take(first_occurrences(s).len() as int) == first_occurrences(s),
    decreases t.len(),
{
    if t.len() == 0 {
        assert(s + t =~= s);
        assert(first_occurrences(s).take(first_occurrences(s).len() as int) =~= first_occurrences(s));
    } else {
        law_first_occurrences_extend(s, t.drop_last());
        assert((s + t).drop_last() =~= s + t.drop_last());
        let prev = first_occurrences(s + t.drop_last());
        let n = first_occurrences(s).len() as int;
        assert(prev.push((s + t).last()).take(n) =~= prev.take(n));
    }
}

/// Law: a list without repeated elements is its own first occurrences.
pub proof fn law_first_occurrences_of_distinct(s: Seq<Seq<char>>)
    requires
        no_dup(s),
    ensures
        first_occurrences(s) == s,
    decreases s.len(),
{
    if s.len() > 0 {
        let p = s.drop_last();
        assert(no_dup(p)) by {
            assert forall|i: int, j: int| 0 <= i < p.len() && 0 <= j < p.len() && i != j implies p[i]
                != p[j] by {
                assert(p[i] == s[i] && p[j] == s[j]);
            }
        }
        law_first_occurrences_of_distinct(p);
        if p.contains(s.last()) {
            let k = choose|k: int| 0 <= k < p.len() && p[k] == s.last();
            assert(s[k] == s[s.len() - 1]);
        }
        assert(p.push(s.last()) =~= s);
    }
}

/// Law: de-duplicating twice is de-duplicating once.
pub proof fn law_first_occurrences_idempotent(s: Seq<Seq<char>>)
    ensures
        first_occurrences(first_occurrences(s)) == first_occurrences(s),
{
    lemma_first_occurrences(s);
    law_first_occurrences_of_distinct(first_occurrences(s));
}

/// The first occurrence of each string of `input`, in order.
pub fn unique_preserve_order(input: Vec<String>) -> (r: Vec<String>)
    ensures
        views(r@) == first_occurrences(views(input@)),
{
    let mut out: Vec<String> = Vec::new();
    let mut i: usize = 0;
    while i < input.len()
        invariant
            i <= input.len(),
            views(out@) == first_occurrences(views(input@.take(i as int))),
        decreases input.len() - i,
    {
        let ghost pre = views(input@.take(i as int));
        assert(views(input@.take(i + 1)) =~= pre.push(input@[i as int]@));
        assert(pre.push(input@[i as int]@).drop_last() =~= pre);
        if !contains_string(&out, &input[i]) {
            let ghost before = out@;
            out.push(input[i].clone());
            assert(views(out@) =~= views(before).push(input@[i as int]@));
        }
        i = i + 1;
    }
    assert(input@.take(input.len() as int) =~= input@);
    out
}

} // verus!
