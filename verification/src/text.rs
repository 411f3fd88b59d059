//! Character-level text handling: whitespace, trimming, splitting into lines,
//! prefixes. Strings are modelled by their `Seq<char>` view.

use vstd::prelude::*;

verus! {

/// The views of a list of strings.
pub open spec fn views(v: Seq<String>) -> Seq<Seq<char>> {
    v.map_values(|s: String| s@)
}

/// The view of an optional string.
pub open spec fn opt_view(o: Option<String>) -> Option<Seq<char>> {
    match o {
        Some(s) => Some(s@),
        None => None,
    }
}

/// `Some(s)` unless `s` is empty.
pub open spec fn non_empty(s: Seq<char>) -> Option<Seq<char>> {
    if s.len() == 0 {
        None
    } else {
        Some(s)
    }
}

/// A character with the Unicode `White_Space` property, the set that
/// `char::is_whitespace` recognises.
pub open spec fn is_space(c: char) -> bool {
    let u = c as u32;
    ||| u == 0x20
    ||| 0x09 <= u <= 0x0d
    ||| u == 0x85
    ||| u == 0xa0
    ||| u == 0x1680
    ||| 0x2000 <= u <= 0x200a
    ||| u == 0x2028
    ||| u == 0x2029
    ||| u == 0x202f
    ||| u == 0x205f
    ||| u == 0x3000
}

/// `s` without its leading whitespace.
pub open spec fn trim_start(s: Seq<char>) -> Seq<char>
    decreases s.len(),
{
    if s.len() > 0 && is_space(s[0]) {
        trim_start(s.drop_first())
    } else {
        s
    }
}

/// `s` without its trailing whitespace.
pub open spec fn trim_end(s: Seq<char>) -> Seq<char>
    decreases s.len(),
{
    if s.len() > 0 && is_space(s.last()) {
        trim_end(s.drop_last())
    } else {
        s
    }
}

/// `s` without leading and trailing whitespace (what `str::trim` gives).
pub open spec fn trim(s: Seq<char>) -> Seq<char> {
    trim_end(trim_start(s))
}

/// The pieces of `s` between occurrences of `sep` (what `str::split` yields):
/// always at least one piece.
pub open spec fn split_on(s: Seq<char>, sep: char) -> Seq<Seq<char>>
    decreases s.len(),
{
    if s.len() == 0 {
        seq![Seq::<char>::empty()]
    } else {
        let prev = split_on(s.drop_last(), sep);
        if s.last() == sep {
            prev.push(Seq::<char>::empty())
        } else {
            prev.update(prev.len() - 1, prev.last().push(s.last()))
        }
    }
}

/// The trimmed pieces that are not empty, in order.
pub open spec fn trimmed_non_empty(pieces: Seq<Seq<char>>) -> Seq<Seq<char>>
    decreases pieces.len(),
{
    if pieces.len() == 0 {
        Seq::empty()
    } else {
        let prev = trimmed_non_empty(pieces.drop_last());
        let t = trim(pieces.last());
        if t.len() > 0 {
            prev.push(t)
        } else {
            prev
        }
    }
}

/// The non-blank lines of `s`, each trimmed: what
/// `s.lines().map(str::trim).filter(|l| !l.is_empty())` yields. (`lines` also
/// drops a `'\r'` before each `'\n'` and a final empty line; both vanish under
/// trimming and the blank filter.)
pub open spec fn lines_of(s: Seq<char>) -> Seq<Seq<char>> {
    trimmed_non_empty(split_on(s, '\n'))
}

/// `p` is a prefix of `s`.
pub open spec fn has_prefix(s: Seq<char>, p: Seq<char>) -> bool {
    p.len() <= s.len() && s.take(p.len() as int) == p
}

/// `p` occurs in `s` as a contiguous piece.
pub open spec fn contains_piece(s: Seq<char>, p: Seq<char>) -> bool {
    exists|i: int| 0 <= i <= s.len() - p.len() && #[trigger] s.subrange(i, i + p.len()) == p
}

proof fn lemma_trim_start_head(s: Seq<char>)
    ensures
        trim_start(s).len() > 0 ==> !is_space(trim_start(s)[0]),
    decreases s.len(),
{
    if s.len() > 0 && is_space(s[0]) {
        lemma_trim_start_head(s.drop_first());
    }
}

proof fn lemma_trim_end_prefix(s: Seq<char>)
    ensures
        trim_end(s).len() <= s.len(),
        trim_end(s) == s.take(trim_end(s).len() as int),
        trim_end(s).len() > 0 ==> !is_space(trim_end(s).last()),
    decreases s.len(),
{
    if s.len() > 0 && is_space(s.last()) {
        lemma_trim_end_prefix(s.drop_last());
        assert(s.drop_last().take(trim_end(s).len() as int) =~= s.take(trim_end(s).len() as int));
    } else {
        assert(s.take(s.len() as int) =~= s);
    }
}

/// Trimming a trimmed text changes nothing.
pub proof fn lemma_trim_idempotent(s: Seq<char>)
    ensures
        trim(trim(s)) == trim(s),
{
    let u = trim_start(s);
    let t = trim_end(u);
    lemma_trim_start_head(s);
    lemma_trim_end_prefix(u);
    if t.len() > 0 {
        assert(t[0] == u[0]);
        assert(trim_start(t) == t);
        assert(trim_end(t) == t);
    }
}

proof fn lemma_trimmed_non_empty_elements(pieces: Seq<Seq<char>>)
    ensures
        forall|i: int|
            0 <= i < trimmed_non_empty(pieces).len() ==> (#[trigger] trimmed_non_empty(pieces)[i]).len() > 0
                && trim(trimmed_non_empty(pieces)[i]) == trimmed_non_empty(pieces)[i],
    decreases pieces.len(),
{
    if pieces.len() > 0 {
        lemma_trimmed_non_empty_elements(pieces.drop_last());
        lemma_trim_idempotent(pieces.last());
        let prev = trimmed_non_empty(pieces.drop_last());
        let r = trimmed_non_empty(pieces);
        assert forall|i: int| 0 <= i < r.len() implies (#[trigger] r[i]).len() > 0 && trim(r[i]) == r[i] by {
            if i < prev.len() {
                assert(r[i] == prev[i]);
            }
        }
    }
}

/// Every character of `w` is whitespace.
pub open spec fn all_space(w: Seq<char>) -> bool {
    forall|i: int| 0 <= i < w.len() ==> is_space(#[trigger] w[i])
}

/// Whitespace after `x` does not survive `trim_end`.
pub proof fn lemma_trim_end_spaces(x: Seq<char>, w: Seq<char>)
    requires
        all_space(w),
    ensures
        trim_end(x + w) == trim_end(x),
    decreases w.len(),
{
    if w.len() == 0 {
        assert(x + w =~= x);
    } else {
        assert((x + w).last() == w.last());
        assert((x + w).drop_last() =~= x + w.drop_last());
        lemma_trim_end_spaces(x, w.drop_last());
    }
}

/// Whitespace before `x` does not survive `trim_start`.
pub proof fn lemma_trim_start_spaces(p: Seq<char>, x: Seq<char>)
    requires
        all_space(p),
    ensures
        trim_start(p + x) == trim_start(x),
    decreases p.len(),
{
    if p.len() == 0 {
        assert(p + x =~= x);
    } else {
        assert((p + x)[0] == p[0]);
        assert((p + x).drop_first() =~= p.drop_first() + x);
        lemma_trim_start_spaces(p.drop_first(), x);
    }
}

/// A text that starts and ends with non-whitespace, with whitespace around
/// it, trims to itself.
pub proof fn lemma_trim_padded(p: Seq<char>, x: Seq<char>, w: Seq<char>)
    requires
        all_space(p),
        all_space(w),
        x.len() > 0,
        !is_space(x[0]),
        !is_space(x.last()),
    ensures
        trim(p + x + w) == x,
{
    assert(p + x + w =~= p + (x + w));
    lemma_trim_start_spaces(p, x + w);
    assert((x + w)[0] == x[0]);
    lemma_trim_end_spaces(x, w);
}

/// A trimmed, non-empty text starts and ends with non-whitespace.
pub proof fn lemma_trimmed_ends(v: Seq<char>)
    requires
        v.len() > 0,
        trim(v) == v,
    ensures
        !is_space(v[0]),
        !is_space(v.last()),
{
    lemma_trim_start_head(v);
    lemma_trim_end_prefix(trim_start(v));
    let u = trim_start(v);
    if u.len() < v.len() {
        lemma_trim_start_shorter(v);
    }
    if trim_end(u).len() > 0 {
        assert(trim_end(u).last() == v.last());
    }
}

proof fn lemma_trim_start_shorter(s: Seq<char>)
    ensures
        trim_start(s).len() <= s.len(),
        trim_start(s) == s.skip(s.len() - trim_start(s).len()),
    decreases s.len(),
{
    if s.len() > 0 && is_space(s[0]) {
        lemma_trim_start_shorter(s.drop_first());
        assert(s.drop_first().skip(s.drop_first().len() - trim_start(s).len()) =~= s.skip(
            s.len() - trim_start(s).len(),
        ));
    } else {
        assert(s.skip(0) =~= s);
    }
}

/// `split_on` always yields at least one piece.
pub proof fn lemma_split_on_len(s: Seq<char>, sep: char)
    ensures
        split_on(s, sep).len() >= 1,
    decreases s.len(),
{
    if s.len() > 0 {
        lemma_split_on_len(s.drop_last(), sep);
    }
}

/// A text without the separator is a single piece.
pub proof fn lemma_split_on_none(s: Seq<char>, sep: char)
    requires
        !s.contains(sep),
    ensures
        split_on(s, sep) == seq![s],
    decreases s.len(),
{
    if s.len() > 0 {
        assert(s.last() != sep) by {
            if s.last() == sep {
                assert(s[s.len() - 1] == sep);
            }
        }
        assert(!s.drop_last().contains(sep)) by {
            if s.drop_last().contains(sep) {
                let k = choose|k: int| 0 <= k < s.drop_last().len() && s.drop_last()[k] == sep;
                assert(s[k] == sep);
            }
        }
        lemma_split_on_none(s.drop_last(), sep);
        assert(s.drop_last().push(s.last()) =~= s);
        assert(split_on(s, sep) =~= seq![s]);
    } else {
        assert(s =~= Seq::<char>::empty());
    }
}

/// Splitting at a separator: the pieces of `x`, then those of `y`.
pub proof fn lemma_split_on_join(x: Seq<char>, sep: char, y: Seq<char>)
    ensures
        split_on(x + seq![sep] + y, sep) == split_on(x, sep) + split_on(y, sep),
    decreases y.len(),
{
    let l = x + seq![sep] + y;
    if y.len() == 0 {
        assert(l.drop_last() =~= x);
        assert(l.last() == sep);
        assert(split_on(y, sep) == seq![Seq::<char>::empty()]);
        assert(split_on(l, sep) =~= split_on(x, sep) + split_on(y, sep));
    } else {
        let y1 = y.drop_last();
        assert(l.drop_last() =~= x + seq![sep] + y1);
        assert(l.last() == y.last());
        lemma_split_on_join(x, sep, y1);
        lemma_split_on_len(y1, sep);
        lemma_split_on_len(x, sep);
        assert(split_on(l, sep) =~= split_on(x, sep) + split_on(y, sep));
    }
}

proof fn lemma_trimmed_non_empty_concat(a: Seq<Seq<char>>, b: Seq<Seq<char>>)
    ensures
        trimmed_non_empty(a + b) == trimmed_non_empty(a) + trimmed_non_empty(b),
    decreases b.len(),
{
    if b.len() == 0 {
        assert(a + b =~= a);
        assert(trimmed_non_empty(a) + trimmed_non_empty(b) =~= trimmed_non_empty(a));
    } else {
        assert((a + b).drop_last() =~= a + b.drop_last());
        assert((a + b).last() == b.last());
        lemma_trimmed_non_empty_concat(a, b.drop_last());
        assert(trimmed_non_empty(a + b) =~= trimmed_non_empty(a) + trimmed_non_empty(b));
    }
}

/// Law: the lines of a text joined by a newline are the lines of the first
/// part followed by those of the second; none is lost or merged.
pub proof fn law_lines_join(a: Seq<char>, b: Seq<char>)
    ensures
        lines_of(a + seq!['\n'] + b) == lines_of(a) + lines_of(b),
{
    lemma_split_on_join(a, '\n', b);
    lemma_trimmed_non_empty_concat(split_on(a, '\n'), split_on(b, '\n'));
}

/// Law: a text without a newline is one line, trimmed, unless it is blank.
pub proof fn law_single_line(a: Seq<char>)
    requires
        !a.contains('\n'),
    ensures
        lines_of(a) == (if trim(a).len() > 0 {
            seq![trim(a)]
        } else {
            Seq::<Seq<char>>::empty()
        }),
{
    lemma_split_on_none(a, '\n');
    let p = seq![a];
    assert(p.drop_last() =~= Seq::<Seq<char>>::empty());
    assert(trimmed_non_empty(p.drop_last()) == Seq::<Seq<char>>::empty());
    if trim(a).len() > 0 {
        assert(trimmed_non_empty(p) =~= seq![trim(a)]);
    }
}

/// Law: every line that `parse_lines` gives is non-empty and has no
/// whitespace left to trim.
pub proof fn law_lines_trimmed_non_empty(s: Seq<char>)
    ensures
        forall|i: int|
            0 <= i < lines_of(s).len() ==> (#[trigger] lines_of(s)[i]).len() > 0 && trim(lines_of(s)[i])
                == lines_of(s)[i],
{
    lemma_trimmed_non_empty_elements(split_on(s, '\n'));
}

/// Whether `c` is whitespace, as `char::is_whitespace` decides.
pub fn is_space_char(c: char) -> (r: bool)
    ensures
        r == is_space(c),
{
    let u = c as u32;
    u == 0x20 || (0x09 <= u && u <= 0x0d) || u == 0x85 || u == 0xa0 || u == 0x1680 || (0x2000
        <= u && u <= 0x200a) || u == 0x2028 || u == 0x2029 || u == 0x202f || u == 0x205f || u
        == 0x3000
}

/// The code point of `c`.
pub fn char_code(c: char) -> (r: u32)
    ensures
        r as int == c as int,
{
    c as u32
}

/// The characters of `s`.
pub fn chars_of(s: &str) -> (v: Vec<char>)
    ensures
        v@ == s@,
{
    let mut v: Vec<char> = Vec::new();
    for c in it: s.chars()
        invariant
            v@ == it.seq().take(it.index() as int),
            it.seq() == s@,
    {
        v.push(c);
    }
    v
}

/// The bounds of the trimmed piece of `v[lo..hi]`.
pub fn trim_bounds(v: &Vec<char>, lo: usize, hi: usize) -> (r: (usize, usize))
    requires
        lo <= hi <= v.len(),
    ensures
        lo <= r.0 <= r.1 <= hi,
        v@.subrange(r.0 as int, r.1 as int) == trim(v@.subrange(lo as int, hi as int)),
{
    let mut i = lo;
    while i < hi && is_space_char(v[i])
        invariant
            lo <= i <= hi <= v.len(),
            trim_start(v@.subrange(lo as int, hi as int)) == trim_start(
                v@.subrange(i as int, hi as int),
            ),
        decreases hi - i,
    {
        assert(v@.subrange(i as int, hi as int).drop_first() =~= v@.subrange(
            i + 1,
            hi as int,
        ));
        i = i + 1;
    }
    assert(trim_start(v@.subrange(i as int, hi as int)) == v@.subrange(i as int, hi as int));
    let mut j = hi;
    while j > i && is_space_char(v[j - 1])
        invariant
            lo <= i <= j <= hi <= v.len(),
            trim_end(v@.subrange(i as int, hi as int)) == trim_end(
                v@.subrange(i as int, j as int),
            ),
        decreases j - i,
    {
        assert(v@.subrange(i as int, j as int).drop_last() =~= v@.subrange(
            i as int,
            j - 1,
        ));
        j = j - 1;
    }
    (i, j)
}

/// `s` with leading and trailing whitespace removed (`str::trim`).
pub fn trim_str(s: &str) -> (r: String)
    ensures
        r@ == trim(s@),
{
    let v = chars_of(s);
    let (a, b) = trim_bounds(&v, 0, v.len());
    assert(v@.subrange(0, v@.len() as int) =~= v@);
    String::from_str(s.substring_char(a, b))
}

/// The trimmed text of `s`, or `None` when nothing is left.
pub fn non_empty_trimmed(s: &str) -> (r: Option<String>)
    ensures
        opt_view(r) == non_empty(trim(s@)),
{
    let t = trim_str(s);
    if t.unicode_len() == 0 {
        None
    } else {
        Some(t)
    }
}

/// Whether `v` starts with `p`.
pub fn starts_with(v: &Vec<char>, p: &Vec<char>) -> (r: bool)
    ensures
        r == has_prefix(v@, p@),
{
    if p.len() > v.len() {
        return false;
    }
    let mut i: usize = 0;
    while i < p.len()
        invariant
            p.len() <= v.len(),
            i <= p.len(),
            v@.take(i as int) == p@.take(i as int),
        decreases p.len() - i,
    {
        if v[i] != p[i] {
            assert(v@.take(p.len() as int)[i as int] != p@[i as int]);
            return false;
        }
        assert(v@.take(i + 1) =~= v@.take(i as int).push(v@[i as int]));
        assert(p@.take(i + 1) =~= p@.take(i as int).push(p@[i as int]));
        i = i + 1;
    }
    assert(p@.take(p.len() as int) =~= p@);
    true
}

/// Whether `p` occurs in `v` as a contiguous piece.
pub fn contains_chars(v: &Vec<char>, p: &Vec<char>) -> (r: bool)
    ensures
        r == contains_piece(v@, p@),
{
    if p.len() > v.len() {
        return false;
    }
    let last = v.len() - p.len();
    let mut i: usize = 0;
    while i <= last
        invariant
            last == v.len() - p.len(),
            i <= last + 1,
            forall|k: int| 0 <= k < i ==> #[trigger] v@.subrange(k, k + p.len()) != p@,
        decreases last + 1 - i,
    {
        let mut j: usize = 0;
        let mut same = true;
        while j < p.len()
            invariant
                i <= last,
                last == v.len() - p.len(),
                j <= p.len(),
                same ==> forall|m: int| 0 <= m < j ==> v@[i + m] == p@[m],
                !same ==> v@.subrange(i as int, i + p.len()) != p@,
            decreases p.len() - j,
        {
            if same && v[i + j] != p[j] {
                assert(v@.subrange(i as int, i + p.len())[j as int] != p@[j as int]);
                same = false;
            }
            j = j + 1;
        }
        if same {
            assert(v@.subrange(i as int, i + p.len()) =~= p@);
            return true;
        }
        if i == last {
            return false;
        }
        i = i + 1;
    }
    false
}

/// The bounds of the pieces of `v` between occurrences of `sep`
/// (`str::split`).
pub fn split_bounds(v: &Vec<char>, sep: char) -> (r: Vec<(usize, usize)>)
    ensures
        r.len() == split_on(v@, sep).len(),
        forall|k: int|
            #![trigger r@[k]]
            0 <= k < r.len() ==> r@[k].0 <= r@[k].1 <= v.len() && v@.subrange(
                r@[k].0 as int,
                r@[k].1 as int,
            ) == split_on(v@, sep)[k],
{
    let mut out: Vec<(usize, usize)> = Vec::new();
    let mut start: usize = 0;
    let mut i: usize = 0;
    let ghost mut done: Seq<Seq<char>> = Seq::empty();
    assert(v@.take(0) =~= Seq::<char>::empty());
    assert(done.push(v@.subrange(0, 0)) =~= seq![Seq::<char>::empty()]);
    while i < v.len()
        invariant
            start <= i <= v.len(),
            split_on(v@.take(i as int), sep) == done.push(v@.subrange(start as int, i as int)),
            out.len() == done.len(),
            forall|k: int|
                #![trigger out@[k]]
                0 <= k < out.len() ==> out@[k].0 <= out@[k].1 <= v.len() && v@.subrange(
                    out@[k].0 as int,
                    out@[k].1 as int,
                ) == done[k],
        decreases v.len() - i,
    {
        assert(v@.take(i + 1).drop_last() =~= v@.take(i as int));
        assert(v@.take(i + 1).last() == v@[i as int]);
        if v[i] == sep {
            let ghost old_out = out@;
            out.push((start, i));
            proof {
                let piece = v@.subrange(start as int, i as int);
                let old_done = done;
                done = done.push(piece);
                assert(v@.subrange(i + 1, i + 1) =~= Seq::<char>::empty());
                assert forall|k: int| #![trigger out@[k]] 0 <= k < out.len() implies out@[k].0
                    <= out@[k].1 <= v.len() && v@.subrange(out@[k].0 as int, out@[k].1 as int)
                    == done[k] by {
                    if k < old_out.len() {
                        assert(out@[k] == old_out[k]);
                        assert(done[k] == old_done[k]);
                    } else {
                        assert(out@[k] == (start, i));
                        assert(start <= i);
                    }
                }
            }
            start = i + 1;
        } else {
            proof {
                let piece = v@.subrange(start as int, i as int);
                assert(piece.push(v@[i as int]) =~= v@.subrange(start as int, i + 1));
                assert(done.push(piece).update(done.len() as int, piece.push(v@[i as int]))
                    =~= done.push(v@.subrange(start as int, i + 1)));
            }
        }
        i = i + 1;
    }
    let ghost old_out = out@;
    out.push((start, v.len()));
    proof {
        assert(v@.take(v.len() as int) =~= v@);
        let all = done.push(v@.subrange(start as int, v.len() as int));
        assert forall|k: int| #![trigger out@[k]] 0 <= k < out.len() implies out@[k].0 <= out@[k].1
            <= v.len() && v@.subrange(out@[k].0 as int, out@[k].1 as int) == split_on(v@, sep)[k] by {
            if k < old_out.len() {
                assert(out@[k] == old_out[k]);
                assert(all[k] == done[k]);
            }
        }
    }
    out
}

/// Whether `v` holds a string equal to `s`.
pub fn contains_string(v: &Vec<String>, s: &String) -> (r: bool)
    ensures
        r == views(v@).contains(s@),
{
    let mut i: usize = 0;
    while i < v.len()
        invariant
            i <= v.len(),
            forall|k: int| 0 <= k < i ==> v@[k]@ != s@,
        decreases v.len() - i,
    {
        if v[i] == *s {
            assert(views(v@)[i as int] == s@);
            return true;
        }
        i = i + 1;
    }
    proof {
        if views(v@).contains(s@) {
            let k = choose|k: int| 0 <= k < views(v@).len() && views(v@)[k] == s@;
            assert(v@[k]@ == s@);
        }
    }
    false
}

/// Appends the trimmed piece `s[lo..hi]` to `out` unless it is empty.
fn push_trimmed_piece(
    out: &mut Vec<String>,
    s: &str,
    v: &Vec<char>,
    lo: usize,
    hi: usize,
)
    requires
        v@ == s@,
        lo <= hi <= v.len(),
    ensures
        views(final(out)@) == if trim(v@.subrange(lo as int, hi as int)).len() > 0 {
            views(old(out)@).push(trim(v@.subrange(lo as int, hi as int)))
        } else {
            views(old(out)@)
        },
{
    let (a, b) = trim_bounds(v, lo, hi);
    if a < b {
        let line = String::from_str(s.substring_char(a, b));
        out.push(line);
        assert(views(out@) =~= views(old(out)@).push(line@));
    }
}

/// The non-blank lines of `output`, each trimmed.
pub fn parse_lines(output: String) -> (r: Vec<String>)
    ensures
        views(r@) == lines_of(output@),
{
    let s = output.as_str();
    let v = chars_of(s);
    let mut out: Vec<String> = Vec::new();
    let mut start: usize = 0;
    let mut i: usize = 0;
    let ghost mut done: Seq<Seq<char>> = Seq::empty();
    assert(v@.take(0) =~= Seq::<char>::empty());
    assert(done.push(v@.subrange(0, 0)) =~= seq![Seq::<char>::empty()]);
    while i < v.len()
        invariant
            v@ == s@,
            s@ == output@,
            start <= i <= v.len(),
            split_on(v@.take(i as int), '\n') == done.push(v@.subrange(start as int, i as int)),
            views(out@) == trimmed_non_empty(done),
        decreases v.len() - i,
    {
        assert(v@.take(i + 1).drop_last() =~= v@.take(i as int));
        assert(v@.take(i + 1).last() == v@[i as int]);
        if v[i] == '\n' {
            push_trimmed_piece(&mut out, s, &v, start, i);
            proof {
                let piece = v@.subrange(start as int, i as int);
                assert(done.push(piece).drop_last() =~= done);
                done = done.push(piece);
                assert(v@.subrange(i + 1, i + 1) =~= Seq::<char>::empty());
            }
            start = i + 1;
        } else {
            proof {
                let piece = v@.subrange(start as int, i as int);
                assert(piece.push(v@[i as int]) =~= v@.subrange(start as int, i + 1));
                assert(done.push(piece).update(done.len() as int, piece.push(v@[i as int]))
                    =~= done.push(v@.subrange(start as int, i + 1)));
            }
        }
        i = i + 1;
    }
    push_trimmed_piece(&mut out, s, &v, start, v.len());
    proof {
        let piece = v@.subrange(start as int, v.len() as int);
        assert(done.push(piece).drop_last() =~= done);
        assert(v@.take(v.len() as int) =~= v@);
    }
    out
}

/// The first non-blank line of `output`, trimmed.
pub fn first_line(output: String) -> (r: Option<String>)
    ensures
        opt_view(r) == if lines_of(output@).len() > 0 {
            Some(lines_of(output@)[0])
        } else {
            None::<Seq<char>>
        },
{
    let mut lines = parse_lines(output);
    if lines.len() == 0 {
        None
    } else {
        Some(lines.remove(0))
    }
}

} // verus!
