//! Workspace order: names that are both integers compare by value, any other
//! pair compares by code points; the distinct names are kept, sorted.

use vstd::prelude::*;
use crate::text::{char_code, chars_of, contains_string, views};

verus! {

// ---------------------------------------------------------------------------
// Code-point order
// ---------------------------------------------------------------------------

/// Lexicographic order by code point. This is the order of `str`'s `Ord`:
/// UTF-8 encoding preserves code-point order byte by byte.
pub open spec fn lex_lt(a: Seq<char>, b: Seq<char>) -> bool
    decreases a.len(),
{
    if a.len() == 0 {
        b.len() > 0
    } else if b.len() == 0 {
        false
    } else if a[0] != b[0] {
        (a[0] as int) < (b[0] as int)
    } else {
        lex_lt(a.drop_first(), b.drop_first())
    }
}

pub proof fn lemma_lex_irreflexive(a: Seq<char>)
    ensures
        !lex_lt(a, a),
    decreases a.len(),
{
    if a.len() > 0 {
        lemma_lex_irreflexive(a.drop_first());
    }
}

pub proof fn lemma_lex_asymmetric(a: Seq<char>, b: Seq<char>)
    ensures
        !(lex_lt(a, b) && lex_lt(b, a)),
    decreases a.len(),
{
    if a.len() > 0 && b.len() > 0 && a[0] == b[0] {
        lemma_lex_asymmetric(a.drop_first(), b.drop_first());
    }
}

pub proof fn lemma_lex_total(a: Seq<char>, b: Seq<char>)
    ensures
        a == b || lex_lt(a, b) || lex_lt(b, a),
    decreases a.len(),
{
    if a.len() > 0 && b.len() > 0 && a[0] == b[0] {
        lemma_lex_total(a.drop_first(), b.drop_first());
        if a.drop_first() == b.drop_first() {
            assert(a =~= seq![a[0]] + a.drop_first());
            assert(b =~= seq![b[0]] + b.drop_first());
        }
    } else if a.len() == 0 && b.len() == 0 {
        assert(a =~= b);
    } else if a.len() > 0 && b.len() > 0 {
        assert((a[0] as int) != (b[0] as int));
    }
}

pub proof fn lemma_lex_transitive(a: Seq<char>, b: Seq<char>, c: Seq<char>)
    requires
        lex_lt(a, b),
        lex_lt(b, c),
    ensures
        lex_lt(a, c),
    decreases a.len(),
{
    if a.len() > 0 && b.len() > 0 && c.len() > 0 {
        if a[0] == b[0] && b[0] == c[0] {
            lemma_lex_transitive(a.drop_first(), b.drop_first(), c.drop_first());
        }
    }
}

/// Whether `a` comes before `b` by code point.
pub fn lex_less(a: &Vec<char>, b: &Vec<char>) -> (r: bool)
    ensures
        r == lex_lt(a@, b@),
{
    let mut i: usize = 0;
    assert(a@.skip(0) =~= a@);
    assert(b@.skip(0) =~= b@);
    while i < a.len() && i < b.len() && a[i] == b[i]
        invariant
            i <= a.len(),
            i <= b.len(),
            lex_lt(a@, b@) == lex_lt(a@.skip(i as int), b@.skip(i as int)),
        decreases a.len() - i,
    {
        assert(a@.skip(i as int).drop_first() =~= a@.skip(i + 1));
        assert(b@.skip(i as int).drop_first() =~= b@.skip(i + 1));
        i = i + 1;
    }
    if i == a.len() {
        assert(a@.skip(i as int).len() == 0);
        assert(b@.skip(i as int).len() == b.len() - i);
        i < b.len()
    } else if i == b.len() {
        assert(b@.skip(i as int).len() == 0);
        assert(a@.skip(i as int).len() > 0);
        false
    } else {
        let x = a[i];
        let y = b[i];
        assert(a@.skip(i as int)[0] == x);
        assert(b@.skip(i as int)[0] == y);
        char_code(x) < char_code(y)
    }
}

// ---------------------------------------------------------------------------
// Decimal integers
// ---------------------------------------------------------------------------

pub open spec fn is_digit(c: char) -> bool {
    48 <= (c as int) <= 57
}

pub open spec fn all_digits(s: Seq<char>) -> bool {
    forall|i: int| 0 <= i < s.len() ==> is_digit(#[trigger] s[i])
}

/// The number written by the decimal digits `s`.
pub open spec fn digits_value(s: Seq<char>) -> int
    decreases s.len(),
{
    if s.len() == 0 {
        0
    } else {
        digits_value(s.drop_last()) * 10 + ((s.last() as int) - 48)
    }
}

/// What `str::parse` gives for an integer type whose values are `min..=max`:
/// an optional `+` (or `-` where the type has negative values), then one or
/// more decimal digits whose value lies in the type's range.
pub open spec fn parse_decimal(s: Seq<char>, min: int, max: int) -> Option<int> {
    if s.len() == 0 {
        None
    } else {
        let negative = s[0] == '-' && min < 0;
        let signed = s[0] == '+' || negative;
        let digits = if signed {
            s.drop_first()
        } else {
            s
        };
        let v = if negative {
            -digits_value(digits)
        } else {
            digits_value(digits)
        };
        if digits.len() > 0 && all_digits(digits) && min <= v <= max {
            Some(v)
        } else {
            None
        }
    }
}

/// `s.parse::<i64>()`.
pub open spec fn parse_i64_value(s: Seq<char>) -> Option<int> {
    parse_decimal(s, i64::MIN as int, i64::MAX as int)
}

/// `s.parse::<u32>()`.
pub open spec fn parse_u32_value(s: Seq<char>) -> Option<int> {
    parse_decimal(s, 0, u32::MAX as int)
}

pub open spec fn int_view(o: Option<i128>) -> Option<int> {
    match o {
        Some(x) => Some(x as int),
        None => None,
    }
}

proof fn lemma_digits_value_nonneg(s: Seq<char>)
    requires
        all_digits(s),
    ensures
        digits_value(s) >= 0,
    decreases s.len(),
{
    if s.len() > 0 {
        assert(all_digits(s.drop_last())) by {
            assert forall|i: int| 0 <= i < s.drop_last().len() implies is_digit(
                #[trigger] s.drop_last()[i],
            ) by {
                assert(s.drop_last()[i] == s[i]);
            }
        }
        lemma_digits_value_nonneg(s.drop_last());
        assert(is_digit(s[s.len() - 1]));
    }
}

proof fn lemma_digits_value_monotone(s: Seq<char>, i: int)
    requires
        all_digits(s),
        0 <= i <= s.len(),
    ensures
        digits_value(s.take(i)) <= digits_value(s),
    decreases s.len(),
{
    if i < s.len() {
        let p = s.drop_last();
        assert(all_digits(p)) by {
            assert forall|k: int| 0 <= k < p.len() implies is_digit(#[trigger] p[k]) by {
                assert(p[k] == s[k]);
            }
        }
        lemma_digits_value_monotone(p, i);
        assert(p.take(i) =~= s.take(i));
        lemma_digits_value_nonneg(p);
        assert(is_digit(s[s.len() - 1]));
    } else {
        assert(s.take(i) =~= s);
    }
}

/// Parses `v` as a decimal integer of the type whose values are `min..=max`,
/// as `str::parse` does.
pub fn parse_decimal_chars(v: &Vec<char>, min: i128, max: i128) -> (r: Option<i128>)
    requires
        -0x1_0000_0000_0000_0000 <= min <= 0 <= max <= 0x1_0000_0000_0000_0000,
    ensures
        int_view(r) == parse_decimal(v@, min as int, max as int),
{
    let n = v.len();
    if n == 0 {
        return None;
    }
    let negative = v[0] == '-' && min < 0;
    let signed = v[0] == '+' || negative;
    let start: usize = if signed {
        1
    } else {
        0
    };
    let ghost digits = if signed {
        v@.drop_first()
    } else {
        v@
    };
    assert(digits =~= v@.subrange(start as int, n as int));
    if start == n {
        return None;
    }
    let mut i = start;
    while i < n
        invariant
            start <= i <= n == v.len(),
            digits == v@.subrange(start as int, n as int),
            n > 0,
            negative == (v@[0] == '-' && min < 0),
            signed == (v@[0] == '+' || negative),
            digits == if signed {
                v@.drop_first()
            } else {
                v@
            },
            forall|k: int| start <= k < i ==> is_digit(#[trigger] v@[k]),
        decreases n - i,
    {
        let u = char_code(v[i]);
        if !(48 <= u && u <= 57) {
            assert(!is_digit(digits[i - start]));
            assert(!all_digits(digits));
            return None;
        }
        i = i + 1;
    }
    assert(all_digits(digits)) by {
        assert forall|k: int| 0 <= k < digits.len() implies is_digit(#[trigger] digits[k]) by {
            assert(digits[k] == v@[start + k]);
        }
    }
    let mut acc: u128 = 0;
    i = start;
    while i < n
        invariant
            start <= i <= n == v.len(),
            digits == v@.subrange(start as int, n as int),
            n > 0,
            negative == (v@[0] == '-' && min < 0),
            signed == (v@[0] == '+' || negative),
            digits == if signed {
                v@.drop_first()
            } else {
                v@
            },
            -0x1_0000_0000_0000_0000 <= min <= 0 <= max <= 0x1_0000_0000_0000_0000,
            all_digits(digits),
            acc as int == digits_value(digits.take(i - start)),
            acc <= 0x2_0000_0000_0000_0000,
        decreases n - i,
    {
        assert(digits.take(i + 1 - start).drop_last() =~= digits.take(i - start));
        assert(digits.take(i + 1 - start).last() == v@[i as int]);
        assert(is_digit(digits[i - start]));
        let u = char_code(v[i]);
        let d = (u - 48) as u128;
        assert(digits_value(digits.take(i + 1 - start)) == acc * 10 + d);
        acc = acc * 10 + d;
        i = i + 1;
        if acc > 0x2_0000_0000_0000_0000 {
            proof {
                lemma_digits_value_monotone(digits, i - start);
                assert(digits_value(digits) > 0x2_0000_0000_0000_0000);
                assert(digits.len() > 0);
                if negative {
                    assert(-digits_value(digits) < min);
                } else {
                    assert(digits_value(digits) > max);
                }
            }
            return None;
        }
    }
    assert(digits.take(n - start) =~= digits);
    let value: i128 = if negative {
        -(acc as i128)
    } else {
        acc as i128
    };
    if min <= value && value <= max {
        Some(value)
    } else {
        None
    }
}

/// `s.parse::<i64>()` on the characters `v`.
pub fn parse_i64_chars(v: &Vec<char>) -> (r: Option<i128>)
    ensures
        int_view(r) == parse_i64_value(v@),
{
    parse_decimal_chars(v, -0x8000_0000_0000_0000, 0x7fff_ffff_ffff_ffff)
}

/// `s.parse::<u32>()` on the characters `v`.
pub fn parse_u32_chars(v: &Vec<char>) -> (r: Option<u32>)
    ensures
        match r {
            Some(x) => parse_u32_value(v@) == Some(x as int),
            None => parse_u32_value(v@) is None,
        },
{
    match parse_decimal_chars(v, 0, 0xffff_ffff) {
        Some(x) => Some(x as u32),
        None => None,
    }
}

// ---------------------------------------------------------------------------
// Workspace order
// ---------------------------------------------------------------------------

/// `a` comes before `b`: by value when both are integers (ties broken by code
/// point), by code point otherwise.
pub open spec fn ws_before(a: Seq<char>, b: Seq<char>) -> bool {
    let pa = parse_i64_value(a);
    let pb = parse_i64_value(b);
    if pa is Some && pb is Some {
        pa->0 < pb->0 || (pa->0 == pb->0 && lex_lt(a, b))
    } else {
        lex_lt(a, b)
    }
}

pub proof fn lemma_ws_asymmetric(a: Seq<char>, b: Seq<char>)
    ensures
        !(ws_before(a, b) && ws_before(b, a)),
{
    lemma_lex_asymmetric(a, b);
}

pub proof fn lemma_ws_irreflexive(a: Seq<char>)
    ensures
        !ws_before(a, a),
{
    lemma_lex_irreflexive(a);
}

pub proof fn lemma_ws_total(a: Seq<char>, b: Seq<char>)
    ensures
        a == b || ws_before(a, b) || ws_before(b, a),
{
    lemma_lex_total(a, b);
}

fn ws_before_chars(a: &Vec<char>, pa: Option<i128>, b: &Vec<char>, pb: Option<i128>) -> (r: bool)
    requires
        int_view(pa) == parse_i64_value(a@),
        int_view(pb) == parse_i64_value(b@),
    ensures
        r == ws_before(a@, b@),
{
    match (pa, pb) {
        (Some(x), Some(y)) => x < y || (x == y && lex_less(a, b)),
        _ => lex_less(a, b),
    }
}

/// No element occurs twice.
pub open spec fn no_dup(s: Seq<Seq<char>>) -> bool {
    forall|i: int, j: int| 0 <= i < s.len() && 0 <= j < s.len() && i != j ==> s[i] != s[j]
}

/// `a` and `b` hold the same elements (with any multiplicity).
pub open spec fn same_elements(a: Seq<Seq<char>>, b: Seq<Seq<char>>) -> bool {
    forall|x: Seq<char>| a.contains(x) <==> b.contains(x)
}

/// Each element comes before the next.
pub open spec fn ws_sorted(s: Seq<Seq<char>>) -> bool {
    forall|i: int| #![trigger s[i]] 0 <= i < s.len() - 1 ==> ws_before(s[i], s[i + 1])
}

/// Each element comes before every later one.
pub open spec fn ws_sorted_globally(s: Seq<Seq<char>>) -> bool {
    forall|i: int, j: int| 0 <= i < j < s.len() ==> ws_before(#[trigger] s[i], #[trigger] s[j])
}

/// `out` holds the distinct elements of `input`, each before the next.
pub open spec fn workspace_order_of(out: Seq<Seq<char>>, input: Seq<Seq<char>>) -> bool {
    &&& no_dup(out)
    &&& same_elements(out, input)
    &&& ws_sorted(out)
}

/// The workspace order is transitive among the elements of `s`.
pub open spec fn ws_transitive_on(s: Seq<Seq<char>>) -> bool {
    forall|a: Seq<char>, b: Seq<char>, c: Seq<char>|
        #![trigger ws_before(a, b), ws_before(b, c)]
        s.contains(a) && s.contains(b) && s.contains(c) && ws_before(a, b) && ws_before(b, c)
            ==> ws_before(a, c)
}

/// Inserts `x` at `j`: the views follow.
proof fn lemma_views_insert(v: Seq<String>, j: int, x: String)
    requires
        0 <= j <= v.len(),
    ensures
        views(v.insert(j, x)) == views(v).insert(j, x@),
{
    assert(views(v.insert(j, x)) =~= views(v).insert(j, x@));
}

proof fn lemma_push_contains(s: Seq<Seq<char>>, x: Seq<char>, y: Seq<char>)
    ensures
        s.push(x).contains(y) <==> (s.contains(y) || y == x),
{
    if s.push(x).contains(y) && y != x {
        let k = choose|k: int| 0 <= k < s.push(x).len() && s.push(x)[k] == y;
        assert(s[k] == y);
    }
    if s.contains(y) {
        let k = choose|k: int| 0 <= k < s.len() && s[k] == y;
        assert(s.push(x)[k] == y);
    }
    if y == x {
        assert(s.push(x)[s.len() as int] == x);
    }
}

/// Inserting `x` between its neighbours in order keeps the order.
proof fn lemma_insert_in_order(old: Seq<Seq<char>>, j: int, x: Seq<char>)
    requires
        ws_sorted(old),
        no_dup(old),
        !old.contains(x),
        0 <= j <= old.len(),
        j > 0 ==> ws_before(old[j - 1], x),
        j < old.len() ==> ws_before(x, old[j]),
    ensures
        ws_sorted(old.insert(j, x)),
        no_dup(old.insert(j, x)),
        forall|y: Seq<char>| old.insert(j, x).contains(y) <==> (old.contains(y) || y == x),
{
    let nw = old.insert(j, x);
    assert forall|k: int| 0 <= k < nw.len() implies nw[k] == if k < j {
        old[k]
    } else if k == j {
        x
    } else {
        old[k - 1]
    } by {}
    assert forall|k: int| #![trigger nw[k]] 0 <= k < nw.len() - 1 implies ws_before(
        nw[k],
        nw[k + 1],
    ) by {
        if k + 1 < j {
            assert(ws_before(old[k], old[k + 1]));
        } else if k + 1 == j {
        } else if k == j {
        } else {
            assert(ws_before(old[k - 1], old[k]));
        }
    }
    assert forall|a: int, b: int| 0 <= a < nw.len() && 0 <= b < nw.len() && a != b implies nw[a]
        != nw[b] by {
        if a == j {
            assert(old.contains(nw[b]));
        } else if b == j {
            assert(old.contains(nw[a]));
        }
    }
    assert forall|y: Seq<char>| nw.contains(y) <==> (old.contains(y) || y == x) by {
        if nw.contains(y) {
            let k = choose|k: int| 0 <= k < nw.len() && nw[k] == y;
            if k < j {
                assert(old.contains(old[k]));
            } else if k > j {
                assert(old.contains(old[k - 1]));
            }
        }
        if y == x {
            assert(nw[j] == x);
        } else if old.contains(y) {
            let k = choose|k: int| 0 <= k < old.len() && old[k] == y;
            if k < j {
                assert(nw[k] == y);
            } else {
                assert(nw[k + 1] == y);
            }
        }
    }
}

/// The distinct workspace names of `input`, in workspace order.
pub fn unique_sorted_workspaces(input: Vec<String>) -> (r: Vec<String>)
    ensures
        workspace_order_of(views(r@), views(input@)),
{
    let mut out: Vec<String> = Vec::new();
    let mut keys: Vec<Vec<char>> = Vec::new();
    let mut nums: Vec<Option<i128>> = Vec::new();
    let mut i: usize = 0;
    while i < input.len()
        invariant
            i <= input.len(),
            out.len() == keys.len(),
            out.len() == nums.len(),
            forall|k: int| 0 <= k < out.len() ==> #[trigger] keys@[k]@ == out@[k]@,
            forall|k: int|
                0 <= k < out.len() ==> #[trigger] int_view(nums@[k]) == parse_i64_value(
                    out@[k]@,
                ),
            workspace_order_of(views(out@), views(input@.take(i as int))),
        decreases input.len() - i,
    {
        let ghost old_out = views(out@);
        let ghost x = input@[i as int]@;
        assert(views(input@.take(i + 1)) =~= views(input@.take(i as int)).push(x));
        if !contains_string(&out, &input[i]) {
            let sv = chars_of(input[i].as_str());
            let sn = parse_i64_chars(&sv);
            let mut j = out.len();
            while j > 0 && ws_before_chars(&sv, sn, &keys[j - 1], nums[j - 1])
                invariant
                    j <= out.len(),
                    out.len() == keys.len(),
                    out.len() == nums.len(),
                    sv@ == x,
                    int_view(sn) == parse_i64_value(x),
                    forall|k: int| 0 <= k < out.len() ==> #[trigger] keys@[k]@ == out@[k]@,
                    forall|k: int|
                        0 <= k < out.len() ==> #[trigger] int_view(nums@[k])
                            == parse_i64_value(out@[k]@),
                    j < out.len() ==> ws_before(x, out@[j as int]@),
                decreases j,
            {
                j = j - 1;
            }
            proof {
                if j > 0 {
                    assert(old_out[j - 1] != x);
                    lemma_ws_total(x, old_out[j - 1]);
                }
                lemma_views_insert(out@, j as int, input@[i as int]);
            }
            let s = input[i].clone();
            out.insert(j, s);
            keys.insert(j, sv);
            nums.insert(j, sn);
            proof {
                lemma_insert_in_order(old_out, j as int, x);
                let nw = views(out@);
                assert(nw == old_out.insert(j as int, x));
                let pre = views(input@.take(i as int));
                assert forall|y: Seq<char>| nw.contains(y) <==> pre.push(x).contains(y) by {
                    lemma_push_contains(pre, x, y);
                }
            }
        } else {
            proof {
                let pre = views(input@.take(i as int));
                assert forall|y: Seq<char>| old_out.contains(y) <==> pre.push(x).contains(y) by {
                    lemma_push_contains(pre, x, y);
                }
            }
        }
        i = i + 1;
    }
    assert(input@.take(input.len() as int) =~= input@);
    out
}

// ---------------------------------------------------------------------------
// Laws
// ---------------------------------------------------------------------------

proof fn lemma_sorted_globally(s: Seq<Seq<char>>)
    requires
        ws_sorted(s),
        ws_transitive_on(s),
    ensures
        ws_sorted_globally(s),
{
    assert forall|i: int, j: int| 0 <= i < j < s.len() implies ws_before(
        #[trigger] s[i],
        #[trigger] s[j],
    ) by {
        lemma_sorted_from(s, i, j);
    }
}

proof fn lemma_sorted_from(s: Seq<Seq<char>>, i: int, j: int)
    requires
        ws_sorted(s),
        ws_transitive_on(s),
        0 <= i < j < s.len(),
    ensures
        ws_before(s[i], s[j]),
    decreases j - i,
{
    assert(ws_before(s[i], s[i + 1]));
    if i + 1 < j {
        lemma_sorted_from(s, i + 1, j);
        assert(s.contains(s[i]) && s.contains(s[i + 1]) && s.contains(s[j]));
    }
}

proof fn lemma_sorted_unique(a: Seq<Seq<char>>, b: Seq<Seq<char>>)
    requires
        no_dup(a),
        no_dup(b),
        same_elements(a, b),
        ws_sorted_globally(a),
        ws_sorted_globally(b),
    ensures
        a == b,
    decreases a.len(),
{
    if a.len() == 0 {
        if b.len() > 0 {
            assert(b.contains(b[0]));
        }
        assert(a =~= b);
    } else {
        assert(a.contains(a[0]));
        assert(b.len() > 0);
        let p = choose|p: int| 0 <= p < b.len() && b[p] == a[0];
        assert(b.contains(b[0]));
        let q = choose|q: int| 0 <= q < a.len() && a[q] == b[0];
        if p > 0 {
            assert(ws_before(b[0], b[p]));
            if q > 0 {
                assert(ws_before(a[0], a[q]));
                lemma_ws_asymmetric(a[0], b[0]);
            } else {
                lemma_ws_irreflexive(a[0]);
            }
        }
        let a1 = a.drop_first();
        let b1 = b.drop_first();
        assert forall|x: Seq<char>| a1.contains(x) <==> b1.contains(x) by {
            if a1.contains(x) {
                let k = choose|k: int| 0 <= k < a1.len() && a1[k] == x;
                assert(a.contains(x));
                assert(x != a[0]);
                let m = choose|m: int| 0 <= m < b.len() && b[m] == x;
                assert(m != 0);
                assert(b1[m - 1] == x);
            }
            if b1.contains(x) {
                let k = choose|k: int| 0 <= k < b1.len() && b1[k] == x;
                assert(b.contains(x));
                assert(x != b[0]);
                let m = choose|m: int| 0 <= m < a.len() && a[m] == x;
                assert(m != 0);
                assert(a1[m - 1] == x);
            }
        }
        assert(ws_sorted_globally(a1)) by {
            assert forall|i: int, j: int| 0 <= i < j < a1.len() implies ws_before(
                #[trigger] a1[i],
                #[trigger] a1[j],
            ) by {
                assert(ws_before(a[i + 1], a[j + 1]));
            }
        }
        assert(ws_sorted_globally(b1)) by {
            assert forall|i: int, j: int| 0 <= i < j < b1.len() implies ws_before(
                #[trigger] b1[i],
                #[trigger] b1[j],
            ) by {
                assert(ws_before(b[i + 1], b[j + 1]));
            }
        }
        lemma_sorted_unique(a1, b1);
        assert(a =~= seq![a[0]] + a1);
        assert(b =~= seq![b[0]] + b1);
    }
}

/// Law: where the workspace order is transitive among the names, a result of
/// `unique_sorted_workspaces` has every name before every later one, not
/// only before the next.
pub proof fn law_workspace_order_global(out: Seq<Seq<char>>, input: Seq<Seq<char>>)
    requires
        workspace_order_of(out, input),
        ws_transitive_on(input),
    ensures
        ws_sorted_globally(out),
{
    assert(ws_transitive_on(out));
    lemma_sorted_globally(out);
}

/// Law: where the workspace order is transitive among the names, there is
/// only one arrangement in workspace order. So sorting is canonical:
/// `unique_sorted_workspaces` gives the same result for any two inputs with
/// the same names, and sorting its result again changes nothing.
pub proof fn law_workspace_order_canonical(
    out1: Seq<Seq<char>>,
    in1: Seq<Seq<char>>,
    out2: Seq<Seq<char>>,
    in2: Seq<Seq<char>>,
)
    requires
        workspace_order_of(out1, in1),
        workspace_order_of(out2, in2),
        same_elements(in1, in2),
        ws_transitive_on(in1),
    ensures
        out1 == out2,
{
    assert(ws_transitive_on(out1));
    assert(ws_transitive_on(out2));
    lemma_sorted_globally(out1);
    lemma_sorted_globally(out2);
    lemma_sorted_unique(out1, out2);
}

/// Law: the order is transitive among names that are all integers.
pub proof fn law_numeric_names_transitive(s: Seq<Seq<char>>)
    requires
        forall|x: Seq<char>| s.contains(x) ==> parse_i64_value(x) is Some,
    ensures
        ws_transitive_on(s),
{
    assert forall|a: Seq<char>, b: Seq<char>, c: Seq<char>|
        s.contains(a) && s.contains(b) && s.contains(c) && ws_before(a, b) && ws_before(
            b,
            c,
        ) implies ws_before(a, c) by {
        if lex_lt(a, b) && lex_lt(b, c) {
            lemma_lex_transitive(a, b, c);
        }
    }
}

/// Law: the order is transitive among names of which none is an integer.
pub proof fn law_plain_names_transitive(s: Seq<Seq<char>>)
    requires
        forall|x: Seq<char>| s.contains(x) ==> parse_i64_value(x) is None,
    ensures
        ws_transitive_on(s),
{
    assert forall|a: Seq<char>, b: Seq<char>, c: Seq<char>|
        s.contains(a) && s.contains(b) && s.contains(c) && ws_before(a, b) && ws_before(
            b,
            c,
        ) implies ws_before(a, c) by {
        lemma_lex_transitive(a, b, c);
    }
}

/// Law: names that are all integers come out in increasing numeric order
/// (names of equal value, such as `01` and `1`, by code point).
pub proof fn law_numeric_names_sorted_by_value(out: Seq<Seq<char>>, input: Seq<Seq<char>>)
    requires
        workspace_order_of(out, input),
        forall|x: Seq<char>| input.contains(x) ==> parse_i64_value(x) is Some,
    ensures
        forall|i: int, j: int|
            0 <= i < j < out.len() ==> parse_i64_value(#[trigger] out[i])->0 <= parse_i64_value(
                #[trigger] out[j],
            )->0,
{
    law_numeric_names_transitive(input);
    assert(ws_transitive_on(out));
    lemma_sorted_globally(out);
    assert forall|i: int, j: int| 0 <= i < j < out.len() implies parse_i64_value(
        #[trigger] out[i],
    )->0 <= parse_i64_value(#[trigger] out[j])->0 by {
        assert(ws_before(out[i], out[j]));
        assert(out.contains(out[i]) && out.contains(out[j]));
        assert(input.contains(out[i]) && input.contains(out[j]));
    }
}

/// Law: names of which none is an integer come out in code-point order.
pub proof fn law_plain_names_sorted(out: Seq<Seq<char>>, input: Seq<Seq<char>>)
    requires
        workspace_order_of(out, input),
        forall|x: Seq<char>| input.contains(x) ==> parse_i64_value(x) is None,
    ensures
        forall|i: int, j: int| 0 <= i < j < out.len() ==> lex_lt(#[trigger] out[i], #[trigger] out[j]),
{
    law_plain_names_transitive(input);
    assert(ws_transitive_on(out));
    lemma_sorted_globally(out);
    assert forall|i: int, j: int| 0 <= i < j < out.len() implies lex_lt(
        #[trigger] out[i],
        #[trigger] out[j],
    ) by {
        assert(ws_before(out[i], out[j]));
        assert(out.contains(out[i]));
        assert(input.contains(out[i]));
    }
}

} // verus!
