use mybar::order::{lex_less, parse_i64_chars, parse_u32_chars, unique_sorted_workspaces};
use mybar::unique::unique_preserve_order;

fn strings(xs: &[&str]) -> Vec<String> {
    xs.iter().map(|x| x.to_string()).collect()
}

fn chars(x: &str) -> Vec<char> {
    x.chars().collect()
}

#[test]
fn parse_i64_matches_std() {
    let samples = [
        "", "0", "7", "-7", "+7", "-", "+", "007", "-0", "12a", " 1", "1 ", "9223372036854775807",
        "9223372036854775808", "-9223372036854775808", "-9223372036854775809",
        "99999999999999999999999999999999", "1_000", "٣", "+-1", "--1",
    ];
    for x in samples {
        let expected = x.parse::<i64>().ok().map(|v| v as i128);
        assert_eq!(parse_i64_chars(&chars(x)), expected, "{:?}", x);
    }
}

#[test]
fn parse_u32_matches_std() {
    let samples = ["", "0", "1", "+1", "-1", "-0", "4294967295", "4294967296", "01", "x", "+"];
    for x in samples {
        assert_eq!(parse_u32_chars(&chars(x)), x.parse::<u32>().ok(), "{:?}", x);
    }
}

#[test]
fn lex_order_matches_str_order() {
    let samples = ["", "a", "b", "ab", "aa", "A", "é", "z", "10", "9", "1a", "日本"];
    for a in samples {
        for b in samples {
            assert_eq!(lex_less(&chars(a), &chars(b)), a < b, "{:?} {:?}", a, b);
        }
    }
}

#[test]
fn numeric_workspaces_sort_by_value() {
    let out = unique_sorted_workspaces(strings(&["10", "2", "1", "2", "9"]));
    assert_eq!(out, strings(&["1", "2", "9", "10"]));
}

#[test]
fn named_workspaces_sort_by_code_point() {
    let out = unique_sorted_workspaces(strings(&["web", "B", "a", "web", "A"]));
    assert_eq!(out, strings(&["A", "B", "a", "web"]));
}

#[test]
fn mixed_workspaces() {
    let out = unique_sorted_workspaces(strings(&["b", "10", "a", "2", "1"]));
    assert_eq!(out, strings(&["1", "2", "10", "a", "b"]));
}

#[test]
fn equal_values_keep_code_point_order() {
    let out = unique_sorted_workspaces(strings(&["1", "01", "+1", "0"]));
    assert_eq!(out, strings(&["0", "+1", "01", "1"]));
}

#[test]
fn empty_and_single() {
    assert!(unique_sorted_workspaces(Vec::new()).is_empty());
    assert_eq!(unique_sorted_workspaces(strings(&["x", "x"])), strings(&["x"]));
}

#[test]
fn sorting_twice_changes_nothing() {
    let once = unique_sorted_workspaces(strings(&["3", "1", "2", "1"]));
    let twice = unique_sorted_workspaces(once.clone());
    assert_eq!(once, twice);
}

#[test]
fn first_occurrences_kept() {
    let out = unique_preserve_order(strings(&["Safari", "Mail", "Safari", "Notes", "Mail"]));
    assert_eq!(out, strings(&["Safari", "Mail", "Notes"]));
    let again = unique_preserve_order(out.clone());
    assert_eq!(again, out);
    assert!(unique_preserve_order(Vec::new()).is_empty());
}
