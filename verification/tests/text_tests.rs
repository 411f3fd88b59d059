use mybar::text::{first_line, is_space_char, non_empty_trimmed, parse_lines, trim_str};

fn s(x: &str) -> String {
    x.to_string()
}

#[test]
fn whitespace_matches_std_for_every_char() {
    for u in 0u32..0x11_0000 {
        if let Some(c) = char::from_u32(u) {
            assert_eq!(is_space_char(c), c.is_whitespace(), "U+{:04X}", u);
        }
    }
}

#[test]
fn trim_matches_std() {
    let samples = [
        "",
        "   ",
        "abc",
        "  abc  ",
        "\t\n a b \r\n",
        "\u{3000}x\u{2003}",
        "\u{85}ws\u{a0}",
        "  ünï cödé  ",
        "a\u{200b}",
    ];
    for x in samples {
        assert_eq!(trim_str(x), x.trim(), "{:?}", x);
    }
}

#[test]
fn non_empty_trimmed_cases() {
    assert_eq!(non_empty_trimmed("  main \n"), Some(s("main")));
    assert_eq!(non_empty_trimmed(" \t\n"), None);
    assert_eq!(non_empty_trimmed(""), None);
}

fn reference_lines(x: &str) -> Vec<String> {
    x.lines().map(str::trim).filter(|l| !l.is_empty()).map(ToOwned::to_owned).collect()
}

#[test]
fn parse_lines_matches_lines_trim_filter() {
    let samples = [
        "",
        "\n",
        "1\n2\n3",
        "1\n2\n3\n",
        "  a  \r\n\r\n b\n\n\n c ",
        "single",
        "\n\nx\n",
        "tab\tsep\nline two\r",
    ];
    for x in samples {
        assert_eq!(parse_lines(s(x)), reference_lines(x), "{:?}", x);
    }
}

#[test]
fn first_line_cases() {
    assert_eq!(first_line(s("\n  3 \n4\n")), Some(s("3")));
    assert_eq!(first_line(s("  \n \n")), None);
}
