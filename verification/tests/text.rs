use planner::text::{
    chars_of, is_whitespace, parse_isize, remove_char, split, starts_with, string_of,
    strip_prefix, trim,
};

fn text(s: &str) -> Vec<char> {
    s.chars().collect()
}

fn shown(s: &[char]) -> String {
    s.iter().collect()
}

#[test]
fn whitespace_is_the_unicode_property() {
    let mut code: u32 = 0;
    while code <= 0x10FFFF {
        if let Some(c) = char::from_u32(code) {
            assert_eq!(is_whitespace(c), c.is_whitespace(), "U+{:04X}", code);
        }
        code += 1;
    }
}

#[test]
fn chars_and_back() {
    for s in ["", "a", "feature: F", "héllo wörld", "日本語\n\tx", "\u{10FFFF}\u{0}"] {
        let v = chars_of(s);
        assert_eq!(v, text(s));
        assert_eq!(string_of(&v), s);
    }
}

#[test]
fn trim_agrees_with_std() {
    for s in [
        "",
        " ",
        "   \t\r\n",
        "a",
        " a",
        "a ",
        "  a b  ",
        "\u{3000}x\u{2003}",
        "\u{a0}\u{85}mid dle\u{1680}",
        "x\ry",
        "\u{200b}x\u{200b}",
        "\u{feff}x",
    ] {
        let v = text(s);
        assert_eq!(shown(trim(&v)), s.trim(), "{:?}", s);
    }
}

#[test]
fn starts_with_agrees_with_std() {
    for (s, p) in [
        ("feature: x", "feature:"),
        ("feature", "feature:"),
        ("", "feature:"),
        ("", ""),
        ("abc", ""),
        ("abc", "abc"),
        ("abc", "abcd"),
        ("xfeature:", "feature:"),
        ("Feature:", "feature:"),
        ("//c", "//"),
        ("/", "//"),
        ("é", "e"),
    ] {
        assert_eq!(starts_with(&text(s), p), s.starts_with(p), "{:?} {:?}", s, p);
    }
}

#[test]
fn strip_prefix_takes_the_front_only() {
    assert_eq!(shown(strip_prefix(&text("task: a"), "task:")), " a");
    assert_eq!(shown(strip_prefix(&text("task: a task: b"), "task:")), " a task: b");
    assert_eq!(shown(strip_prefix(&text("a task: b"), "task:")), "a task: b");
    assert_eq!(shown(strip_prefix(&text("task:"), "task:")), "");
    assert_eq!(shown(strip_prefix(&text("tas"), "task:")), "tas");
    assert_eq!(shown(strip_prefix(&text(""), "task:")), "");
}

#[test]
fn remove_char_removes_each_occurrence() {
    assert_eq!(shown(&remove_char(&text("- a-b --"), '-')), " ab ");
    assert_eq!(shown(&remove_char(&text("---"), '-')), "");
    assert_eq!(shown(&remove_char(&text("abc"), '-')), "abc");
    assert_eq!(shown(&remove_char(&text(""), '-')), "");
}

#[test]
fn split_agrees_with_std() {
    for (s, sep) in [
        ("", " "),
        ("a", " "),
        ("a b", " "),
        ("a  b", " "),
        (" a b ", " "),
        ("   ", " "),
        ("a: b", ": "),
        ("a: b: c", ": "),
        ("a:b", ": "),
        (": ", ": "),
        (": : ", ": "),
        ("a:  b", ": "),
        ("aaa", "aa"),
        ("aaaa", "aa"),
        ("abab", "ab"),
        ("x", "longer than the text"),
        ("one\ntwo\n\nthree\n", "\n"),
        ("é: ü", ": "),
    ] {
        let v = text(s);
        let got: Vec<String> = split(&v, sep).iter().map(|p| shown(p)).collect();
        let want: Vec<String> = s.split(sep).map(|p| p.to_string()).collect();
        assert_eq!(got, want, "{:?} {:?}", s, sep);
    }
}

#[test]
fn split_at_nothing_keeps_the_text_whole() {
    let v = text("abc");
    let parts = split(&v, "");
    assert_eq!(parts.len(), 1);
    assert_eq!(shown(parts[0]), "abc");
}

#[test]
fn parse_isize_agrees_with_std() {
    let max = isize::MAX.to_string();
    let min = isize::MIN.to_string();
    let above = format!("{}0", max);
    let below = format!("{}0", min);
    let next = (isize::MAX as i128 + 1).to_string();
    let prev = (isize::MIN as i128 - 1).to_string();
    let plus_max = format!("+{}", max);
    for s in [
        "",
        "+",
        "-",
        "0",
        "-0",
        "+0",
        "3",
        "+5",
        "-17",
        "007",
        "00000000000000000000000000000000000000012",
        "-00000000000000000000000000000000000000012",
        "12a",
        "a12",
        "1 2",
        " 12",
        "12 ",
        "1_000",
        "--1",
        "+-1",
        "1.5",
        "0x10",
        "１２",
        "٣",
        max.as_str(),
        min.as_str(),
        above.as_str(),
        below.as_str(),
        next.as_str(),
        prev.as_str(),
        plus_max.as_str(),
        "99999999999999999999999999999999999999999999999999",
        "-99999999999999999999999999999999999999999999999999",
        "99999999999999999999999999999999999999999999999999x",
    ] {
        assert_eq!(parse_isize(&text(s)), s.parse::<isize>().ok(), "{:?}", s);
    }
}

#[test]
fn parse_isize_reads_exact_values() {
    assert_eq!(parse_isize(&text("3")), Some(3));
    assert_eq!(parse_isize(&text("-42")), Some(-42));
    assert_eq!(parse_isize(&text("+1234567")), Some(1234567));
    assert_eq!(parse_isize(&text("x")), None);
}
