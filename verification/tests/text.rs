use inderes::text::{
    chars_of, find, join, lines, pad_left, pad_right, parse_i64, parse_u64, replace, same,
    show_i64, show_u64, slice, split, split_once, starts_with, string_of, strip_prefix, trim,
    trim_end, trim_start, words, Class,
};

const SAMPLES: [&str; 16] = [
    "",
    " ",
    "a",
    "a b",
    "  a\tb \u{a0}c ",
    "line\nline\r\nlast",
    "\n\n",
    "\r\n\r",
    "x\ry\n",
    "aaaa",
    "a.b..c",
    "////",
    "ä…😀 z",
    "\u{2028}q\u{3000}",
    "=a=b=",
    "-12",
];

#[test]
fn white_space_is_what_unicode_says() {
    for c in '\0'..=char::MAX {
        assert_eq!(Class::White.holds(c), c.is_whitespace(), "{c:?}");
    }
}

#[test]
fn cutting_is_done_as_std_does_it() {
    for s in SAMPLES {
        assert_eq!(string_of(&chars_of(s)), s);
        assert_eq!(trim(s), s.trim());
        assert_eq!(trim_end(s, Class::White), s.trim_end());
        assert_eq!(trim_end(s, Class::Slash), s.trim_end_matches('/'));
        assert_eq!(trim_start(s, Class::LineEnd), s.trim_start_matches(['\n', '\r']));
        assert_eq!(lines(s), s.lines().collect::<Vec<_>>());
        assert_eq!(words(s), s.split_whitespace().collect::<Vec<_>>());
        assert_eq!(split(s, '.'), s.split('.').collect::<Vec<_>>());
        assert_eq!(split(s, '/'), s.split('/').collect::<Vec<_>>());
        assert_eq!(
            split_once(s, '='),
            s.split_once('=').map(|(a, b)| (a.to_string(), b.to_string()))
        );
        for p in ["a", "aa", "\n", "ä…", "zz"] {
            assert_eq!(replace(s, p, "<->"), s.replace(p, "<->"));
            assert_eq!(starts_with(s, p), s.starts_with(p));
            assert_eq!(strip_prefix(s, p).as_deref(), s.strip_prefix(p));
            let at = find(&chars_of(s), &chars_of(p));
            assert_eq!(at, s.find(p).map(|i| s[..i].chars().count()));
        }
        for t in SAMPLES {
            assert_eq!(same(s, t), s == t);
        }
        assert_eq!(pad_right(s, 4), format!("{s:<4}"));
        assert_eq!(pad_left(s, 4), format!("{s:>4}"));
    }
    assert_eq!(join(&vec!["a".into(), "".into(), "b".into()], ", "), "a, , b");
    assert_eq!(join(&vec![], ", "), "");
    assert_eq!(slice(&chars_of("häh"), 1, 2), "ä");
}

#[test]
fn numbers_are_written_and_read_as_std_does_it() {
    for n in [0, 7, 10, -1, -10, 1234567890, i64::MAX, i64::MIN] {
        assert_eq!(show_i64(n), n.to_string());
        assert_eq!(parse_i64(&show_i64(n)), Some(n));
    }
    for n in [0, 9, 10, u64::MAX] {
        assert_eq!(show_u64(n), n.to_string());
        assert_eq!(parse_u64(&show_u64(n)), Some(n));
    }
    for s in [
        "",
        "+",
        "-",
        "+5",
        "-5",
        "--5",
        "+-5",
        "007",
        "-0",
        " 5",
        "5 ",
        "5x",
        "٣",
        "9223372036854775807",
        "9223372036854775808",
        "-9223372036854775808",
        "-9223372036854775809",
        "18446744073709551615",
        "18446744073709551616",
        "99999999999999999999999999",
        "-99999999999999999999999999",
        "00000000000000000000000000001",
    ] {
        assert_eq!(parse_i64(s), s.parse::<i64>().ok(), "{s:?}");
        assert_eq!(parse_u64(s), s.parse::<u64>().ok(), "{s:?}");
    }
}
