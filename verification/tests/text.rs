use vello::text;

const SAMPLES: [&str; 18] = [
    "",
    " ",
    "a",
    "  a b  ",
    "a\nb\r\nc",
    "\n\n",
    "a\r\r\nb\r",
    "\"quoted\"",
    "\"\"\"",
    "x=y=z",
    "é ü\u{2003}ß",
    "tab\tand\u{a0}nbsp",
    "\u{85}next\u{3000}",
    "one,two,,three,",
    "KEY=\"v\"",
    "aaa",
    "\u{1680}\u{2028}w\u{205f}",
    "…",
];

#[test]
fn trimming_is_that_of_the_standard_library() {
    for s in SAMPLES {
        assert_eq!(text::trim(s), s.trim(), "{s:?}");
        assert_eq!(text::trim_start(s), s.trim_start(), "{s:?}");
        assert_eq!(text::is_blank(s), s.trim().is_empty(), "{s:?}");
        assert_eq!(text::unquoted(s), s.trim_matches('"'), "{s:?}");
    }
}

#[test]
fn white_space_is_that_of_the_standard_library() {
    for n in 0..0x11_0000u32 {
        if let Some(c) = char::from_u32(n) {
            assert_eq!(text::is_white(c), c.is_whitespace(), "{n:x}");
        }
    }
}

#[test]
fn splitting_is_that_of_the_standard_library() {
    for s in SAMPLES {
        let lines: Vec<&str> = s.lines().collect();
        assert_eq!(text::lines(s), lines, "{s:?}");
        assert_eq!(text::first_line(s), s.lines().next().unwrap_or(""), "{s:?}");
        let words: Vec<&str> = s.split_whitespace().collect();
        assert_eq!(text::words(s), words, "{s:?}");
        for c in [',', '=', 'a', '\n'] {
            let parts: Vec<&str> = s.split(c).collect();
            assert_eq!(text::split(s, c), parts, "{s:?}");
            let once = s.split_once(c).map(|(a, b)| (a.to_string(), b.to_string()));
            assert_eq!(text::split_once(s, c), once, "{s:?}");
            assert_eq!(text::before(s, c), s.split(c).next().unwrap(), "{s:?}");
            assert_eq!(text::replaced(s, c, "<>"), s.replace(c, "<>"), "{s:?}");
        }
    }
}

#[test]
fn searching_is_that_of_the_standard_library() {
    for s in SAMPLES {
        for p in SAMPLES {
            assert_eq!(text::same(s, p), s == p);
            assert_eq!(text::starts_with(s, p), s.starts_with(p), "{s:?} {p:?}");
            assert_eq!(text::ends_with(s, p), s.ends_with(p), "{s:?} {p:?}");
            assert_eq!(text::contains(s, p), s.contains(p), "{s:?} {p:?}");
            let rest = s.strip_prefix(p).map(|r| r.to_string());
            assert_eq!(text::strip_prefix(s, p), rest, "{s:?} {p:?}");
            assert_eq!(text::precedes(s, p), s < p, "{s:?} {p:?}");
        }
        let list: Vec<String> = SAMPLES.iter().map(|x| x.to_string()).collect();
        assert!(text::has(&list, s));
    }
    assert!(!text::has(&vec!["a".to_string()], "A"));
}

#[test]
fn putting_together() {
    let list: Vec<String> = ["a", "", "b"].iter().map(|s| s.to_string()).collect();
    assert_eq!(text::join(&list, ", "), "a, , b");
    assert_eq!(text::join(&vec![], ", "), "");
    assert_eq!(text::unlines(&list), "a\n\nb\n");
    assert_eq!(text::cat2("a", "b"), "ab");
    assert_eq!(text::cat7("a", "b", "c", "d", "e", "f", "g"), "abcdefg");
    assert_eq!(text::owned(vec!["x", "y"]), ["x", "y"]);
    for s in SAMPLES {
        assert_eq!(text::padded(s, 6), format!("{s:6}"), "{s:?}");
        assert_eq!(text::byte_len(s), s.len());
        let first: String = s.chars().take(3).collect();
        assert_eq!(text::first_chars(s, 3), first, "{s:?}");
    }
}

#[test]
fn numbers() {
    for n in [0u128, 7, 10, 99, 100, 65535, u64::MAX as u128, u128::MAX] {
        assert_eq!(text::decimal(n), n.to_string());
    }
    for s in ["0", "7", "+7", "007", "65535", "65536", "", "+", "-1", "1.0", " 1", "１", "4294967295",
        "4294967296", "18446744073709551615", "18446744073709551616", "99999999999999999999999"]
    {
        assert_eq!(text::parse_up_to(s, u64::MAX), s.parse::<u64>().ok(), "{s:?}");
        assert_eq!(
            text::parse_up_to(s, u32::MAX as u64),
            s.parse::<u32>().ok().map(|n| n as u64),
            "{s:?}"
        );
    }
}
