use zeroboot::calendar::{civil_from_days, iso_at, iso_now, iso_reading};
use zeroboot::text::{
    contains, cut_before, from_chars, matches_at, parse_u64, push_decimal, push_padded, replace,
    starts_with, strip_prefix, to_chars, trim_text, white,
};

fn dec(n: u64) -> String {
    let mut s = String::new();
    push_decimal(&mut s, n);
    s
}

fn pad(n: u64, width: u64) -> String {
    let mut s = String::from("<");
    push_padded(&mut s, n, width);
    s
}

#[test]
fn decimals() {
    assert_eq!(dec(0), "0");
    assert_eq!(dec(9), "9");
    assert_eq!(dec(10), "10");
    assert_eq!(dec(u64::MAX), "18446744073709551615");
    assert_eq!(pad(7, 3), "<007");
    assert_eq!(pad(0, 2), "<00");
    assert_eq!(pad(12345, 4), "<12345");
    assert_eq!(pad(5, 0), "<5");
}

#[test]
fn decimal_round_trip() {
    for n in [0u64, 7, 10, 1024, 999_999_999_999, u64::MAX] {
        let s = to_chars(&dec(n));
        assert_eq!(parse_u64(&s, 0, s.len()), Some(n));
    }
}

#[test]
fn numbers() {
    let p = |t: &str| {
        let s = to_chars(t);
        parse_u64(&s, 0, s.len())
    };
    assert_eq!(p("+42"), Some(42));
    assert_eq!(p("007"), Some(7));
    assert_eq!(p(""), None);
    assert_eq!(p("+"), None);
    assert_eq!(p("-1"), None);
    assert_eq!(p("1x"), None);
    assert_eq!(p("18446744073709551616"), None);
    assert_eq!(p("18446744073709551615"), Some(u64::MAX));
    assert_eq!(p("99999999999999999999999"), None);
}

#[test]
fn white_space_is_that_of_unicode() {
    for v in 0..0x11_0000u32 {
        if let Some(c) = char::from_u32(v) {
            assert_eq!(white(c), c.is_whitespace(), "{:x}", v);
        }
    }
}

#[test]
fn trimming() {
    for t in ["", "   ", " a b ", "\u{3000}x\r\n", "x", "\tx y"] {
        assert_eq!(trim_text(t), t.trim());
        assert_eq!(trim_text(&trim_text(t)), t.trim());
    }
}

#[test]
fn replacing() {
    for (s, pat, with) in [
        ("a\r\nb\r\n", "\r\n", "\n"),
        ("aaaa", "aa", "b"),
        ("aaa", "aa", ""),
        ("xyx", "x", "xx"),
        ("", "x", "y"),
        ("héllo", "é", "e"),
    ] {
        let r = replace(&to_chars(s), &to_chars(pat), &to_chars(with));
        assert_eq!(from_chars(&r), s.replace(pat, with));
    }
}

#[test]
fn searching() {
    let s = to_chars("one two");
    assert!(contains(&s, &to_chars("e t")));
    assert!(contains(&s, &to_chars("")));
    assert!(!contains(&s, &to_chars("three")));
    assert!(contains(&s, &to_chars("two")));
    assert!(!contains(&to_chars(""), &to_chars("a")));
    assert!(matches_at(&s, &to_chars("two"), 4));
    assert!(!matches_at(&s, &to_chars("twos"), 4));
    assert!(starts_with("zb_demo_x", "zb_demo_"));
    assert!(!starts_with("zb_dem", "zb_demo_"));
    assert_eq!(strip_prefix("Bearer k", "Bearer "), Some("k".to_string()));
    assert_eq!(strip_prefix("bearer k", "Bearer "), None);
    assert_eq!(cut_before("a,b,c", ','), "a");
    assert_eq!(cut_before("abc", ','), "abc");
    assert_eq!(cut_before(",b", ','), "");
}

#[test]
fn dates() {
    assert_eq!(civil_from_days(0), (1970, 1, 1));
    assert_eq!(civil_from_days(58), (1970, 2, 28));
    assert_eq!(civil_from_days(59), (1970, 3, 1));
    assert_eq!(civil_from_days(11016), (2000, 2, 29));
    assert_eq!(civil_from_days(19782), (2024, 2, 29));
    assert_eq!(civil_from_days(47540), (2100, 2, 28));
    assert_eq!(civil_from_days(47541), (2100, 3, 1));
}

#[test]
fn dates_follow_one_another() {
    let mut last = (1969, 12, 31);
    for n in 0..80_000 {
        let d = civil_from_days(n);
        assert!(last < d);
        assert!(d.2 == last.2 + 1 || d.2 == 1);
        last = d;
    }
    assert_eq!(last, (2189, 1, 11));
}

#[test]
fn timestamps() {
    assert_eq!(iso_at(0, 0), "1970-01-01T00:00:00.000Z");
    assert_eq!(iso_at(1_709_210_096, 7), "2024-02-29T12:34:56.007Z");
    assert_eq!(iso_at(951_868_799, 999), "2000-02-29T23:59:59.999Z");
}

#[test]
fn timestamps_come_in_order() {
    let times = [
        (0, 0), (0, 1), (59, 999), (60, 0), (3_599, 0), (3_600, 0), (86_399, 999), (86_400, 0),
        (951_868_799, 999), (951_868_800, 0), (1_709_210_096, 7), (253_402_300_799, 999),
    ];
    for (i, a) in times.iter().enumerate() {
        let x = iso_at(a.0, a.1);
        assert_eq!(x.len(), 24);
        for (j, b) in times.iter().enumerate() {
            assert_eq!(x.cmp(&iso_at(b.0, b.1)), i.cmp(&j));
        }
    }
    assert_eq!(iso_at(253_402_300_799, 999), "9999-12-31T23:59:59.999Z");
    assert_eq!(iso_at(253_402_300_800, 0), "10000-01-01T00:00:00.000Z");
}

#[test]
fn clock_readings() {
    assert_eq!(iso_reading(Some((86_400, 5))), Some("1970-01-02T00:00:00.005Z".to_string()));
    assert_eq!(iso_reading(None), None);
}

#[test]
fn present_time() {
    let a = std::time::SystemTime::now().duration_since(std::time::UNIX_EPOCH).unwrap().as_secs();
    let s = iso_now().unwrap();
    let b = std::time::SystemTime::now().duration_since(std::time::UNIX_EPOCH).unwrap().as_secs();
    assert_eq!(s.len(), 24);
    assert!(iso_at(a, 0) <= s && s <= iso_at(b, 999));
}
