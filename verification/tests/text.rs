use tetron_messageboard::compose::{
    join, pad_right, replace_all, stands_before, strip_prefix, texts_match,
};
use tetron_messageboard::lines::{frame_line, frame_lines, split_lines};
use tetron_messageboard::number::{
    format_decimal, format_hex, format_megabytes, parse_decimal,
};
use tetron_messageboard::text::{
    char_is_alphanumeric, char_is_control, char_is_lower_hex_digit, char_is_space, char_to_lower,
    same_text, trim,
};

fn samples() -> Vec<&'static str> {
    vec![
        "",
        " ",
        "a",
        " a ",
        "\ta b\n",
        "\u{a0}x\u{3000}",
        "a\nb",
        "a\r\nb\r\n",
        "\n",
        "\r",
        "\r\n",
        "a\r",
        "a\n\nb",
        "ends\r\nwith\rcr\r",
        "äöü \u{85}",
    ]
}

#[test]
fn character_classes_agree_with_std() {
    for n in 0..=0x10FFFFu32 {
        if let Some(c) = char::from_u32(n) {
            assert_eq!(char_is_space(c), c.is_whitespace(), "{n:x}");
            assert_eq!(char_is_control(c), c.is_control(), "{n:x}");
            assert_eq!(char_is_alphanumeric(c), c.is_ascii_alphanumeric(), "{n:x}");
            assert_eq!(
                char_is_lower_hex_digit(c),
                c.is_ascii_hexdigit() && !c.is_ascii_uppercase(),
                "{n:x}"
            );
            assert_eq!(char_to_lower(c), c.to_ascii_lowercase(), "{n:x}");
        }
    }
}

#[test]
fn trimming_agrees_with_std() {
    for s in samples() {
        assert_eq!(trim(s), s.trim());
    }
}

#[test]
fn lines_agree_with_std() {
    for s in samples() {
        let expected: Vec<&str> = s.lines().collect();
        assert_eq!(split_lines(s), expected, "{s:?}");
    }
}

#[test]
fn framed_lines_are_split_again() {
    let list = vec!["one".to_string(), String::new(), "three".to_string()];
    let text = frame_lines(&list);
    assert_eq!(text, "one\n\nthree\n");
    assert_eq!(split_lines(&text), list);
    assert_eq!(frame_line("one"), "one\n");
}

#[test]
fn equality_is_exact() {
    assert!(same_text("ä", "ä"));
    assert!(!same_text("a", "A"));
    assert!(!same_text("a", "ab"));
}

#[test]
fn decimals_agree_with_std() {
    for n in [0, 1, 9, 10, 99, 100, 28088, u64::MAX] {
        assert_eq!(format_decimal(n), n.to_string());
        assert_eq!(parse_decimal(&n.to_string(), u64::MAX), Some(n));
    }
    for s in ["", "+", "-1", "+7", "007", "65535", "65536", "x1", "1x", "٣"] {
        assert_eq!(parse_decimal(s, 65535).map(|n| n as u16), s.parse::<u16>().ok(), "{s}");
    }
}

#[test]
fn hexadecimal_is_padded() {
    assert_eq!(format_hex(0xdead, 8), "0000dead");
    assert_eq!(format_hex(u32::MAX, 8), format!("{:08x}", u32::MAX));
    assert_eq!(format_hex(0x0a, 2), "0a");
}

#[test]
fn megabytes_agree_with_float_formatting() {
    let mut n: u64 = 0;
    while n < 40_000_000 {
        assert_eq!(format_megabytes(n), format!("{:.1}", n as f64 / 1_048_576.0), "{n}");
        n += 13_107;
    }
    for n in [262_144, 786_432, 1_310_720, 26_214_401, 1 << 40] {
        assert_eq!(format_megabytes(n), format!("{:.1}", n as f64 / 1_048_576.0), "{n}");
    }
    assert_eq!(format_megabytes(262_144), "0.2");
    assert_eq!(format_megabytes(786_432), "0.8");
}

#[test]
fn case_is_ignored_for_ascii_only() {
    for (a, b) in [("Home", "hOME"), ("a", "b"), ("ä", "Ä"), ("x", "xx"), ("", "")] {
        assert_eq!(texts_match(a, b), a.eq_ignore_ascii_case(b));
    }
}

#[test]
fn order_agrees_with_std() {
    let list = ["", "a", "ab", "b", "ä", "z", "\u{ffff}", "\u{10000}"];
    for a in list {
        for b in list {
            assert_eq!(stands_before(a, b), a < b, "{a} {b}");
        }
    }
}

#[test]
fn joining_puts_separators_between() {
    assert_eq!(join(&vec![], ", "), "");
    assert_eq!(join(&vec!["a".to_string()], ", "), "a");
    assert_eq!(join(&vec!["a".to_string(), "b".to_string()], ", "), "a, b");
}

#[test]
fn replacing_agrees_with_std() {
    for (s, p, w) in [
        ("aaa", "aa", "b"),
        ("x/usr/y/usr", "/usr", ""),
        ("", "a", "b"),
        ("abc", "abcd", "x"),
        ("a.b.c", ".", "aa."),
    ] {
        assert_eq!(replace_all(s, p, w), s.replace(p, w));
    }
}

#[test]
fn padding_counts_characters() {
    assert_eq!(pad_right("ä", 3), format!("{:<3}", "ä"));
    assert_eq!(pad_right("long", 3), "long");
}

#[test]
fn prefixes_are_stripped() {
    assert_eq!(strip_prefix("KEY=v", "KEY="), Some("v".to_string()));
    assert_eq!(strip_prefix("KEY", "KEY="), None);
    assert_eq!(strip_prefix("XKEY=v", "KEY="), None);
}
