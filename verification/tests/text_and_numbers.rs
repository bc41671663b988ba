use whisper_proxy::bytes::{find_byte, push_bytes, push_le, push_text, read_u32, same_bytes};
use whisper_proxy::number::{
    decimal_digits, hex_digits, push_decimal, push_padded, push_signed, read_digits, read_signed, read_unsigned,
    to_digit_char,
};
use whisper_proxy::text::{
    chars_of, ends_with, find, push_str, replace, same, same_ignoring_case, same_str, split_lines, starts_with,
    string_of, to_lower, trim, trim_end, trim_start, trim_str, white_space, CharClass,
};

const SAMPLES: [&str; 14] = [
    "",
    " ",
    "a",
    "  padded\t",
    "one\ntwo\r\nthree",
    "ends\n",
    "\n\nblank\r\n\r\n",
    "lone\rreturn",
    "\u{feff}[Server]\nurl = x",
    "\u{3000}한국어\u{a0}",
    "\"quoted\" and \"\"doubled\"\"",
    "ÄÖÜ äöü ABC abc",
    "aaaa",
    "emoji \u{1f600}!",
];

#[test]
fn characters_survive_the_way_there_and_back() {
    for s in SAMPLES {
        assert_eq!(chars_of(s), s.chars().collect::<Vec<char>>());
        assert_eq!(string_of(&chars_of(s)), s);
    }
}

#[test]
fn white_space_is_that_of_unicode() {
    for n in 0u32..0x11_0000 {
        if let Some(c) = char::from_u32(n) {
            assert_eq!(white_space(c), c.is_whitespace(), "{n:x}");
        }
    }
}

#[test]
fn trimming_agrees_with_std() {
    for s in SAMPLES {
        assert_eq!(trim_str(s), s.trim());
        assert_eq!(string_of(trim(&chars_of(s))), s.trim());
        assert_eq!(string_of(trim_start(&chars_of(s), CharClass::WhiteSpace)), s.trim_start());
        assert_eq!(string_of(trim_end(&chars_of(s), CharClass::WhiteSpace)), s.trim_end());
        assert_eq!(string_of(trim_start(&chars_of(s), CharClass::One('a'))), s.trim_start_matches('a'));
        assert_eq!(string_of(trim_end(&chars_of(s), CharClass::One('a'))), s.trim_end_matches('a'));
    }
}

#[test]
fn trimming_a_trimmed_text_changes_nothing() {
    for s in SAMPLES {
        assert_eq!(trim_str(&trim_str(s)), trim_str(s));
    }
}

#[test]
fn lines_agree_with_std() {
    for s in SAMPLES {
        let cs = chars_of(s);
        let ours: Vec<String> = split_lines(&cs).into_iter().map(string_of).collect();
        let theirs: Vec<String> = s.lines().map(|l| l.to_string()).collect();
        assert_eq!(ours, theirs);
    }
}

#[test]
fn a_line_is_read_back_from_before_a_line_feed() {
    let cs = chars_of("first\nsecond");
    let lines = split_lines(&cs);
    assert_eq!(lines.len(), 2);
    assert_eq!(string_of(lines[0]), "first");
    assert_eq!(string_of(lines[1]), "second");
}

#[test]
fn finding_gives_the_first_place_or_the_length() {
    assert_eq!(find(&chars_of("key=value=more"), '='), 3);
    assert_eq!(find(&chars_of("none"), '='), 4);
    assert_eq!(find(&chars_of(""), '='), 0);
    assert_eq!(find_byte(&[5, 0, 7, 0], 0), 1);
    assert_eq!(find_byte(&[5, 7], 0), 2);
}

#[test]
fn comparing_and_lowering_agree_with_std() {
    for a in SAMPLES {
        assert_eq!(string_of(&to_lower(&chars_of(a))), a.to_ascii_lowercase());
        for b in SAMPLES {
            assert_eq!(same_str(a, b), a == b);
            assert_eq!(same(&chars_of(a), &chars_of(b)), a == b);
            assert_eq!(same_ignoring_case(&chars_of(a), &chars_of(b)), a.eq_ignore_ascii_case(b));
            assert_eq!(starts_with(&chars_of(a), &chars_of(b)), a.starts_with(b));
            assert_eq!(ends_with(&chars_of(a), &chars_of(b)), a.ends_with(b));
        }
    }
    assert!(same_ignoring_case(&chars_of("[SeRvEr]"), &chars_of("[server]")));
    assert!(!same_ignoring_case(&chars_of("Ä"), &chars_of("ä")));
}

#[test]
fn replacing_agrees_with_std() {
    for s in SAMPLES {
        for (p, by) in [("\"", "\"\""), ("aa", "b"), ("\n", ""), ("{{URL}}", "x"), ("a", "aa")] {
            assert_eq!(string_of(&replace(&chars_of(s), &chars_of(p), &chars_of(by))), s.replace(p, by));
        }
    }
}

#[test]
fn a_pattern_that_occurs_once_is_replaced_alone() {
    let r = replace(&chars_of("url = {{URL}}\n"), &chars_of("{{URL}}"), &chars_of("http://h/v1"));
    assert_eq!(string_of(&r), "url = http://h/v1\n");
}

#[test]
fn appending_text_and_bytes() {
    let mut cs = chars_of("ab");
    push_str(&mut cs, "cd");
    assert_eq!(string_of(&cs), "abcd");
    let mut bs: Vec<u8> = Vec::new();
    push_text(&mut bs, "한");
    push_bytes(&mut bs, &[1, 2]);
    assert_eq!(bs, [0xed, 0x95, 0x9c, 1, 2]);
    assert!(same_bytes(&bs, &[0xed, 0x95, 0x9c, 1, 2]));
    assert!(!same_bytes(&bs, &[0xed]));
    assert!(!same_bytes(&[1], &[2]));
}

#[test]
fn little_endian_numbers() {
    let mut out: Vec<u8> = Vec::new();
    push_le(&mut out, 0x0102_0304, 4);
    push_le(&mut out, 0x1_0000_0005, 4);
    push_le(&mut out, u64::MAX, 8);
    push_le(&mut out, 3, 2);
    assert_eq!(out, [4, 3, 2, 1, 5, 0, 0, 0, 255, 255, 255, 255, 255, 255, 255, 255, 3, 0]);
    assert_eq!(read_u32(&out, 0), 0x0102_0304);
    assert_eq!(read_u32(&out, 4), 5);
    assert_eq!(read_u32(&out, 8), u32::MAX);
}

#[test]
fn digits_agree_with_format() {
    for n in [0u64, 7, 9, 10, 99, 100, 12345, u64::MAX] {
        assert_eq!(string_of(&decimal_digits(n)), format!("{n}"));
        let mut out: Vec<char> = Vec::new();
        push_padded(&mut out, &decimal_digits(n), 3);
        assert_eq!(string_of(&out), format!("{n:03}"));
        let mut out: Vec<char> = vec!['#'];
        push_decimal(&mut out, n);
        assert_eq!(string_of(&out), format!("#{n}"));
    }
    for n in [0u128, 15, 16, 255, 0xdead_beef, u128::MAX] {
        assert_eq!(string_of(&hex_digits(n)), format!("{n:x}"));
    }
    for n in [0i64, 5, -5, -12, 123, i64::MAX, i64::MIN] {
        let mut out: Vec<char> = Vec::new();
        push_signed(&mut out, n, 2);
        assert_eq!(string_of(&out), format!("{n:02}"));
    }
    assert_eq!(to_digit_char(9), '9');
    assert_eq!(to_digit_char(15), 'f');
}

#[test]
fn reading_numbers_agrees_with_parse() {
    let texts = [
        "",
        "0",
        "00",
        "+7",
        "-7",
        "-0",
        "+",
        "-",
        "+-1",
        " 1",
        "1 ",
        "12a",
        "１",
        "18446744073709551615",
        "18446744073709551616",
        "9223372036854775807",
        "9223372036854775808",
        "-9223372036854775808",
        "-9223372036854775809",
        "99999999999999999999999999",
        "000000000000000000000000001",
        "1.5",
        "300",
    ];
    for t in texts {
        assert_eq!(read_unsigned(&chars_of(t), u64::MAX), t.parse::<u64>().ok(), "{t}");
        assert_eq!(read_signed(&chars_of(t)), t.parse::<i64>().ok(), "{t}");
    }
    assert_eq!(read_unsigned(&chars_of("256"), 255), None);
    assert_eq!(read_unsigned(&chars_of("255"), 255), Some(255));
    assert_eq!(read_digits(&chars_of("+5"), 9), None);
    assert_eq!(read_digits(&chars_of("5"), 9), Some(5));
}

#[test]
fn written_numbers_are_read_back() {
    for n in [0u64, 1, 10, 987654321, u64::MAX] {
        assert_eq!(read_unsigned(&decimal_digits(n), u64::MAX), Some(n));
    }
    for n in [0i64, -1, 10, i64::MIN, i64::MAX] {
        let mut out: Vec<char> = Vec::new();
        push_signed(&mut out, n, 5);
        assert_eq!(read_signed(&out), Some(n));
    }
}
