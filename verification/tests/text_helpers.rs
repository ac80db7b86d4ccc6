use cloakynode::text::{
    chars_of, contains_chars, int_error_text, is_whitespace, parse_uint_chars, split_lines,
    split_whitespace, to_ascii_lower, trim_chars, IntErrorKind,
};

fn text(v: &[char]) -> String {
    v.iter().collect()
}

const SAMPLES: &[&str] = &[
    "",
    "a",
    "\n",
    "\n\n",
    "a\nb",
    "a\nb\n",
    "a\r\nb\r\n",
    "a\rb",
    "abc\r",
    "\r\n",
    "\r\r\n",
    "  x  y\t\tz \u{3000}w\u{85}v ",
    "\u{a0}nbsp\u{2009}thin\u{200b}zero-width",
    "héllo wörld\n°C",
];

#[test]
fn lines_match_std() {
    for s in SAMPLES {
        let got: Vec<String> = split_lines(&chars_of(s)).iter().map(|l| text(l)).collect();
        let want: Vec<String> = s.lines().map(str::to_string).collect();
        assert_eq!(got, want, "lines of {s:?}");
    }
}

#[test]
fn whitespace_split_and_trim_match_std() {
    for s in SAMPLES {
        let got: Vec<String> = split_whitespace(&chars_of(s)).iter().map(|w| text(w)).collect();
        let want: Vec<String> = s.split_whitespace().map(str::to_string).collect();
        assert_eq!(got, want, "words of {s:?}");
        assert_eq!(text(&trim_chars(&chars_of(s))), s.trim(), "trim of {s:?}");
    }
}

#[test]
fn whitespace_class_matches_std() {
    for n in 0..=0x10FFFFu32 {
        if let Some(c) = char::from_u32(n) {
            assert_eq!(is_whitespace(c), c.is_whitespace(), "U+{n:04X}");
        }
    }
}

#[test]
fn ascii_lowercase_and_contains_match_std() {
    for s in ["CPU-Thermal", "x86_PKG_TEMP", "ÄÖÜ Soc", ""] {
        assert_eq!(text(&to_ascii_lower(&chars_of(s))), s.to_ascii_lowercase());
    }
    assert!(contains_chars(&chars_of("cpu-thermal"), &chars_of("thermal")));
    assert!(!contains_chars(&chars_of("gpu"), &chars_of("cpu")));
    assert!(contains_chars(&chars_of("x"), &chars_of("")));
}

fn kind(e: &std::num::ParseIntError) -> IntErrorKind {
    match e.kind() {
        std::num::IntErrorKind::Empty => IntErrorKind::Empty,
        std::num::IntErrorKind::PosOverflow => IntErrorKind::PosOverflow,
        _ => IntErrorKind::InvalidDigit,
    }
}

#[test]
fn integer_reading_matches_std() {
    let inputs = [
        "", "+", "-", "0", "+0", "-0", "007", "12a", "a12", "18446744073709551615",
        "18446744073709551616", "99999999999999999999x", "x99999999999999999999", "+18446744073709551615",
        "4294967295", "4294967296", "1_000", " 1", "ff", "FF", "fffffffff", "0x10", "+aB",
    ];
    for s in inputs {
        let cs = chars_of(s);
        let dec = parse_uint_chars(&cs, u64::MAX, 10);
        match s.parse::<u64>() {
            Ok(v) => assert_eq!(dec, Ok(v), "u64 {s:?}"),
            Err(e) => assert_eq!(dec, Err(kind(&e)), "u64 {s:?}"),
        }
        let small = parse_uint_chars(&cs, u64::from(u32::MAX), 10);
        match s.parse::<u32>() {
            Ok(v) => assert_eq!(small, Ok(u64::from(v)), "u32 {s:?}"),
            Err(e) => assert_eq!(small, Err(kind(&e)), "u32 {s:?}"),
        }
        let hex = parse_uint_chars(&cs, u64::from(u32::MAX), 16);
        match u32::from_str_radix(s, 16) {
            Ok(v) => assert_eq!(hex, Ok(u64::from(v)), "hex {s:?}"),
            Err(e) => assert_eq!(hex, Err(kind(&e)), "hex {s:?}"),
        }
    }
}

#[test]
fn integer_error_messages_match_std() {
    assert_eq!(int_error_text(IntErrorKind::Empty), "".parse::<u8>().unwrap_err().to_string());
    assert_eq!(int_error_text(IntErrorKind::InvalidDigit), "z".parse::<u8>().unwrap_err().to_string());
    assert_eq!(int_error_text(IntErrorKind::PosOverflow), "300".parse::<u8>().unwrap_err().to_string());
}
