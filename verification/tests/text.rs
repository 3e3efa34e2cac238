use static_files::bytes::{ascii_string, bytes_start_with, find_byte, same_bytes};
use static_files::number::{parse_decimal, push_decimal, push_hex};
use static_files::path::{hex_digit, percent_decode};
use static_files::text::{
    append, append_str, chars_of, find, has_prefix, has_suffix, is_space_char, same, same_text,
    split_all, split_at_first, string_of, to_lower, to_lower_vec, trimmed,
};

fn chars(s: &str) -> Vec<char> {
    s.chars().collect()
}

fn text(v: &[char]) -> String {
    v.iter().collect()
}

#[test]
fn chars_and_strings() {
    assert_eq!(chars_of("héllo"), vec!['h', 'é', 'l', 'l', 'o']);
    assert_eq!(chars_of(""), Vec::<char>::new());
    assert_eq!(string_of(&['a', 'ß', 'c']), "aßc");
    assert_eq!(string_of(&[]), "");
    assert_eq!(ascii_string(b"/a%20b"), "/a%20b");
}

#[test]
fn equality_of_texts() {
    assert!(same(&chars("abc"), &chars("abc")));
    assert!(!same(&chars("abc"), &chars("abd")));
    assert!(!same(&chars("abc"), &chars("ab")));
    assert!(same(&[], &[]));
    assert!(same_text("GET", "GET"));
    assert!(!same_text("GET", "get"));
    assert!(same_bytes(b"abc", b"abc"));
    assert!(!same_bytes(b"abc", b"abC"));
    assert!(!same_bytes(b"abc", b""));
}

#[test]
fn lower_case() {
    assert_eq!(to_lower('A'), 'a');
    assert_eq!(to_lower('Z'), 'z');
    assert_eq!(to_lower('a'), 'a');
    assert_eq!(to_lower('@'), '@');
    assert_eq!(to_lower('['), '[');
    assert_eq!(to_lower('É'), 'É');
    assert_eq!(text(&to_lower_vec(&chars("Text/HTML; Q"))), "text/html; q");
}

#[test]
fn white_space() {
    for c in [' ', '\t', '\n', '\r', '\u{b}', '\u{c}', '\u{85}', '\u{a0}', '\u{2003}', '\u{3000}'] {
        assert!(is_space_char(c));
        assert!(c.is_whitespace());
    }
    for c in ['a', '0', '-', '\u{0}', '\u{200b}', '\u{feff}'] {
        assert!(!is_space_char(c));
        assert!(!c.is_whitespace());
    }
}

#[test]
fn white_space_is_what_the_standard_library_has() {
    for n in 0..0x3100u32 {
        if let Some(c) = char::from_u32(n) {
            assert_eq!(is_space_char(c), c.is_whitespace());
        }
    }
}

#[test]
fn trimming() {
    assert_eq!(text(trimmed(&chars("  a b \t"))), "a b");
    assert_eq!(text(trimmed(&chars("a"))), "a");
    assert_eq!(text(trimmed(&chars("   "))), "");
    assert_eq!(text(trimmed(&chars(""))), "");
    assert_eq!(text(trimmed(&chars("\u{a0}x\u{2003}"))), "x");
}

#[test]
fn trimming_is_what_the_standard_library_does() {
    for s in ["", " ", "a", " a", "a ", " a b ", "\t\n a\r\n", "  \u{3000}x y\u{85} "] {
        assert_eq!(text(trimmed(&chars(s))), s.trim());
    }
}

#[test]
fn finding_and_splitting() {
    assert_eq!(find(&chars("a=b=c"), '='), 1);
    assert_eq!(find(&chars("abc"), '='), 3);
    assert_eq!(find(&chars(""), '='), 0);
    let whole = chars("a=b=c");
    let (head, tail) = split_at_first(&whole, '=').unwrap();
    assert_eq!((text(head), text(tail)), ("a".to_string(), "b=c".to_string()));
    assert!(split_at_first(&chars("abc"), '=').is_none());
    let whole = chars("=");
    let (head, tail) = split_at_first(&whole, '=').unwrap();
    assert_eq!((head.len(), tail.len()), (0, 0));

    let pieces: Vec<String> = split_all(&chars("a, b,,c"), ',').iter().map(|p| text(p)).collect();
    assert_eq!(pieces, vec!["a", " b", "", "c"]);
    assert_eq!(split_all(&chars(""), ','), vec![Vec::<char>::new()]);
    assert_eq!(split_all(&chars(","), ',').len(), 2);
    assert_eq!(find_byte(b"a/b", b'/'), 1);
    assert_eq!(find_byte(b"ab", b'/'), 2);
}

#[test]
fn splitting_is_what_the_standard_library_does() {
    for s in ["", ",", "a", "a,b", ",a,,b,", "a, b ,c"] {
        let ours: Vec<String> = split_all(&chars(s), ',').iter().map(|p| text(p)).collect();
        let theirs: Vec<String> = s.split(',').map(str::to_owned).collect();
        assert_eq!(ours, theirs);
    }
}

#[test]
fn prefixes_and_suffixes() {
    assert!(has_prefix(&chars("text/html"), &chars("text/")));
    assert!(has_prefix(&chars("text/"), &chars("text/")));
    assert!(has_prefix(&chars("text/"), &[]));
    assert!(!has_prefix(&chars("tex"), &chars("text/")));
    assert!(!has_prefix(&chars("image/png"), &chars("text/")));
    assert!(has_suffix(&chars("svg+xml"), &chars("+xml")));
    assert!(!has_suffix(&chars("xml"), &chars("+xml")));
    assert!(!has_suffix(&chars("svg+xmls"), &chars("+xml")));
    assert!(bytes_start_with(b"/srv/www/a", b"/srv/www"));
    assert!(!bytes_start_with(b"/srv", b"/srv/www"));
}

#[test]
fn appending() {
    let mut out = chars("ab");
    append(&mut out, &chars("cd"));
    append_str(&mut out, "ef");
    append_str(&mut out, "");
    assert_eq!(text(&out), "abcdef");
}

#[test]
fn decimal_numbers() {
    assert_eq!(parse_decimal(&chars("0")), Some(0));
    assert_eq!(parse_decimal(&chars("007")), Some(7));
    assert_eq!(parse_decimal(&chars("+42")), Some(42));
    assert_eq!(parse_decimal(&chars("18446744073709551615")), Some(u64::MAX));
    assert_eq!(parse_decimal(&chars("18446744073709551616")), None);
    assert_eq!(parse_decimal(&chars("99999999999999999999")), None);
    assert_eq!(parse_decimal(&chars("")), None);
    assert_eq!(parse_decimal(&chars("+")), None);
    assert_eq!(parse_decimal(&chars("-1")), None);
    assert_eq!(parse_decimal(&chars("++1")), None);
    assert_eq!(parse_decimal(&chars("1+")), None);
    assert_eq!(parse_decimal(&chars(" 1")), None);
    assert_eq!(parse_decimal(&chars("1 ")), None);
    assert_eq!(parse_decimal(&chars("12a")), None);
    assert_eq!(parse_decimal(&chars("١٢")), None);
}

#[test]
fn decimal_numbers_are_read_as_the_standard_library_reads_them() {
    let samples = [
        "0", "1", "+1", "-1", "", "+", "00", "123456789", "18446744073709551615",
        "18446744073709551616", "1e3", "0x10", " 1", "1_000",
    ];
    for s in samples {
        assert_eq!(parse_decimal(&chars(s)), s.parse::<u64>().ok());
    }
}

#[test]
fn writing_numbers() {
    for n in [0u64, 7, 10, 99, 100, 1000, 784111777, u64::MAX] {
        let mut out = chars("x");
        push_decimal(&mut out, n);
        assert_eq!(text(&out), format!("x{n}"));
        let mut out = Vec::new();
        push_hex(&mut out, n);
        assert_eq!(text(&out), format!("{n:x}"));
        let mut digits = Vec::new();
        push_decimal(&mut digits, n);
        assert_eq!(parse_decimal(&digits), Some(n));
    }
}

#[test]
fn percent_decoding() {
    assert_eq!(percent_decode(b"/a%20b"), Some(b"/a b".to_vec()));
    assert_eq!(percent_decode(b"%41%42%43"), Some(b"ABC".to_vec()));
    assert_eq!(percent_decode(b"%e2%82%AC"), Some("€".as_bytes().to_vec()));
    assert_eq!(percent_decode(b"%25"), Some(b"%".to_vec()));
    assert_eq!(percent_decode(b"%00"), Some(vec![0]));
    assert_eq!(percent_decode(b"%ff"), Some(vec![0xff]));
    assert_eq!(percent_decode(b""), Some(vec![]));
    assert_eq!(percent_decode(b"%"), None);
    assert_eq!(percent_decode(b"%4"), None);
    assert_eq!(percent_decode(b"%4g"), None);
    assert_eq!(percent_decode(b"a%%41"), None);
    assert_eq!(hex_digit(b'0'), Some(0));
    assert_eq!(hex_digit(b'9'), Some(9));
    assert_eq!(hex_digit(b'a'), Some(10));
    assert_eq!(hex_digit(b'F'), Some(15));
    assert_eq!(hex_digit(b'g'), None);
    assert_eq!(hex_digit(b'/'), None);
    assert_eq!(hex_digit(b':'), None);
    assert_eq!(hex_digit(b'@'), None);
    assert_eq!(hex_digit(b'`'), None);
}
