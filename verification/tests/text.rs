use certstore::text::{chars_of, parse_u32, quote_base64, split_chars, starts_with};

fn chars(s: &str) -> Vec<char> {
    s.chars().collect()
}

#[test]
fn chars_of_gives_each_character() {
    assert_eq!(chars_of("aé?"), vec!['a', 'é', '?']);
    assert_eq!(chars_of(""), Vec::<char>::new());
}

#[test]
fn split_chars_gives_one_piece_without_separator() {
    assert_eq!(split_chars(&chars("abc"), '&'), vec![chars("abc")]);
    assert_eq!(split_chars(&chars(""), '&'), vec![chars("")]);
}

#[test]
fn split_chars_keeps_empty_pieces() {
    assert_eq!(
        split_chars(&chars("a&&b&"), '&'),
        vec![chars("a"), chars(""), chars("b"), chars("")]
    );
    assert_eq!(split_chars(&chars("&"), '&'), vec![chars(""), chars("")]);
}

#[test]
fn split_chars_agrees_with_std_split() {
    for text in ["chunk=1", "a=b=c", "=", "x&y=1&chunk=2", "??"] {
        for sep in ['=', '&', '?'] {
            let expected: Vec<Vec<char>> = text.split(sep).map(chars).collect();
            assert_eq!(split_chars(&chars(text), sep), expected);
        }
    }
}

#[test]
fn parse_u32_reads_digits_and_a_plus_sign() {
    assert_eq!(parse_u32(&chars("0")), Some(0));
    assert_eq!(parse_u32(&chars("42")), Some(42));
    assert_eq!(parse_u32(&chars("+7")), Some(7));
    assert_eq!(parse_u32(&chars("0007")), Some(7));
    assert_eq!(parse_u32(&chars("4294967295")), Some(u32::MAX));
    assert_eq!(parse_u32(&chars("00000000004294967295")), Some(u32::MAX));
}

#[test]
fn parse_u32_refuses_what_is_no_number() {
    assert_eq!(parse_u32(&chars("")), None);
    assert_eq!(parse_u32(&chars("+")), None);
    assert_eq!(parse_u32(&chars("-1")), None);
    assert_eq!(parse_u32(&chars("++1")), None);
    assert_eq!(parse_u32(&chars("1 ")), None);
    assert_eq!(parse_u32(&chars(" 1")), None);
    assert_eq!(parse_u32(&chars("1a")), None);
    assert_eq!(parse_u32(&chars("٣")), None);
}

#[test]
fn parse_u32_refuses_what_is_too_large() {
    assert_eq!(parse_u32(&chars("4294967296")), None);
    assert_eq!(parse_u32(&chars("99999999999999999999999999")), None);
    assert_eq!(parse_u32(&chars("4294967296x")), None);
}

#[test]
fn parse_u32_agrees_with_std_parse() {
    for text in ["", "+", "-", "+0", "12", "012", "4294967295", "4294967296", "1_000", "0x10"] {
        assert_eq!(parse_u32(&chars(text)), text.parse::<u32>().ok(), "{}", text);
    }
}

#[test]
fn starts_with_compares_the_front() {
    assert!(starts_with(&chars("/file/x"), &chars("/file/")));
    assert!(starts_with(&chars("/file/"), &chars("/file/")));
    assert!(!starts_with(&chars("/file"), &chars("/file/")));
    assert!(!starts_with(&chars("/fill/x"), &chars("/file/")));
    assert!(starts_with(&chars("abc"), &chars("")));
}

#[test]
fn quote_base64_writes_the_standard_padded_form() {
    assert_eq!(quote_base64("certificate", b"hello world"), "certificate=\"aGVsbG8gd29ybGQ=\"");
    assert_eq!(quote_base64("tree", b""), "tree=\"\"");
    assert_eq!(quote_base64("tree", &[0xfb, 0xff]), "tree=\"+/8=\"");
}
