use eas_attestor::env::lookup;
use eas_attestor::text::{
    chars_of, contains, decimal, hexadecimal, is_whitespace, join, parse_hex, split_marker,
    split_once, split_word, starts_with, strip_0x, strip_all_0x, trim, trim_end_matches, trim_start,
};

#[test]
fn trimming() {
    assert_eq!(trim(" \t\u{3000}a b\u{2028}\n"), "a b");
    assert_eq!(trim("  "), "");
    assert_eq!(trim_start(" a "), "a ");
    assert_eq!(trim_end_matches("a//", '/'), "a");
    assert_eq!(trim_end_matches("//", '/'), "");
}

#[test]
fn white_space_is_what_unicode_says() {
    let mut n: u32 = 0;
    while n < 0x110000 {
        if let Some(c) = char::from_u32(n) {
            assert_eq!(is_whitespace(c), c.is_whitespace());
        }
        n += 1;
    }
}

#[test]
fn splitting() {
    assert_eq!(split_once("a,b,c", ','), Some(("a", "b,c")));
    assert_eq!(split_once("abc", ','), None);
    assert_eq!(split_once("é,ü", ','), Some(("é", "ü")));
    assert_eq!(split_marker("a$b${c}"), Some(("a$b", "c}")));
    assert_eq!(split_marker("a$"), None);
    assert_eq!(split_word("ab cd"), ("ab", " cd"));
    assert_eq!(split_word(" cd"), ("", " cd"));
    assert!(starts_with("uint8", "uint"));
    assert!(!starts_with("uin", "uint"));
}

#[test]
fn prefixes_of_numbers() {
    assert_eq!(strip_0x("0x0x1"), "0x1");
    assert_eq!(strip_all_0x("0x0x1"), "1");
    assert_eq!(strip_0x("0X1"), "0X1");
    assert_eq!(strip_all_0x("0"), "0");
}

#[test]
fn numerals() {
    assert_eq!(decimal(0), "0");
    assert_eq!(decimal(u128::MAX), u128::MAX.to_string());
    assert_eq!(hexadecimal(0), "0");
    assert_eq!(hexadecimal(0xdead_beef), "deadbeef");
    assert_eq!(parse_hex("+fF", 255), Ok(255));
    assert_eq!(parse_hex("100", 255).unwrap_err(), "number too large to fit in target type");
    assert_eq!(parse_hex("-1", 255).unwrap_err(), "invalid digit found in string");
}

#[test]
fn block_tags_spell_their_block() {
    for n in [0, 1, 9, 10, 255, 4096, u64::MAX] {
        assert_eq!(parse_hex(&hexadecimal(n), u64::MAX as u128), Ok(n as u128));
    }
}

#[test]
fn lists() {
    let v = vec!["a".to_string(), "b".to_string()];
    assert_eq!(join(&v, "; "), "a; b");
    assert_eq!(join(&[], "; "), "");
    assert!(contains(&v, "b"));
    assert!(!contains(&v, "c"));
    assert_eq!(chars_of("aé"), vec!['a', 'é']);
}

#[test]
fn the_first_variable_of_a_name_counts() {
    let env = vec![
        ("A".to_string(), "1".to_string()),
        ("B".to_string(), "2".to_string()),
        ("A".to_string(), "3".to_string()),
    ];
    assert_eq!(lookup(&env, "A"), Some("1"));
    assert_eq!(lookup(&env, "B"), Some("2"));
    assert_eq!(lookup(&env, "C"), None);
}
