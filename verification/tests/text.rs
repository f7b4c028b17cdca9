use threadopt::number::{
    parse_i32, parse_u64, parse_usize, push_decimal, push_signed_decimal, push_three_digits,
    push_two_digits,
};
use threadopt::text::{
    after, before, chars, ends_with, find, find_either, list_contains, lowercase_is, same, split,
    starts_with, trim, white_space, words,
};

#[test]
fn white_space_is_that_of_unicode() {
    for n in 0..=0x10ffffu32 {
        if let Some(c) = char::from_u32(n) {
            assert_eq!(white_space(c), c.is_whitespace());
        }
    }
}

const SAMPLES: [&str; 12] = [
    "",
    " ",
    "a",
    " a ",
    "\t\n a b \r\n",
    "a,b,,c,",
    ",",
    "线 程",
    "\u{3000}线\u{2003}",
    "com.example.app",
    "  ,  ",
    "a\u{85}b",
];

#[test]
fn trim_is_that_of_std() {
    for s in SAMPLES {
        assert_eq!(trim(s), s.trim());
    }
}

#[test]
fn split_is_that_of_std() {
    for s in SAMPLES {
        assert_eq!(split(s, ','), s.split(',').collect::<Vec<&str>>());
    }
}

#[test]
fn words_are_those_of_std() {
    for s in SAMPLES {
        assert_eq!(words(s), s.split_whitespace().collect::<Vec<&str>>());
    }
}

#[test]
fn chars_are_those_of_std() {
    for s in SAMPLES {
        assert_eq!(chars(s), s.chars().collect::<Vec<char>>());
    }
}

#[test]
fn find_counts_characters() {
    assert_eq!(find("线程=1", '='), Some(2));
    assert_eq!(find("a=b=c", '='), Some(1));
    assert_eq!(find("abc", '='), None);
    assert_eq!(find_either("a{b=c", '=', '{'), Some(1));
    assert_eq!(find_either("a=b{c", '=', '{'), Some(1));
    assert_eq!(find_either("", '=', '{'), None);
    assert_eq!(before("线程=1", 2), "线程");
    assert_eq!(after("线程=1", 3), "1");
    assert_eq!(after("abc", 3), "");
}

#[test]
fn ends_of_texts() {
    assert!(starts_with("abc", "ab"));
    assert!(starts_with("abc", ""));
    assert!(!starts_with("abc", "abcd"));
    assert!(!starts_with("abc", "b"));
    assert!(ends_with("abc", "bc"));
    assert!(ends_with("abc", ""));
    assert!(!ends_with("abc", "ab"));
    assert!(!ends_with("bc", "abc"));
    assert!(same("线", "线"));
    assert!(!same("a", "A"));
    assert!(!same("a", "ab"));
    assert!(lowercase_is("GaMe", "game"));
    assert!(!lowercase_is("games", "game"));
    assert!(!lowercase_is("game", "GAME"));
}

#[test]
fn lists_of_texts() {
    let list = vec!["a".to_string(), "b".to_string()];
    assert!(list_contains(&list, "b"));
    assert!(!list_contains(&list, "c"));
    assert!(!list_contains(&vec![], ""));
}

const NUMBERS: [&str; 24] = [
    "",
    "0",
    "7",
    "007",
    "+7",
    "-7",
    "-0",
    "+",
    "-",
    "++7",
    "+-7",
    " 7",
    "7 ",
    "7a",
    "a7",
    "٣",
    "2147483647",
    "2147483648",
    "-2147483648",
    "-2147483649",
    "18446744073709551615",
    "18446744073709551616",
    "+18446744073709551615",
    "99999999999999999999999999",
];

#[test]
fn numbers_are_read_as_std_reads_them() {
    for s in NUMBERS {
        assert_eq!(parse_u64(s), s.parse::<u64>().ok());
        assert_eq!(parse_usize(s), s.parse::<usize>().ok());
        assert_eq!(parse_i32(s), s.parse::<i32>().ok());
    }
}

#[test]
fn decimals_read_back() {
    for n in [0u64, 1, 9, 10, 99, 100, 1023, 1_000_000, u64::MAX] {
        let mut s = String::new();
        push_decimal(&mut s, n);
        assert_eq!(s, format!("{}", n));
        assert_eq!(parse_u64(&s), Some(n));
    }
    for n in [0i64, -1, 5, -10, i64::MAX, i64::MIN] {
        let mut s = String::from("x");
        push_signed_decimal(&mut s, n);
        assert_eq!(s, format!("x{}", n));
    }
}

#[test]
fn padded_decimals() {
    for n in [0u64, 7, 59, 100, 999, 1000] {
        let mut two = String::new();
        push_two_digits(&mut two, n);
        assert_eq!(two, format!("{:02}", n));
        let mut three = String::new();
        push_three_digits(&mut three, n);
        assert_eq!(three, format!("{:03}", n));
    }
}
