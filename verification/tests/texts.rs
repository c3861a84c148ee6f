use planifie::text::{
    blank_string, chars_of, count_leading_blanks, digit_char, find_char, is_whitespace, join_path,
    push_chars, push_two_digits, string_of, trimmed,
};

fn chars(s: &str) -> Vec<char> {
    s.chars().collect()
}

#[test]
fn white_space_is_what_std_calls_white_space() {
    let mut code: u32 = 0;
    while code <= 0x10FFFF {
        if let Some(c) = char::from_u32(code) {
            assert_eq!(is_whitespace(c), c.is_whitespace());
        }
        code += 1;
    }
}

#[test]
fn trimmed_is_what_std_trims() {
    for s in ["", " ", "a", "  a b  ", "\t x\r", "\u{3000}name\u{a0}", " \n ", "a  "] {
        let v = chars(s);
        assert_eq!(string_of(trimmed(&v)), s.trim());
    }
}

#[test]
fn chars_and_strings_convert_both_ways() {
    assert_eq!(chars_of("héllo"), vec!['h', 'é', 'l', 'l', 'o']);
    assert_eq!(chars_of(""), Vec::<char>::new());
    assert_eq!(string_of(&['a', 'ß', 'c']), "aßc");
}

#[test]
fn leading_blanks_are_counted() {
    assert_eq!(count_leading_blanks(&chars("    x ")), 4);
    assert_eq!(count_leading_blanks(&chars("x")), 0);
    assert_eq!(count_leading_blanks(&chars("\t x")), 0);
    assert_eq!(count_leading_blanks(&chars("   ")), 3);
    assert_eq!(count_leading_blanks(&chars("")), 0);
}

#[test]
fn find_char_gives_the_first_index_or_the_length() {
    assert_eq!(find_char(&chars("a-b-c"), '-'), 1);
    assert_eq!(find_char(&chars("abc"), '-'), 3);
    assert_eq!(find_char(&chars(""), '-'), 0);
    assert_eq!(find_char(&chars("-"), '-'), 0);
}

#[test]
fn two_digits_are_padded_with_zero() {
    let mut out = String::from("x");
    push_two_digits(&mut out, 7);
    push_two_digits(&mut out, 0);
    push_two_digits(&mut out, 42);
    push_two_digits(&mut out, 99);
    assert_eq!(out, "x07004299");
    assert_eq!(digit_char(0), '0');
    assert_eq!(digit_char(9), '9');
}

#[test]
fn paths_join_with_a_slash() {
    assert_eq!(join_path("work", "email"), "work/email");
    assert_eq!(join_path("", ""), "/");
}

#[test]
fn blanks_and_pushed_chars() {
    assert_eq!(blank_string(0), "");
    assert_eq!(blank_string(3), "   ");
    let mut out = String::from("a");
    push_chars(&mut out, &['b', 'c']);
    assert_eq!(out, "abc");
}
