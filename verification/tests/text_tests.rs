use optacore::text::{
    chars_of, contains, contains_str, find, join, lines_of, occurs, push_chars, push_decimal,
    push_shortest, push_two_places, same_text, split_on, text_of, words_of,
};

fn decimal(n: u64) -> String {
    let mut out = String::from("n=");
    push_decimal(&mut out, n);
    out
}

fn two_places(v: i64) -> String {
    let mut out = String::new();
    push_two_places(&mut out, v);
    out
}

fn shortest(v: i64) -> String {
    let mut out = String::new();
    push_shortest(&mut out, v);
    out
}

fn chars(s: &str) -> Vec<char> {
    s.chars().collect()
}

fn texts(pieces: &[Vec<char>]) -> Vec<String> {
    pieces.iter().map(|p| p.iter().collect()).collect()
}

#[test]
fn decimal_notation() {
    assert_eq!(decimal(0), "n=0");
    assert_eq!(decimal(9), "n=9");
    assert_eq!(decimal(10), "n=10");
    assert_eq!(decimal(1_234_567_890), "n=1234567890");
    assert_eq!(decimal(u64::MAX), "n=18446744073709551615");
}

#[test]
fn two_decimal_places() {
    assert_eq!(two_places(0), "0.00");
    assert_eq!(two_places(4_999), "0.00");
    assert_eq!(two_places(5_000), "0.01");
    assert_eq!(two_places(1_994_999), "1.99");
    assert_eq!(two_places(1_995_000), "2.00");
    assert_eq!(two_places(31_622_776), "31.62");
    assert_eq!(two_places(-5_000), "-0.01");
    assert_eq!(two_places(-1), "-0.00");
    assert_eq!(two_places(i64::MAX), "9223372036854.78");
    assert_eq!(two_places(i64::MIN), "-9223372036854.78");
}

#[test]
fn shortest_notation() {
    assert_eq!(shortest(0), "0");
    assert_eq!(shortest(3_000_000), "3");
    assert_eq!(shortest(1_500_000), "1.5");
    assert_eq!(shortest(550_000), "0.55");
    assert_eq!(shortest(1), "0.000001");
    assert_eq!(shortest(-1), "-0.000001");
    assert_eq!(shortest(-2_000_000), "-2");
    assert_eq!(shortest(10_000_100), "10.0001");
    assert_eq!(shortest(i64::MAX), "9223372036854.775807");
    assert_eq!(shortest(i64::MIN), "-9223372036854.775808");
}

#[test]
fn characters_and_parts() {
    assert_eq!(chars_of("a\u{e9}\u{1f600}"), vec!['a', '\u{e9}', '\u{1f600}']);
    assert_eq!(text_of(&chars("hello"), 1, 4), "ell");
    assert_eq!(text_of(&chars("hello"), 2, 2), "");
    let mut out = String::from("<");
    push_chars(&mut out, &chars("ab"));
    assert_eq!(out, "<ab");
    assert!(same_text("x", "x"));
    assert!(!same_text("x", "X"));
    assert!(same_text("", ""));
}

#[test]
fn searching() {
    let s = chars("abcabc");
    assert!(occurs(&s, 3, &chars("abc")));
    assert!(!occurs(&s, 4, &chars("abc")));
    assert!(occurs(&s, 6, &chars("")));
    assert!(contains(&s, &chars("ca")));
    assert!(!contains(&s, &chars("cc")));
    assert!(contains(&chars(""), &chars("")));
    assert!(contains_str(&s, "bc"));
    assert_eq!(find(&s, &chars("bc"), 0), Some(1));
    assert_eq!(find(&s, &chars("bc"), 2), Some(4));
    assert_eq!(find(&s, &chars("bc"), 5), None);
    assert_eq!(find(&s, &chars(""), 6), Some(6));
}

#[test]
fn splitting_and_joining() {
    assert_eq!(texts(&split_on(&chars("a.b..c."), '.')), vec!["a", "b", "", "c", ""]);
    assert_eq!(texts(&split_on(&chars(""), '.')), vec![""]);
    assert_eq!(texts(&lines_of(&chars("a\r\nb\n\nc\r"))), vec!["a", "b", "", "c\r"]);
    assert_eq!(texts(&lines_of(&chars("a\n"))), vec!["a"]);
    assert!(lines_of(&chars("")).is_empty());
    assert_eq!(texts(&lines_of(&chars("\n"))), vec![""]);
    assert_eq!(texts(&words_of(&chars("  one\ttwo \u{a0} three "))), vec!["one", "two", "three"]);
    assert!(words_of(&chars(" \n ")).is_empty());
    assert_eq!(join(&vec![chars("a"), chars(""), chars("b")], ", "), "a, , b");
    assert_eq!(join(&vec![chars("only")], ", "), "only");
    assert_eq!(join(&vec![], ", "), "");
}
