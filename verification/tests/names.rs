use clashctl::names::{compare_names, same_name, NameOrder};
use clashctl::text::{char_count, join_strings, pad_to, push_decimal, repeat_str};

#[test]
fn names_compare_like_strings() {
    let samples = ["", "a", "ab", "b", "Z", "\u{e9}", "\u{1F600}", "a\u{e9}", "aa"];
    for a in samples {
        for b in samples {
            let expected = match a.cmp(b) {
                std::cmp::Ordering::Less => NameOrder::Less,
                std::cmp::Ordering::Equal => NameOrder::Equal,
                std::cmp::Ordering::Greater => NameOrder::Greater,
            };
            assert_eq!(compare_names(a, b), expected, "{a:?} vs {b:?}");
            assert_eq!(same_name(a, b), a == b);
        }
    }
}

#[test]
fn text_helpers() {
    let mut s = String::from("n=");
    push_decimal(&mut s, 0);
    s.push(',');
    push_decimal(&mut s, 18446744073709551615);
    assert_eq!(s, "n=0,18446744073709551615");
    assert_eq!(char_count("h\u{e9}llo"), 5);
    let mut p = String::from("\u{e9}");
    pad_to(&mut p, 3);
    assert_eq!(p, "\u{e9}  ");
    assert_eq!(repeat_str("ab", 3), "ababab");
    assert_eq!(join_strings(&vec!["x".to_owned()], ", "), "x");
    assert_eq!(join_strings(&vec!["x".to_owned(), "y".to_owned()], ", "), "x, y");
}
