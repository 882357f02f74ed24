use rtree::text::{compare_text, is_hidden, parse_decimal, same_text, Standing};

#[test]
fn compare_text_orders_by_first_difference() {
    assert_eq!(compare_text("abc", "abd"), Standing::Before);
    assert_eq!(compare_text("abd", "abc"), Standing::After);
    assert_eq!(compare_text("abc", "abc"), Standing::Same);
    assert_eq!(compare_text("B", "a"), Standing::Before);
    assert_eq!(compare_text("a", "B"), Standing::After);
}

#[test]
fn compare_text_puts_a_prefix_first() {
    assert_eq!(compare_text("", ""), Standing::Same);
    assert_eq!(compare_text("", "a"), Standing::Before);
    assert_eq!(compare_text("a", ""), Standing::After);
    assert_eq!(compare_text("ab", "abc"), Standing::Before);
    assert_eq!(compare_text("abc", "ab"), Standing::After);
}

#[test]
fn compare_text_goes_by_code_point() {
    assert_eq!(compare_text("z", "é"), Standing::Before);
    assert_eq!(compare_text("é", "日"), Standing::Before);
    assert_eq!(compare_text("日", "😀"), Standing::Before);
    assert_eq!(compare_text("\u{ffff}", "\u{10000}"), Standing::Before);
}

#[test]
fn compare_text_agrees_with_the_standard_order() {
    let samples = ["", "a", "A", "ab", "aB", "b", "é", "日本", "😀", "~", "a\u{ffff}", "a\u{10000}"];
    for a in samples {
        for b in samples {
            let expected = match a.cmp(b) {
                std::cmp::Ordering::Less => Standing::Before,
                std::cmp::Ordering::Equal => Standing::Same,
                std::cmp::Ordering::Greater => Standing::After,
            };
            assert_eq!(compare_text(a, b), expected, "{:?} against {:?}", a, b);
        }
    }
}

#[test]
fn same_text_is_equality() {
    assert!(same_text("--depth", "--depth"));
    assert!(!same_text("--depth", "--dept"));
    assert!(!same_text("-d", "-D"));
    assert!(same_text("", ""));
}

#[test]
fn hidden_names_start_with_a_dot() {
    assert!(is_hidden(".git"));
    assert!(is_hidden("."));
    assert!(is_hidden(".."));
    assert!(!is_hidden("a.b"));
    assert!(!is_hidden(""));
    assert!(!is_hidden("git."));
}

#[test]
fn parse_decimal_reads_digits() {
    assert_eq!(parse_decimal("0"), Some(0));
    assert_eq!(parse_decimal("7"), Some(7));
    assert_eq!(parse_decimal("12"), Some(12));
    assert_eq!(parse_decimal("007"), Some(7));
    assert_eq!(parse_decimal("1234567890"), Some(1234567890));
}

#[test]
fn parse_decimal_takes_one_plus_sign() {
    assert_eq!(parse_decimal("+7"), Some(7));
    assert_eq!(parse_decimal("+0"), Some(0));
    assert_eq!(parse_decimal("++7"), None);
    assert_eq!(parse_decimal("+"), None);
    assert_eq!(parse_decimal("7+"), None);
}

#[test]
fn parse_decimal_refuses_what_is_no_number() {
    assert_eq!(parse_decimal(""), None);
    assert_eq!(parse_decimal("-1"), None);
    assert_eq!(parse_decimal("-0"), None);
    assert_eq!(parse_decimal("1a"), None);
    assert_eq!(parse_decimal("a1"), None);
    assert_eq!(parse_decimal(" 1"), None);
    assert_eq!(parse_decimal("1 "), None);
    assert_eq!(parse_decimal("1_000"), None);
    assert_eq!(parse_decimal("1.5"), None);
    assert_eq!(parse_decimal("١٢"), None);
    assert_eq!(parse_decimal("/"), None);
    assert_eq!(parse_decimal(":"), None);
}

#[test]
fn parse_decimal_stops_at_the_machine_word() {
    let max = usize::MAX.to_string();
    assert_eq!(parse_decimal(&max), Some(usize::MAX));
    let mut over = max.clone();
    over.push('0');
    assert_eq!(parse_decimal(&over), None);
    let last = max.chars().last().unwrap();
    if last != '9' {
        let mut next = max.clone();
        next.pop();
        next.push(char::from_digit(last.to_digit(10).unwrap() + 1, 10).unwrap());
        assert_eq!(parse_decimal(&next), None);
    }
    assert_eq!(parse_decimal("99999999999999999999999999999999999999999"), None);
    assert_eq!(parse_decimal("99999999999999999999999999999999999999999x"), None);
}

#[test]
fn parse_decimal_agrees_with_the_standard_parser() {
    let samples = [
        "", "0", "5", "+5", "-5", "05", "5x", "x", "+", "18446744073709551615",
        "18446744073709551616", "4294967295", "4294967296", "00000000000000000000000001",
    ];
    for s in samples {
        assert_eq!(parse_decimal(s), s.parse::<usize>().ok(), "{:?}", s);
    }
}
