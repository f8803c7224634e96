use iceberg_planner::text::{
    comes_before, decimal, join_texts, parse_i32, prefix_with_field_name, same_text, signed_decimal,
};

fn strings(parts: &[&str]) -> Vec<String> {
    parts.iter().map(|part| part.to_string()).collect()
}

#[test]
fn paths_are_joined_with_dots() {
    for path in ["", ".", "a", "a.b", "a..b", ".a.", "outer.b.c", "\u{e9}.\u{20ac}x"] {
        let parts: Vec<String> = path.split('.').map(|part| part.to_string()).collect();
        assert_eq!(prefix_with_field_name(&parts[0], &parts[1..].to_vec()), path);
    }
    assert_eq!(prefix_with_field_name("outer", &strings(&["b", "c"])), "outer.b.c");
    assert_eq!(prefix_with_field_name("outer", &vec![]), "outer");
    assert_eq!(prefix_with_field_name("a", &strings(&["b.c"])), "a.b.c");
}

#[test]
fn strings_are_joined_with_a_separator() {
    assert_eq!(join_texts(&vec![], ","), "");
    assert_eq!(join_texts(&strings(&["a"]), ","), "a");
    assert_eq!(join_texts(&strings(&["a", "", "b"]), ", "), "a, , b");
}

#[test]
fn integers_are_parsed_as_std_parses_them() {
    for text in [
        "", "+", "-", "0", "-0", "+7", "007", "42", "-42", "2147483647", "2147483648",
        "-2147483648", "-2147483649", "99999999999999999999", "1 ", " 1", "1.0", "--1", "+-1", "a",
        "1a", "0000000000000000000000000000012", "\u{661}",
    ] {
        assert_eq!(parse_i32(text), text.parse::<i32>().ok(), "{text:?}");
    }
}

#[test]
fn numbers_are_written_as_std_writes_them() {
    for n in [0, 1, 9, 10, 11, 99, 100, 101, 1050, 65536, 9876543210, usize::MAX] {
        assert_eq!(decimal(n), n.to_string());
    }
}

#[test]
fn negative_numbers_are_written_with_a_sign() {
    for n in [0, 7, -7, 10, -10, 2147483647, -2147483648] {
        assert_eq!(signed_decimal(n), n.to_string());
    }
}

#[test]
fn strings_are_ordered_as_std_orders_them() {
    let texts = ["", "a", "ab", "b", "B", "aa", "\u{e9}", "\u{ffff}", "\u{1f600}", "z\u{0}"];
    for a in texts {
        for b in texts {
            assert_eq!(comes_before(a, b), a < b, "{a:?} {b:?}");
        }
    }
}

#[test]
fn texts_are_compared_by_content() {
    assert!(same_text("a", "a") && !same_text("a", "b") && !same_text("a", "ab"));
}
