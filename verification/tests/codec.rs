use piko::codec;

#[test]
fn decodes_single_letters() {
    assert_eq!(codec::to_num("a"), 1);
    assert_eq!(codec::to_num("b"), 2);
    assert_eq!(codec::to_num("z"), 26);
    assert_eq!(codec::to_num(""), 0);
}

#[test]
fn decodes_multi_letter_numerals() {
    assert_eq!(codec::to_num("aa"), 27);
    assert_eq!(codec::to_num("az"), 52);
    assert_eq!(codec::to_num("ba"), 53);
    assert_eq!(codec::to_num("zz"), 702);
}

#[test]
fn encodes_numbers() {
    assert_eq!(codec::from_num(0), "a");
    assert_eq!(codec::from_num(1), "a");
    assert_eq!(codec::from_num(2), "b");
    assert_eq!(codec::from_num(26), "z");
    assert_eq!(codec::from_num(27), "aa");
    assert_eq!(codec::from_num(702), "zz");
    assert_eq!(codec::from_num(703), "aaa");
}

#[test]
fn round_trips_values() {
    for s in ["a", "z", "aa", "piko", "zebra", "qqqqq"] {
        assert_eq!(codec::from_num(codec::to_num(s)), s);
    }
    for n in [1u64, 2, 25, 26, 27, 700, 703, 1_000_000, u64::MAX] {
        assert_eq!(codec::to_num(&codec::from_num(n)), n);
    }
}

#[test]
fn adds_and_multiplies() {
    assert_eq!(codec::add("a", "b"), "c");
    assert_eq!(codec::add("z", "a"), "aa");
    assert_eq!(codec::mul("b", "c"), "f");
    assert_eq!(codec::mul("b", "bb"), "dd");
    assert_eq!(codec::div("f", "c"), "b");
    assert_eq!(codec::div("f", "b"), "c");
}

#[test]
fn add_and_mul_saturate_without_panicking() {
    let big = codec::from_num(u64::MAX);
    let top = codec::from_num(u64::MAX);
    assert_eq!(codec::add(&big, &big), top);
    assert_eq!(codec::mul(&big, "b"), top);
    assert_eq!(codec::add(&big, "a"), top);
    // a string longer than any representable numeral decodes clamped
    let huge = "zzzzzzzzzzzzzzzzzzzz";
    assert_eq!(codec::to_num(huge), u64::MAX);
    assert_eq!(codec::mul(huge, huge), top);
}

#[test]
fn sub_floors_at_identity() {
    assert_eq!(codec::sub("c", "c"), "a");
    assert_eq!(codec::sub("b", "f"), "a");
    assert_eq!(codec::sub("c", "a"), "b");
    assert_eq!(codec::sub("a", "a"), "a");
}

#[test]
fn div_by_zero_decoding_returns_identity() {
    // only the empty string decodes to 0; "a" itself decodes to 1
    assert_eq!(codec::div("c", ""), "a");
    assert_eq!(codec::div("", "b"), "a");
    assert_eq!(codec::div("b", "c"), "a");
    assert_eq!(codec::div("c", "a"), "c");
}

#[test]
fn comparisons_follow_decoded_numbers() {
    assert!(codec::compare_eq("a", "a"));
    assert!(!codec::compare_eq("a", "b"));
    assert!(codec::compare_ne("a", "b"));
    assert!(codec::compare_lt("a", "b"));
    assert!(codec::compare_gt("aa", "z"));
    assert!(codec::compare_le("z", "z"));
    assert!(codec::compare_ge("z", "y"));
    // mirror images
    assert_eq!(codec::compare_lt("d", "e"), codec::compare_gt("e", "d"));
    assert_eq!(codec::compare_le("d", "e"), codec::compare_ge("e", "d"));
}

#[test]
fn classifies_lowercase_strings() {
    assert!(codec::is_lower_str("abc"));
    assert!(codec::is_lower_str(""));
    assert!(!codec::is_lower_str("aBc"));
    assert!(!codec::is_lower_str("ab c"));
    assert!(!codec::is_lower_str("ab1"));
}
