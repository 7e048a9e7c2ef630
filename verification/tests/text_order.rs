use beammm_gui::text::{compare_text, contains_ignoring_case, text_eq, Order};

#[test]
fn compare_text_orders_by_code_point() {
    assert_eq!(compare_text("a", "b"), Order::Less);
    assert_eq!(compare_text("b", "a"), Order::Greater);
    assert_eq!(compare_text("abc", "abc"), Order::Equal);
    assert_eq!(compare_text("", "a"), Order::Less);
    assert_eq!(compare_text("ab", "abc"), Order::Less);
    assert_eq!(compare_text("B", "a"), Order::Less);
}

#[test]
fn reverse_turns_the_relation_round() {
    assert_eq!(Order::Less.reverse(), Order::Greater);
    assert_eq!(Order::Greater.reverse(), Order::Less);
    assert_eq!(Order::Equal.reverse(), Order::Equal);
}

#[test]
fn search_disregards_case() {
    assert!(contains_ignoring_case("Za", "a"));
    assert!(contains_ignoring_case("AB", "a"));
    assert!(contains_ignoring_case("abc", "BC"));
    assert!(!contains_ignoring_case("abc", "d"));
    assert!(!contains_ignoring_case("ab", "ba"));
}

#[test]
fn empty_needle_is_found_everywhere() {
    assert!(contains_ignoring_case("anything", ""));
    assert!(contains_ignoring_case("", ""));
}

#[test]
fn text_eq_compares_characters() {
    assert!(text_eq("car", "car"));
    assert!(!text_eq("car", "Car"));
}
