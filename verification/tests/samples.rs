use camera_control::dart_cli::{add, reverse_string};
use camera_control::rust_math::sort_array;
use camera_control::rust_strings::{to_uppercase, StringBuilder};

#[test]
fn adds() {
    assert_eq!(add(2, 3), 5);
    assert_eq!(add(-7, 7), 0);
    assert_eq!(add(i32::MAX, 0), i32::MAX);
}

#[test]
fn reverses_by_character() {
    assert_eq!(reverse_string(b"hello"), "olleh");
    assert_eq!(reverse_string("añb".as_bytes()), "bña");
    assert_eq!(reverse_string(b""), "");
    // Invalid UTF-8 reads as the empty string.
    assert_eq!(reverse_string(&[0x61, 0xff]), "");
}

#[test]
fn uppercases() {
    assert_eq!(to_uppercase(b"Hello, world"), "HELLO, WORLD");
    assert_eq!(to_uppercase("straße".as_bytes()), "STRASSE");
    assert_eq!(to_uppercase(&[0xc3]), "");
}

#[test]
fn string_builder_counts_and_joins() {
    let mut builder = StringBuilder::new();
    assert_eq!(builder.count(), 0);
    assert_eq!(builder.build(b", "), "");
    builder.append(b"one");
    assert_eq!(builder.build(b", "), "one");
    builder.append(b"two");
    builder.append(&[0xff]);
    builder.append(b"three");
    assert_eq!(builder.count(), 4);
    assert_eq!(builder.build(b", "), "one, two, , three");
    assert_eq!(builder.build(b""), "onetwothree");
}

#[test]
fn sorts_with_the_callers_comparison() {
    let ascending = |a: i32, b: i32| if a < b { -1 } else if a > b { 1 } else { 0 };
    assert_eq!(sort_array(vec![3, -1, 2, 2, 0], ascending), vec![-1, 0, 2, 2, 3]);
    assert_eq!(sort_array(vec![3, -1, 2, 2, 0], |a: i32, b: i32| ascending(b, a)), vec![3, 2, 2, 0, -1]);
    assert_eq!(sort_array(Vec::new(), ascending), Vec::<i32>::new());
}

#[test]
fn sorting_is_stable_for_equivalent_values() {
    // Compare by the tens digit only: 12 and 15 are equivalent and keep their order.
    let by_tens = |a: i32, b: i32| (a / 10) - (b / 10);
    assert_eq!(sort_array(vec![15, 31, 12, 7, 38], by_tens), vec![7, 15, 12, 31, 38]);
}

#[test]
fn sorting_keeps_the_values_even_for_an_inconsistent_comparison() {
    let contrary = |_a: i32, _b: i32| -1;
    let mut sorted = sort_array(vec![4, 1, 3, 1], contrary);
    sorted.sort();
    assert_eq!(sorted, vec![1, 1, 3, 4]);
}
