use blog_app::order::put_in_order;
use blog_app::text::{
    chars_of, decimal, digit_char, grouped, percent, push_text, ratio_nearest_even, same_text,
    tenths, to_nearest_even, to_nearest_up, wide_decimal,
};

#[test]
fn a_number_is_written_in_decimal() {
    assert_eq!(decimal(0), "0");
    assert_eq!(decimal(10), "10");
    assert_eq!(decimal(u64::MAX), u64::MAX.to_string());
    assert_eq!(wide_decimal(u128::MAX), u128::MAX.to_string());
    assert_eq!(digit_char(7), '7');
}

#[test]
fn thousands_are_separated() {
    assert_eq!(grouped(0), "0");
    assert_eq!(grouped(999), "999");
    assert_eq!(grouped(1_000), "1,000");
    assert_eq!(grouped(1_002_003), "1,002,003");
}

#[test]
fn a_tie_is_rounded_as_it_is_written() {
    assert_eq!(to_nearest_even(25, 10), 2);
    assert_eq!(to_nearest_even(35, 10), 4);
    assert_eq!(to_nearest_even(26, 10), 3);
    assert_eq!(to_nearest_up(25, 10), 3);
    assert_eq!(to_nearest_up(24, 10), 2);
    assert_eq!(ratio_nearest_even(1, 8), 0);
    assert_eq!(ratio_nearest_even(7, 2), 4);
    assert_eq!(ratio_nearest_even(5, 2), 2);
}

#[test]
fn a_share_is_written_to_two_places() {
    assert_eq!(percent(1, 3), "33.33%");
    assert_eq!(percent(0, 7), "0.00%");
    assert_eq!(percent(9, 4), "225.00%");
    assert_eq!(tenths(5), "0.5");
    assert_eq!(tenths(1234), "123.4");
}

#[test]
fn text_is_compared_character_for_character() {
    assert!(same_text("é–a", "é–a"));
    assert!(!same_text("é", "e"));
    assert!(!same_text("ab", "abc"));
    assert_eq!(chars_of("aé"), vec!['a', 'é']);
    let mut s = "x".to_string();
    push_text(&mut s, "yz");
    assert_eq!(s, "xyz");
}

#[test]
fn readings_are_put_in_order() {
    assert_eq!(put_in_order(&vec![3u64, 1, 2, 1]), vec![1, 1, 2, 3]);
    assert_eq!(put_in_order::<u64>(&vec![]), vec![]);
}
