use boolean_evaluator::{adder, grey_code, multiplier, swap_char};

#[test]
fn test_adder() {
    assert_eq!(adder(5, 6), 11);
}

#[test]
fn test_multiplier() {
    assert_eq!(multiplier(5, 6), 30);
}

#[test]
fn test_grey_code() {
    assert_eq!(grey_code(14), 9);
}

#[test]
fn adder_drops_the_carry_out_of_the_top_bit() {
    assert_eq!(adder(u32::MAX, 1), 0);
    assert_eq!(adder(u32::MAX, u32::MAX), u32::MAX - 1);
    assert_eq!(adder(0, 0), 0);
    assert_eq!(adder(0x8000_0000, 0x8000_0000), 0);
}

#[test]
fn multiplier_by_zero_and_one() {
    assert_eq!(multiplier(0, 5), 0);
    assert_eq!(multiplier(5, 0), 0);
    assert_eq!(multiplier(7, 1), 7);
    assert_eq!(multiplier(1, 7), 7);
}

#[test]
fn multiplier_keeps_the_low_thirty_two_bits() {
    assert_eq!(multiplier(0x8000_0000, 2), 0);
    assert_eq!(multiplier(0x1_0001, 0x1_0001), 0x2_0001);
    assert_eq!(multiplier(u32::MAX, u32::MAX), 1);
    assert_eq!(multiplier(123_456, 7_890), 123_456u32.wrapping_mul(7_890));
}

#[test]
fn grey_code_of_the_first_words() {
    let codes: Vec<u32> = (0..8).map(grey_code).collect();
    assert_eq!(codes, vec![0, 1, 3, 2, 6, 7, 5, 4]);
}

#[test]
fn grey_code_neighbours_differ_in_one_bit() {
    for n in 0..1000u32 {
        assert_eq!((grey_code(n) ^ grey_code(n + 1)).count_ones(), 1);
    }
}

#[test]
fn test_swap_char_valid_index() {
    let mut s = String::from("hello");
    assert_eq!(swap_char(&mut s, 1, 'a'), Ok(()));
    assert_eq!(s, "hallo");
}

#[test]
fn test_swap_char_out_of_bounds() {
    let mut s = String::from("hello");
    assert!(swap_char(&mut s, 10, 'a').is_err());
}

#[test]
fn test_swap_char_empty_string() {
    let mut s = String::from("");
    assert!(swap_char(&mut s, 0, 'a').is_err());
}

#[test]
fn test_swap_char_replace_with_multibyte_char() {
    let mut s = String::from("hello");
    assert_eq!(swap_char(&mut s, 1, '😊'), Ok(()));
    assert_eq!(s, "h😊llo");
}

#[test]
fn test_swap_char_replace_multibyte_char() {
    let mut s = String::from("h😊llo");
    assert_eq!(swap_char(&mut s, 1, 'a'), Ok(()));
    assert_eq!(s, "hallo");
}

#[test]
fn test_swap_char_replace_last_char() {
    let mut s = String::from("hello");
    assert_eq!(swap_char(&mut s, 4, 'z'), Ok(()));
    assert_eq!(s, "hellz");
}

#[test]
fn swap_char_out_of_bounds_says_index_and_length() {
    let mut s = String::from("hello");
    assert_eq!(
        swap_char(&mut s, 10, 'a'),
        Err(String::from("Index 10 out of bounds for string of length 5"))
    );
    assert_eq!(s, "hello");
    assert_eq!(
        swap_char(&mut s, 5, 'a'),
        Err(String::from("Index 5 out of bounds for string of length 5"))
    );
    let mut empty = String::new();
    assert_eq!(
        swap_char(&mut empty, 0, 'a'),
        Err(String::from("Index 0 out of bounds for string of length 0"))
    );
    assert_eq!(
        swap_char(&mut s, 1234567890, 'a'),
        Err(String::from("Index 1234567890 out of bounds for string of length 5"))
    );
}

#[test]
fn swap_char_replaces_the_first_character() {
    let mut s = String::from("hello");
    assert_eq!(swap_char(&mut s, 0, 'j'), Ok(()));
    assert_eq!(s, "jello");
}
