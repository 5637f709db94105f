use cnpj_util::digits::{
    concat_digits, digit_text, extract_digits, is_decimal_digit, parse_digit, parse_digits,
};

#[test]
fn decimal_digits_are_the_ten_ascii_digits() {
    for c in "0123456789".chars() {
        assert!(is_decimal_digit(c));
    }
    assert!(!is_decimal_digit('/'));
    assert!(!is_decimal_digit(':'));
    assert!(!is_decimal_digit('a'));
    assert!(!is_decimal_digit(' '));
    assert!(!is_decimal_digit('\u{0663}'));
    assert!(!is_decimal_digit('\u{00bd}'));
}

#[test]
fn extraction_keeps_digits_in_order() {
    assert_eq!(extract_digits("46.?ABC843.485/0001-86abc"), vec![
        '4', '6', '8', '4', '3', '4', '8', '5', '0', '0', '0', '1', '8', '6'
    ]);
    assert_eq!(extract_digits("a1b2c3"), vec!['1', '2', '3']);
    assert_eq!(extract_digits("9 8 7"), vec!['9', '8', '7']);
}

#[test]
fn extraction_of_text_without_digits_is_empty() {
    assert_eq!(extract_digits(""), Vec::<char>::new());
    assert_eq!(extract_digits("ababcabcabcdab"), Vec::<char>::new());
    assert_eq!(extract_digits("./-"), Vec::<char>::new());
}

#[test]
fn extraction_drops_characters_beyond_ascii() {
    assert_eq!(extract_digits("4\u{00e9}6\u{0663}8"), vec!['4', '6', '8']);
}

#[test]
fn extraction_of_digits_changes_nothing() {
    let digits = extract_digits("46843485000186");
    assert_eq!(concat_digits(&digits), "46843485000186");
    assert_eq!(extract_digits(&concat_digits(&digits)), digits);
}

#[test]
fn each_digit_is_read_as_its_number() {
    let mut expected: u32 = 0;
    for c in "0123456789".chars() {
        assert_eq!(parse_digit(c), expected);
        expected += 1;
    }
}

#[test]
fn digits_are_read_position_by_position() {
    assert_eq!(parse_digits(&vec!['4', '6', '8', '0', '9']), vec![4, 6, 8, 0, 9]);
    assert_eq!(parse_digits(&Vec::new()), Vec::<u32>::new());
}

#[test]
fn each_digit_is_written_as_one_character() {
    assert_eq!(digit_text('0'), "0");
    assert_eq!(digit_text('1'), "1");
    assert_eq!(digit_text('2'), "2");
    assert_eq!(digit_text('3'), "3");
    assert_eq!(digit_text('4'), "4");
    assert_eq!(digit_text('5'), "5");
    assert_eq!(digit_text('6'), "6");
    assert_eq!(digit_text('7'), "7");
    assert_eq!(digit_text('8'), "8");
    assert_eq!(digit_text('9'), "9");
}

#[test]
fn digits_are_written_one_after_the_other() {
    assert_eq!(concat_digits(&vec!['0', '1', '9']), "019");
    assert_eq!(concat_digits(&Vec::new()), "");
}
