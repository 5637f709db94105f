use cnpj_util::digits::extract_digits;
use cnpj_util::mask::get_separator;

#[test]
fn separators_stand_before_the_third_sixth_ninth_and_thirteenth_digit() {
    assert_eq!(get_separator(0), "");
    assert_eq!(get_separator(1), "");
    assert_eq!(get_separator(2), ".");
    assert_eq!(get_separator(3), "");
    assert_eq!(get_separator(4), "");
    assert_eq!(get_separator(5), ".");
    assert_eq!(get_separator(6), "");
    assert_eq!(get_separator(7), "");
    assert_eq!(get_separator(8), "/");
    assert_eq!(get_separator(9), "");
    assert_eq!(get_separator(10), "");
    assert_eq!(get_separator(11), "");
    assert_eq!(get_separator(12), "-");
    assert_eq!(get_separator(13), "");
    assert_eq!(get_separator(14), "");
    assert_eq!(get_separator(usize::MAX), "");
}

#[test]
fn empty_text_is_formatted_as_empty_text() {
    assert_eq!(cnpj_util::format(""), "");
}

#[test]
fn text_without_digits_is_formatted_as_empty_text() {
    assert_eq!(cnpj_util::format("ababcabcabcdab"), "");
    assert_eq!(cnpj_util::format("../-"), "");
}

#[test]
fn no_separator_is_written_behind_the_last_digit() {
    assert_eq!(cnpj_util::format("46"), "46");
    assert_eq!(cnpj_util::format("46843"), "46.843");
    assert_eq!(cnpj_util::format("46843485"), "46.843.485");
    assert_eq!(cnpj_util::format("468434850001"), "46.843.485/0001");
    let digits = "468434850001860000";
    for count in 1..digits.len() {
        let formatted = cnpj_util::format(&digits[..count]);
        assert!(formatted.chars().last().unwrap().is_ascii_digit());
    }
}

#[test]
fn formatted_text_is_at_most_eighteen_characters_long() {
    assert_eq!(cnpj_util::format("46843485000186").len(), 18);
    assert_eq!(cnpj_util::format("468434850001869999999").len(), 18);
    assert_eq!(cnpj_util::format("4684348500018").len(), 17);
    assert_eq!(cnpj_util::format("468").len(), 4);
}

#[test]
fn more_than_fourteen_digits_give_the_whole_mask_of_the_first_fourteen() {
    assert_eq!(cnpj_util::format("468434850001861"), "46.843.485/0001-86");
    assert_eq!(cnpj_util::format("00000000000000000000000000"), "00.000.000/0000-00");
    assert_eq!(cnpj_util::format("12345678901234567890"), "12.345.678/9012-34");
    assert_eq!(
        extract_digits(&cnpj_util::format("12345678901234567890")).len(),
        14
    );
}

#[test]
fn characters_that_are_no_digits_are_dropped_wherever_they_stand() {
    assert_eq!(cnpj_util::format("x46843485000186"), "46.843.485/0001-86");
    assert_eq!(cnpj_util::format("46843485000186x"), "46.843.485/0001-86");
    assert_eq!(cnpj_util::format("4684348x5000186"), "46.843.485/0001-86");
    assert_eq!(cnpj_util::format(" 4 6 8 "), "46.8");
    assert_eq!(cnpj_util::format("4\u{00e9}6\u{0663}8"), "46.8");
}

#[test]
fn formatting_a_formatted_text_changes_nothing() {
    for text in ["", "4", "468", "46843485", "46843485000186", "468434850001860000", "a1b2c3d4"] {
        let once = cnpj_util::format(text);
        assert_eq!(cnpj_util::format(&once), once);
    }
}

#[test]
fn formatting_keeps_the_leading_digits() {
    assert_eq!(
        extract_digits(&cnpj_util::format("46843485000186")),
        extract_digits("46843485000186")
    );
    assert_eq!(
        extract_digits(&cnpj_util::format("4a6b8")),
        vec!['4', '6', '8']
    );
    assert_eq!(
        extract_digits(&cnpj_util::format("468434850001869")),
        extract_digits("46843485000186")
    );
}
