use cnpj_util::checksum::check_sum;

#[test]
fn first_check_digit_of_the_reference_number() {
    let digits = vec![4, 6, 8, 4, 3, 4, 8, 5, 0, 0, 0, 1];
    let weights = vec![5, 4, 3, 2, 9, 8, 7, 6, 5, 4, 3, 2];
    assert_eq!(check_sum(&digits, weights), 8);
}

#[test]
fn second_check_digit_of_the_reference_number() {
    let digits = vec![4, 6, 8, 4, 3, 4, 8, 5, 0, 0, 0, 1, 8];
    let weights = vec![6, 5, 4, 3, 2, 9, 8, 7, 6, 5, 4, 3, 2];
    assert_eq!(check_sum(&digits, weights), 6);
}

#[test]
fn digits_beyond_the_last_weight_do_not_count() {
    let digits = vec![4, 6, 8, 4, 3, 4, 8, 5, 0, 0, 0, 1, 8, 6];
    assert_eq!(check_sum(&digits, vec![5, 4, 3, 2, 9, 8, 7, 6, 5, 4, 3, 2]), 8);
    assert_eq!(check_sum(&digits, vec![6, 5, 4, 3, 2, 9, 8, 7, 6, 5, 4, 3, 2]), 6);
    assert_eq!(check_sum(&digits, vec![5, 4, 3]), 9);
}

#[test]
fn remainder_below_two_gives_zero() {
    // sums 0, 1, 11 and 12 leave the remainders 0, 1, 0 and 1
    assert_eq!(check_sum(&vec![0], vec![7]), 0);
    assert_eq!(check_sum(&vec![1], vec![1]), 0);
    assert_eq!(check_sum(&vec![1], vec![11]), 0);
    assert_eq!(check_sum(&vec![3], vec![4]), 0);
}

#[test]
fn remainder_from_two_on_gives_eleven_minus_remainder() {
    // sums 2 to 10 leave themselves as remainders
    assert_eq!(check_sum(&vec![2], vec![1]), 9);
    assert_eq!(check_sum(&vec![3], vec![1]), 8);
    assert_eq!(check_sum(&vec![4], vec![1]), 7);
    assert_eq!(check_sum(&vec![5], vec![1]), 6);
    assert_eq!(check_sum(&vec![6], vec![1]), 5);
    assert_eq!(check_sum(&vec![7], vec![1]), 4);
    assert_eq!(check_sum(&vec![8], vec![1]), 3);
    assert_eq!(check_sum(&vec![9], vec![1]), 2);
    assert_eq!(check_sum(&vec![5], vec![2]), 1);
    // 4 * 5 + 6 * 4 + 8 * 3 = 68, which leaves 2
    assert_eq!(check_sum(&vec![4, 6, 8], vec![5, 4, 3]), 9);
}

#[test]
fn no_weights_give_zero() {
    assert_eq!(check_sum(&vec![4, 6, 8], Vec::new()), 0);
    assert_eq!(check_sum(&Vec::new(), Vec::new()), 0);
}

#[test]
fn large_weights_are_summed_exactly() {
    // 9 * 4294967295 + 9 * 4294967295 = 77309411310, which leaves 10
    assert_eq!(check_sum(&vec![9, 9], vec![u32::MAX, u32::MAX]), 1);
}

#[test]
fn check_digit_is_a_single_digit() {
    for digit in 0..10u32 {
        for weight in 0..30u32 {
            assert!(check_sum(&vec![digit], vec![weight]) <= 9);
        }
    }
}
