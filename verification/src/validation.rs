//! What makes a CNPJ valid: its length, the reserved numbers, and the two
//! check digits.

use crate::checksum::{
    as_nats, check_digit, check_sum, lemma_partial_sum_agrees, partial_sum, weighted_sum,
};
use crate::digits::{
    all_digits, digit_char, digit_value, digit_values, digits_of, extract_digits, is_digit,
    lemma_digits_of_all_digits, lemma_digits_of_digits, lemma_digits_of_full_length,
    lemma_digits_of_no_digits, parse_digits,
};
use crate::mask::{formatted, full_mask, lemma_formatted_truncates};
use crate::CNPJ_LENGTH;
use vstd::prelude::*;

verus! {

/// The identifier made of the digit that stands for `value`, fourteen times.
pub open spec fn reserved_number(value: nat) -> Seq<char>
    recommends
        value <= 9,
{
    Seq::new(CNPJ_LENGTH as nat, |i: int| digit_char(value))
}

/// Whether `digits` is one of the ten reserved numbers: a single digit,
/// repeated fourteen times.
pub open spec fn is_reserved(digits: Seq<char>) -> bool {
    exists|value: nat| value <= 9 && digits == #[trigger] reserved_number(value)
}

/// The weights under which the first twelve digits give the first check
/// digit.
pub open spec fn first_weights() -> Seq<nat> {
    seq![5, 4, 3, 2, 9, 8, 7, 6, 5, 4, 3, 2]
}

/// The weights under which the first thirteen digits give the second check
/// digit.
pub open spec fn second_weights() -> Seq<nat> {
    seq![6, 5, 4, 3, 2, 9, 8, 7, 6, 5, 4, 3, 2]
}

/// The check digit that the first twelve digits of `digits` call for at the
/// thirteenth place.
pub open spec fn first_check_digit(digits: Seq<char>) -> nat
    recommends
        digits.len() >= 12,
        all_digits(digits),
{
    check_digit(weighted_sum(digit_values(digits), first_weights()))
}

/// The check digit that the first thirteen digits of `digits` call for at the
/// fourteenth place. The thirteenth digit enters as it stands in `digits`.
pub open spec fn second_check_digit(digits: Seq<char>) -> nat
    recommends
        digits.len() >= 13,
        all_digits(digits),
{
    check_digit(weighted_sum(digit_values(digits), second_weights()))
}

/// Whether `digits` holds at least fourteen digits of which the thirteenth
/// and the fourteenth are the check digits of those before them.
pub open spec fn check_digits_match(digits: Seq<char>) -> bool
    recommends
        all_digits(digits),
{
    &&& digits.len() >= CNPJ_LENGTH
    &&& first_check_digit(digits) == digit_value(digits[12])
    &&& second_check_digit(digits) == digit_value(digits[13])
}

/// Whether `text` is a valid CNPJ:
/// it is fourteen characters long, its digits are not a reserved number, and
/// among them the two check digits are those that the others call for.
pub open spec fn valid_cnpj(text: Seq<char>) -> bool {
    &&& text.len() == CNPJ_LENGTH
    &&& digits_of(text).len() > 0
    &&& !is_reserved(digits_of(text))
    &&& check_digits_match(digits_of(text))
}

/// Tells whether `number` is one of `numbers`.
pub fn contains(numbers: &Vec<String>, number: &String) -> (found: bool)
    ensures
        found == exists|i: int| 0 <= i < numbers@.len() && (#[trigger] numbers@[i])@ == number@,
{
    let mut i: usize = 0;
    while i < numbers.len()
        invariant
            i <= numbers.len(),
            forall|j: int| 0 <= j < i ==> (#[trigger] numbers@[j])@ != number@,
        decreases numbers.len() - i,
    {
        if numbers[i] == *number {
            return true;
        }
        i += 1;
    }
    false
}

/// Checks the two check digits of `cnpj`, read as its decimal digits in
/// order. Fewer than fourteen digits never pass; of more than fourteen, the
/// first fourteen are checked.
pub fn validate(cnpj: String) -> (valid: bool)
    ensures
        valid == check_digits_match(digits_of(cnpj@)),
{
    let cnpj = extract_digits(cnpj.as_str());
    if cnpj.len() < CNPJ_LENGTH {
        return false;
    }
    let ghost digits = cnpj@;
    let cnpj = parse_digits(&cnpj);
    proof {
        assert(as_nats(cnpj@) =~= digit_values(digits));
    }

    let factors: Vec<u32> = vec![5, 4, 3, 2, 9, 8, 7, 6, 5, 4, 3, 2];
    proof {
        assert(as_nats(factors@) =~= first_weights());
    }
    let digito_1: u32 = check_sum(&cnpj, factors);

    let factors: Vec<u32> = vec![6, 5, 4, 3, 2, 9, 8, 7, 6, 5, 4, 3, 2];
    proof {
        assert(as_nats(factors@) =~= second_weights());
    }
    let digito_2: u32 = check_sum(&cnpj, factors);

    digito_1 == cnpj[CNPJ_LENGTH - 2] && digito_2 == cnpj[CNPJ_LENGTH - 1]
}

/// A reserved number is a digit, repeated fourteen times, and every such text
/// is a reserved number.
pub proof fn lemma_reserved_shape(digits: Seq<char>)
    ensures
        is_reserved(digits) <==> ({
            &&& digits.len() == CNPJ_LENGTH
            &&& is_digit(digits[0])
            &&& forall|i: int| 0 <= i < digits.len() ==> #[trigger] digits[i] == digits[0]
        }),
{
    if is_reserved(digits) {
        let value = choose|value: nat| value <= 9 && digits == #[trigger] reserved_number(value);
        assert(digits[0] == digit_char(value));
    }
    if digits.len() == CNPJ_LENGTH && is_digit(digits[0]) && forall|i: int|
        0 <= i < digits.len() ==> #[trigger] digits[i] == digits[0] {
        let value = digit_value(digits[0]);
        assert(digit_char(value) == digits[0]);
        assert(digits =~= reserved_number(value));
    }
}

/// The first check digit depends on the first twelve digits only, and the
/// second on the first thirteen.
pub proof fn lemma_check_digits_of_prefix(digits: Seq<char>)
    requires
        digits.len() >= 13,
    ensures
        first_check_digit(digits) == first_check_digit(digits.take(12)),
        second_check_digit(digits) == second_check_digit(digits.take(13)),
{
    lemma_partial_sum_agrees(
        digit_values(digits),
        first_weights(),
        digit_values(digits.take(12)),
        first_weights(),
        12,
    );
    lemma_partial_sum_agrees(
        digit_values(digits),
        second_weights(),
        digit_values(digits.take(13)),
        second_weights(),
        13,
    );
}

/// The two check digits, with their weighted sums written out term by term.
pub proof fn lemma_check_digit_formulas(digits: Seq<char>)
    requires
        digits.len() >= 13,
    ensures
        first_check_digit(digits) == check_digit(
            5 * digit_value(digits[0]) + 4 * digit_value(digits[1])
                + 3 * digit_value(digits[2]) + 2 * digit_value(digits[3])
                + 9 * digit_value(digits[4]) + 8 * digit_value(digits[5])
                + 7 * digit_value(digits[6]) + 6 * digit_value(digits[7])
                + 5 * digit_value(digits[8]) + 4 * digit_value(digits[9])
                + 3 * digit_value(digits[10]) + 2 * digit_value(digits[11]),
        ),
        second_check_digit(digits) == check_digit(
            6 * digit_value(digits[0]) + 5 * digit_value(digits[1])
                + 4 * digit_value(digits[2]) + 3 * digit_value(digits[3])
                + 2 * digit_value(digits[4]) + 9 * digit_value(digits[5])
                + 8 * digit_value(digits[6]) + 7 * digit_value(digits[7])
                + 6 * digit_value(digits[8]) + 5 * digit_value(digits[9])
                + 4 * digit_value(digits[10]) + 3 * digit_value(digits[11])
                + 2 * digit_value(digits[12]),
        ),
{
    reveal_with_fuel(partial_sum, 14);
}

/// No reserved number is valid: a digit repeated fourteen times is never a
/// valid CNPJ.
pub proof fn lemma_reserved_is_not_valid(digit: char)
    requires
        is_digit(digit),
    ensures
        is_reserved(Seq::new(CNPJ_LENGTH as nat, |i: int| digit)),
        !valid_cnpj(Seq::new(CNPJ_LENGTH as nat, |i: int| digit)),
        !valid_cnpj(reserved_number(digit_value(digit))),
{
    let text = Seq::new(CNPJ_LENGTH as nat, |i: int| digit);
    assert(digit_char(digit_value(digit)) == digit);
    assert(text =~= reserved_number(digit_value(digit)));
    lemma_digits_of_digits(text);
}

/// A text that is not exactly fourteen characters long is not valid.
pub proof fn lemma_wrong_length_is_not_valid(text: Seq<char>)
    requires
        text.len() != CNPJ_LENGTH,
    ensures
        !valid_cnpj(text),
{
}

/// A valid text is made of fourteen digits and of nothing else.
pub proof fn lemma_valid_is_fourteen_digits(text: Seq<char>)
    requires
        valid_cnpj(text),
    ensures
        text.len() == CNPJ_LENGTH,
        all_digits(text),
        digits_of(text) == text,
{
    lemma_digits_of_all_digits(text);
    lemma_digits_of_full_length(text);
}

/// A text that holds a character that is no digit is not valid.
pub proof fn lemma_non_digit_is_not_valid(text: Seq<char>, at: int)
    requires
        0 <= at < text.len(),
        !is_digit(text[at]),
    ensures
        !valid_cnpj(text),
{
    if valid_cnpj(text) {
        lemma_valid_is_fourteen_digits(text);
    }
}

/// A text without any digit, such as one of letters and symbols only, is not
/// valid.
pub proof fn lemma_without_digits_is_not_valid(text: Seq<char>)
    requires
        forall|i: int| 0 <= i < text.len() ==> !is_digit(#[trigger] text[i]),
    ensures
        !valid_cnpj(text),
{
    lemma_digits_of_no_digits(text);
}

/// A text is valid exactly when it is fourteen digits that are not all the
/// same and of which the last two are the check digits of those before them.
pub proof fn lemma_valid_cnpj_by_digits(text: Seq<char>)
    ensures
        valid_cnpj(text) <==> ({
            &&& text.len() == CNPJ_LENGTH
            &&& all_digits(text)
            &&& !is_reserved(text)
            &&& first_check_digit(text.take(12)) == digit_value(text[12])
            &&& second_check_digit(text.take(13)) == digit_value(text[13])
        }),
{
    if valid_cnpj(text) {
        lemma_valid_is_fourteen_digits(text);
        lemma_check_digits_of_prefix(text);
    }
    if text.len() == CNPJ_LENGTH && all_digits(text) {
        lemma_digits_of_digits(text);
        lemma_check_digits_of_prefix(text);
    }
}

/// A valid number survives formatting. Where the digits of a text are a
/// valid number, the text is formatted as that number under the whole mask,
/// and the digits of the formatted text are the same fourteen digits, which
/// are valid again.
pub proof fn lemma_valid_survives_format(text: Seq<char>)
    requires
        valid_cnpj(digits_of(text)),
    ensures
        formatted(text) == full_mask(digits_of(text)),
        formatted(digits_of(text)) == formatted(text),
        digits_of(formatted(text)) == digits_of(text),
        valid_cnpj(digits_of(formatted(text))),
{
    let digits = digits_of(text);
    lemma_digits_of_all_digits(text);
    lemma_digits_of_digits(digits);
    lemma_formatted_truncates(text);
    assert(digits.take(CNPJ_LENGTH as int) =~= digits);
}

} // verus!
