//! Formatting and validation of CNPJ numbers, the fourteen-digit identifiers
//! of Brazilian companies.
//!
//! A CNPJ is written as fourteen decimal digits, usually shown under the mask
//! `DD.DDD.DDD/DDDD-DD`. Its last two digits are check digits: each is derived
//! from the digits before it by a weighted sum reduced modulo eleven.
//!
//! The crate offers three operations:
//!
//! - [`format`] puts the digits of a text under the mask;
//! - [`reserved_numbers`] lists the numbers made of one repeated digit, which
//!   have the shape of a CNPJ and are never valid;
//! - [`is_valid`] decides whether a text is a valid CNPJ.
//!
//! Throughout, a digit is one of the ten characters `'0'` to `'9'`, and a text
//! is seen as its sequence of characters.
//!
//! The modules hold what the three operations are made of, each with its
//! mathematical model and the laws proved of it: [`digits`] finds and reads
//! digits, [`mask`] describes the mask, [`checksum`] computes check digits, and
//! [`validation`] says what a valid CNPJ is.

use vstd::prelude::*;

pub mod checksum;
pub mod digits;
pub mod mask;
pub mod validation;

use crate::digits::{
    all_digits, concat_digits, digit_char, digit_text, digits_of, extract_digits,
    lemma_digits_of_digits,
};
use crate::mask::{
    formatted, get_separator, leading_digits, lemma_formatted_digits, lemma_formatted_shape,
    masked,
};
use crate::validation::{
    contains, is_reserved, lemma_reserved_is_not_valid, lemma_valid_is_fourteen_digits,
    reserved_number, valid_cnpj, validate,
};

verus! {

/// The number of digits of a CNPJ.
pub const CNPJ_LENGTH: usize = 14;

/// Formats `cnpj` with the CNPJ mask.
///
/// Only the decimal digits of `cnpj` count: every other character is dropped,
/// wherever it stands. Of the digits, the first fourteen are shown and any
/// further one is dropped. Fewer than fourteen digits give the beginning of
/// the mask, up to the last digit.
///
/// So `46843485000186`, `468434850001860000000000` and
/// `46.?ABC843.485/0001-86abc` all give `46.843.485/0001-86`, and `468` gives
/// `46.8`.
pub fn format(cnpj: &str) -> (cnpj_with_mask: String)
    ensures
        cnpj_with_mask@ == formatted(cnpj@),
        cnpj_with_mask@.len() <= 18,
        digits_of(cnpj_with_mask@) == leading_digits(cnpj@),
{
    proof {
        lemma_formatted_shape(cnpj@);
        lemma_formatted_digits(cnpj@);
    }
    let cnpj = extract_digits(cnpj);
    let shown: usize = if cnpj.len() < CNPJ_LENGTH {
        cnpj.len()
    } else {
        CNPJ_LENGTH
    };
    let ghost leading = cnpj@.take(shown as int);
    let mut cnpj_with_mask = String::new();
    let mut x: usize = 0;
    while x < shown
        invariant
            x <= shown <= cnpj@.len(),
            all_digits(cnpj@),
            leading == cnpj@.take(shown as int),
            cnpj_with_mask@ == masked(leading.take(x as int)),
        decreases shown - x,
    {
        proof {
            assert(leading.take(x + 1).drop_last() =~= leading.take(x as int));
        }
        cnpj_with_mask.append(get_separator(x));
        cnpj_with_mask.append(digit_text(cnpj[x]));
        proof {
            assert(cnpj_with_mask@ =~= masked(leading.take(x + 1)));
        }
        x += 1;
    }
    proof {
        assert(leading.take(shown as int) =~= leading);
        assert(cnpj@.take(cnpj@.len() as int) =~= cnpj@);
    }
    cnpj_with_mask
}

/// The ten reserved numbers, from `00000000000000` to `99999999999999`. Each
/// has the shape of a CNPJ, and none is valid.
pub fn reserved_numbers() -> (numbers: Vec<String>)
    ensures
        numbers@.len() == 10,
        forall|value: int|
            0 <= value < 10 ==> (#[trigger] numbers@[value])@ == reserved_number(value as nat),
        forall|value: int| 0 <= value < 10 ==> !valid_cnpj((#[trigger] numbers@[value])@),
{
    proof {
        assert forall|value: nat| value <= 9 implies !valid_cnpj(
            #[trigger] reserved_number(value),
        ) by {
            lemma_reserved_is_not_valid(digit_char(value));
        }
        reveal_strlit("00000000000000");
        reveal_strlit("11111111111111");
        reveal_strlit("22222222222222");
        reveal_strlit("33333333333333");
        reveal_strlit("44444444444444");
        reveal_strlit("55555555555555");
        reveal_strlit("66666666666666");
        reveal_strlit("77777777777777");
        reveal_strlit("88888888888888");
        reveal_strlit("99999999999999");
        assert("00000000000000"@ =~= reserved_number(0));
        assert("11111111111111"@ =~= reserved_number(1));
        assert("22222222222222"@ =~= reserved_number(2));
        assert("33333333333333"@ =~= reserved_number(3));
        assert("44444444444444"@ =~= reserved_number(4));
        assert("55555555555555"@ =~= reserved_number(5));
        assert("66666666666666"@ =~= reserved_number(6));
        assert("77777777777777"@ =~= reserved_number(7));
        assert("88888888888888"@ =~= reserved_number(8));
        assert("99999999999999"@ =~= reserved_number(9));
    }
    vec![
        "00000000000000".to_owned(),
        "11111111111111".to_owned(),
        "22222222222222".to_owned(),
        "33333333333333".to_owned(),
        "44444444444444".to_owned(),
        "55555555555555".to_owned(),
        "66666666666666".to_owned(),
        "77777777777777".to_owned(),
        "88888888888888".to_owned(),
        "99999999999999".to_owned(),
    ]
}

/// Tells whether `cnpj` is a valid CNPJ.
///
/// The text has to be the bare number: exactly fourteen characters, each a
/// decimal digit. A text of another length is not valid, even where it holds
/// fourteen digits among other characters, as a masked number does. A text of
/// fourteen characters that are not all digits is not valid either: it is
/// answered with `false`, never with a failure.
///
/// So `46843485000186` is valid, and `46.843.485/0001-86`, `11257245286531`,
/// `00000000000000` and the empty text are not.
pub fn is_valid(cnpj: &str) -> (valid: bool)
    ensures
        valid == valid_cnpj(cnpj@),
        valid ==> cnpj@.len() == CNPJ_LENGTH && all_digits(cnpj@),
{
    proof {
        if valid_cnpj(cnpj@) {
            lemma_valid_is_fourteen_digits(cnpj@);
        }
    }
    if cnpj.unicode_len() != CNPJ_LENGTH {
        return false;
    }
    let cnpj = concat_digits(&extract_digits(cnpj));
    let reserved = reserved_numbers();
    proof {
        lemma_digits_of_digits(cnpj@);
        if is_reserved(cnpj@) {
            let value = choose|value: nat| value <= 9 && cnpj@ == #[trigger] reserved_number(value);
            assert(reserved@[value as int]@ == cnpj@);
        }
    }
    !contains(&reserved, &cnpj) && !cnpj.as_str().is_empty() && validate(cnpj)
}

} // verus!
