//! The mask `DD.DDD.DDD/DDDD-DD` under which a CNPJ is shown.

use crate::digits::{
    all_digits, digits_of, is_digit, lemma_digits_of_all_digits, lemma_digits_of_concat,
    lemma_digits_of_digits, lemma_digits_of_empty, lemma_digits_of_insert, lemma_digits_of_push,
};
use crate::CNPJ_LENGTH;
use vstd::prelude::*;

verus! {

/// What the mask puts in front of the digit at `position`: a dot before the
/// third and the sixth digit, a slash before the ninth, a hyphen before the
/// thirteenth, and nothing before any other.
pub open spec fn separator(position: int) -> Seq<char> {
    if position == 2 || position == 5 {
        seq!['.']
    } else if position == 8 {
        seq!['/']
    } else if position == 12 {
        seq!['-']
    } else {
        Seq::empty()
    }
}

/// The number of separators in the mask of `count` digits: one for each of
/// the positions 2, 5, 8 and 12 at which a digit stands.
pub open spec fn separators_before(count: nat) -> nat {
    (if count > 2 { 1nat } else { 0 }) + (if count > 5 { 1nat } else { 0 })
        + (if count > 8 { 1nat } else { 0 }) + (if count > 12 { 1nat } else { 0 })
}

/// `digits` under the mask: every digit in turn, each behind its separator.
pub open spec fn masked(digits: Seq<char>) -> Seq<char>
    decreases digits.len(),
{
    if digits.len() == 0 {
        Seq::empty()
    } else {
        masked(digits.drop_last()) + separator(digits.len() - 1).push(digits.last())
    }
}

/// The digits of `text` that the mask has room for: the first fourteen, or
/// all of them where there are fewer.
pub open spec fn leading_digits(text: Seq<char>) -> Seq<char> {
    let digits = digits_of(text);
    if digits.len() <= CNPJ_LENGTH {
        digits
    } else {
        digits.take(CNPJ_LENGTH as int)
    }
}

/// `text` as a masked CNPJ: its leading digits under the mask.
pub open spec fn formatted(text: Seq<char>) -> Seq<char> {
    masked(leading_digits(text))
}

/// Fourteen digits under the mask, written out: `DD.DDD.DDD/DDDD-DD`.
pub open spec fn full_mask(digits: Seq<char>) -> Seq<char>
    recommends
        digits.len() >= CNPJ_LENGTH,
{
    seq![
        digits[0],
        digits[1],
        '.',
        digits[2],
        digits[3],
        digits[4],
        '.',
        digits[5],
        digits[6],
        digits[7],
        '/',
        digits[8],
        digits[9],
        digits[10],
        digits[11],
        '-',
        digits[12],
        digits[13],
    ]
}

/// Whether `c` is one of the three characters that the mask puts between
/// digits.
pub open spec fn is_separator(c: char) -> bool {
    c == '.' || c == '/' || c == '-'
}

/// The separator that goes in front of the digit at position `x`.
pub fn get_separator(x: usize) -> (separator_text: &'static str)
    ensures
        separator_text@ == separator(x as int),
{
    proof {
        reveal_strlit(".");
        reveal_strlit("/");
        reveal_strlit("-");
        reveal_strlit("");
    }
    let separator_text = match x {
        2 | 5 => ".",
        8 => "/",
        12 => "-",
        _ => "",
    };
    assert(separator_text@ =~= separator(x as int));
    separator_text
}

/// Masking one digit more appends that digit, behind its separator, to the
/// mask of the digits before it.
pub proof fn lemma_mask_step(digits: Seq<char>, count: int)
    requires
        0 <= count < digits.len(),
    ensures
        masked(digits.take(count + 1)) == masked(digits.take(count)) + separator(count).push(
            digits[count],
        ),
{
    assert(digits.take(count + 1).drop_last() =~= digits.take(count));
}

/// The mask of fewer digits is the beginning of the mask of more digits: a
/// digit's place under the mask does not depend on how many digits follow.
pub proof fn lemma_mask_prefix(digits: Seq<char>, count: int)
    requires
        0 <= count <= digits.len(),
    ensures
        masked(digits.take(count)).len() <= masked(digits).len(),
        masked(digits.take(count)) == masked(digits).take(masked(digits.take(count)).len() as int),
    decreases digits.len() - count,
{
    if count == digits.len() {
        assert(digits.take(count) =~= digits);
        assert(masked(digits).take(masked(digits).len() as int) =~= masked(digits));
    } else {
        lemma_mask_prefix(digits, count + 1);
        lemma_mask_step(digits, count);
        let shorter = masked(digits.take(count));
        let longer = masked(digits.take(count + 1));
        assert(shorter =~= longer.take(shorter.len() as int));
        assert(shorter =~= masked(digits).take(shorter.len() as int));
    }
}

/// The mask holds every digit once, and one separator for each of the places
/// 2, 5, 8 and 12 that it reaches. Up to fourteen digits give at most eighteen
/// characters.
pub proof fn lemma_mask_len(digits: Seq<char>)
    ensures
        masked(digits).len() == digits.len() + separators_before(digits.len()),
        digits.len() <= CNPJ_LENGTH ==> masked(digits).len() <= 18,
    decreases digits.len(),
{
    if digits.len() > 0 {
        lemma_mask_len(digits.drop_last());
    }
}

/// A mask that is not empty ends with the last digit: no separator is
/// written unless a digit follows it.
pub proof fn lemma_mask_ends_with_digit(digits: Seq<char>)
    requires
        digits.len() > 0,
    ensures
        masked(digits).len() > 0,
        masked(digits).last() == digits.last(),
{
}

/// Fourteen digits under the mask read `DD.DDD.DDD/DDDD-DD`.
pub proof fn lemma_mask_of_fourteen(digits: Seq<char>)
    requires
        digits.len() == CNPJ_LENGTH,
    ensures
        masked(digits) == full_mask(digits),
{
    assert(masked(digits.take(0)) =~= Seq::<char>::empty());
    lemma_mask_step(digits, 0);
    lemma_mask_step(digits, 1);
    lemma_mask_step(digits, 2);
    lemma_mask_step(digits, 3);
    lemma_mask_step(digits, 4);
    lemma_mask_step(digits, 5);
    lemma_mask_step(digits, 6);
    lemma_mask_step(digits, 7);
    lemma_mask_step(digits, 8);
    lemma_mask_step(digits, 9);
    lemma_mask_step(digits, 10);
    lemma_mask_step(digits, 11);
    lemma_mask_step(digits, 12);
    lemma_mask_step(digits, 13);
    assert(digits.take(14) =~= digits);
    assert(masked(digits.take(14)) =~= full_mask(digits));
}

/// Up to fourteen digits under the mask are the beginning of the whole mask
/// `DD.DDD.DDD/DDDD-DD`, up to the last of those digits: each digit stands at
/// the place that the whole mask gives it.
pub proof fn lemma_mask_within_full_mask(digits: Seq<char>, more: Seq<char>)
    requires
        digits.len() <= more.len() == CNPJ_LENGTH,
        digits == more.take(digits.len() as int),
    ensures
        masked(digits) == full_mask(more).take(
            (digits.len() + separators_before(digits.len())) as int,
        ),
{
    lemma_mask_prefix(more, digits.len() as int);
    lemma_mask_len(digits);
    lemma_mask_of_fourteen(more);
}

/// Every character of a mask is one of the digits it was made from, or a
/// separator.
pub proof fn lemma_mask_alphabet(digits: Seq<char>, i: int)
    requires
        0 <= i < masked(digits).len(),
    ensures
        digits.contains(masked(digits)[i]) || is_separator(masked(digits)[i]),
    decreases digits.len(),
{
    if digits.len() > 0 {
        let before = masked(digits.drop_last());
        if i < before.len() {
            lemma_mask_alphabet(digits.drop_last(), i);
            if digits.drop_last().contains(before[i]) {
                let j = choose|j: int|
                    0 <= j < digits.drop_last().len() && digits.drop_last()[j] == before[i];
                assert(digits[j] == before[i]);
            }
        } else if i == masked(digits).len() - 1 {
            assert(digits[digits.len() - 1] == masked(digits)[i]);
        }
    }
}

/// Taking the digits out of a mask gives back the digits that it was made
/// from.
pub proof fn lemma_digits_of_mask(digits: Seq<char>)
    requires
        all_digits(digits),
    ensures
        digits_of(masked(digits)) == digits,
    decreases digits.len(),
{
    if digits.len() == 0 {
        lemma_digits_of_empty();
        assert(digits =~= Seq::<char>::empty());
    } else {
        let before = digits.drop_last();
        let place = separator(digits.len() - 1);
        lemma_digits_of_mask(before);
        lemma_digits_of_concat(masked(before), place.push(digits.last()));
        lemma_digits_of_push(place, digits.last());
        assert(digits_of(place) =~= Seq::<char>::empty()) by {
            lemma_digits_of_empty();
            lemma_digits_of_push(Seq::<char>::empty(), '.');
            lemma_digits_of_push(Seq::<char>::empty(), '/');
            lemma_digits_of_push(Seq::<char>::empty(), '-');
            assert(Seq::<char>::empty().push('.') =~= seq!['.']);
            assert(Seq::<char>::empty().push('/') =~= seq!['/']);
            assert(Seq::<char>::empty().push('-') =~= seq!['-']);
        }
        assert(before + Seq::<char>::empty().push(digits.last()) =~= digits);
    }
}

/// The leading digits of a text are digits, fourteen at most.
pub proof fn lemma_leading_digits(text: Seq<char>)
    ensures
        all_digits(leading_digits(text)),
        leading_digits(text).len() <= CNPJ_LENGTH,
        leading_digits(text).len() <= text.len(),
{
    lemma_digits_of_all_digits(text);
}

/// A formatted text is at most eighteen characters long, and where it is not
/// empty it ends with a digit.
pub proof fn lemma_formatted_shape(text: Seq<char>)
    ensures
        formatted(text).len() <= 18,
        formatted(text).len() == leading_digits(text).len() + separators_before(
            leading_digits(text).len(),
        ),
        formatted(text).len() > 0 ==> is_digit(formatted(text).last()),
        forall|i: int|
            0 <= i < formatted(text).len() ==> is_digit(#[trigger] formatted(text)[i])
                || is_separator(formatted(text)[i]),
{
    let leading = leading_digits(text);
    lemma_leading_digits(text);
    lemma_mask_len(leading);
    if leading.len() > 0 {
        lemma_mask_ends_with_digit(leading);
    }
    assert forall|i: int| 0 <= i < formatted(text).len() implies is_digit(
        #[trigger] formatted(text)[i],
    ) || is_separator(formatted(text)[i]) by {
        lemma_mask_alphabet(leading, i);
    }
}

/// A text without any digit is formatted as the empty text.
pub proof fn lemma_formatted_without_digits(text: Seq<char>)
    requires
        digits_of(text).len() == 0,
    ensures
        formatted(text) == Seq::<char>::empty(),
{
}

/// The digits of a formatted text are the leading digits of the text it was
/// made from: formatting adds no digit, changes none, and keeps their order.
pub proof fn lemma_formatted_digits(text: Seq<char>)
    ensures
        digits_of(formatted(text)) == leading_digits(text),
        digits_of(text).len() <= CNPJ_LENGTH ==> digits_of(formatted(text)) == digits_of(text),
{
    lemma_leading_digits(text);
    lemma_digits_of_mask(leading_digits(text));
}

/// A text with fourteen digits or more is formatted as its first fourteen
/// digits under the whole mask, `DD.DDD.DDD/DDDD-DD`. Further digits are
/// dropped.
pub proof fn lemma_formatted_truncates(text: Seq<char>)
    requires
        digits_of(text).len() >= CNPJ_LENGTH,
    ensures
        formatted(text) == full_mask(digits_of(text)),
        formatted(text).len() == 18,
        digits_of(formatted(text)) == digits_of(text).take(CNPJ_LENGTH as int),
{
    let digits = digits_of(text);
    let leading = leading_digits(text);
    assert(leading =~= digits.take(CNPJ_LENGTH as int));
    lemma_mask_of_fourteen(leading);
    assert(full_mask(leading) =~= full_mask(digits));
    lemma_formatted_digits(text);
}

/// Formatting depends on the digits of a text alone: two texts with the same
/// digits are formatted alike, and a text is formatted as its digits are.
pub proof fn lemma_formatted_by_digits(first: Seq<char>, second: Seq<char>)
    requires
        digits_of(first) == digits_of(second),
    ensures
        formatted(first) == formatted(second),
        formatted(first) == formatted(digits_of(first)),
{
    lemma_digits_of_all_digits(first);
    lemma_digits_of_digits(digits_of(first));
}

/// A character that is no digit can be put anywhere into a text without
/// changing how the text is formatted.
pub proof fn lemma_formatted_ignores_non_digit(text: Seq<char>, at: int, c: char)
    requires
        0 <= at <= text.len(),
        !is_digit(c),
    ensures
        formatted(text.insert(at, c)) == formatted(text),
{
    lemma_digits_of_insert(text, at, c);
}

/// Formatting a formatted text changes nothing.
pub proof fn lemma_formatted_twice(text: Seq<char>)
    ensures
        formatted(formatted(text)) == formatted(text),
{
    lemma_formatted_digits(text);
    lemma_leading_digits(text);
    assert(leading_digits(formatted(text)) == leading_digits(text));
}

} // verus!
