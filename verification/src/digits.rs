//! Decimal digits inside arbitrary text.

use vstd::prelude::*;
use vstd::std_specs::iter::IteratorSpec;

verus! {

/// Whether `c` is one of the ten decimal digits `'0'` to `'9'`.
pub open spec fn is_digit(c: char) -> bool {
    '0' <= c <= '9'
}

/// The number that the decimal digit `c` stands for.
pub open spec fn digit_value(c: char) -> nat
    recommends
        is_digit(c),
{
    (c as int - '0' as int) as nat
}

/// The decimal digit that stands for `value`.
pub open spec fn digit_char(value: nat) -> char
    recommends
        value <= 9,
{
    (value + '0' as int) as char
}

/// Whether every character of `text` is a decimal digit.
pub open spec fn all_digits(text: Seq<char>) -> bool {
    forall|i: int| 0 <= i < text.len() ==> is_digit(#[trigger] text[i])
}

/// The decimal digits of `text`, in the order in which they occur.
pub open spec fn digits_of(text: Seq<char>) -> Seq<char> {
    text.filter(|c: char| is_digit(c))
}

/// The numbers that the digits of `digits` stand for, position by position.
pub open spec fn digit_values(digits: Seq<char>) -> Seq<nat>
    recommends
        all_digits(digits),
{
    digits.map_values(|c: char| digit_value(c))
}

/// The empty text holds no digit.
pub proof fn lemma_digits_of_empty()
    ensures
        digits_of(Seq::<char>::empty()) == Seq::<char>::empty(),
{
    reveal(Seq::filter);
}

/// Appending a character to a text appends it to the text's digits if it is a
/// digit, and leaves them unchanged if it is not.
pub proof fn lemma_digits_of_push(text: Seq<char>, c: char)
    ensures
        is_digit(c) ==> digits_of(text.push(c)) == digits_of(text).push(c),
        !is_digit(c) ==> digits_of(text.push(c)) == digits_of(text),
{
    reveal(Seq::filter);
    assert(text.push(c).drop_last() =~= text);
}

/// The digits of a concatenation are the digits of its parts, concatenated.
pub proof fn lemma_digits_of_concat(left: Seq<char>, right: Seq<char>)
    ensures
        digits_of(left + right) == digits_of(left) + digits_of(right),
{
    Seq::filter_distributes_over_add(left, right, |c: char| is_digit(c));
}

/// What digit extraction returns holds digits only.
pub proof fn lemma_digits_of_all_digits(text: Seq<char>)
    ensures
        all_digits(digits_of(text)),
        digits_of(text).len() <= text.len(),
{
    let pred = |c: char| is_digit(c);
    text.lemma_filter_len(pred);
    assert forall|i: int| 0 <= i < digits_of(text).len() implies is_digit(
        #[trigger] digits_of(text)[i],
    ) by {
        text.lemma_filter_pred(pred, i);
    }
}

/// A text that is made of digits only is its own digit extraction.
pub proof fn lemma_digits_of_digits(text: Seq<char>)
    requires
        all_digits(text),
    ensures
        digits_of(text) == text,
    decreases text.len(),
{
    if text.len() == 0 {
        lemma_digits_of_empty();
        assert(text =~= Seq::<char>::empty());
    } else {
        lemma_digits_of_digits(text.drop_last());
        lemma_digits_of_push(text.drop_last(), text.last());
        assert(text.drop_last().push(text.last()) =~= text);
    }
}

/// A text without any digit has an empty digit extraction.
pub proof fn lemma_digits_of_no_digits(text: Seq<char>)
    requires
        forall|i: int| 0 <= i < text.len() ==> !is_digit(#[trigger] text[i]),
    ensures
        digits_of(text) == Seq::<char>::empty(),
    decreases text.len(),
{
    if text.len() == 0 {
        lemma_digits_of_empty();
        assert(text =~= Seq::<char>::empty());
    } else {
        lemma_digits_of_no_digits(text.drop_last());
        lemma_digits_of_push(text.drop_last(), text.last());
        assert(text.drop_last().push(text.last()) =~= text);
    }
}

/// Putting a character that is no digit into a text leaves the text's digits
/// as they are.
pub proof fn lemma_digits_of_insert(text: Seq<char>, at: int, c: char)
    requires
        0 <= at <= text.len(),
        !is_digit(c),
    ensures
        digits_of(text.insert(at, c)) == digits_of(text),
{
    let before = text.take(at);
    let after = text.skip(at);
    assert(text.insert(at, c) =~= before.push(c) + after);
    assert(text =~= before + after);
    lemma_digits_of_concat(before.push(c), after);
    lemma_digits_of_concat(before, after);
    lemma_digits_of_push(before, c);
}

/// A text that has as many digits as characters is made of digits only.
pub proof fn lemma_digits_of_full_length(text: Seq<char>)
    requires
        digits_of(text).len() == text.len(),
    ensures
        all_digits(text),
        digits_of(text) == text,
    decreases text.len(),
{
    if text.len() > 0 {
        let before = text.drop_last();
        lemma_digits_of_push(before, text.last());
        assert(before.push(text.last()) =~= text);
        lemma_digits_of_all_digits(before);
        lemma_digits_of_full_length(before);
        assert forall|i: int| 0 <= i < text.len() implies is_digit(#[trigger] text[i]) by {
            if i < before.len() {
                assert(text[i] == before[i]);
            }
        }
    }
    lemma_digits_of_digits(text);
}

/// Tells whether `c` is a decimal digit.
pub fn is_decimal_digit(c: char) -> (result: bool)
    ensures
        result == is_digit(c),
{
    '0' <= c && c <= '9'
}

/// Reads the decimal digit `c` as a number.
pub fn parse_digit(c: char) -> (value: u32)
    requires
        is_digit(c),
    ensures
        value == digit_value(c),
        value <= 9,
{
    c as u32 - '0' as u32
}

/// Collects the decimal digits of `text`, in the order in which they occur.
/// Every other character is dropped, wherever it stands.
pub fn extract_digits(text: &str) -> (digits: Vec<char>)
    ensures
        digits@ == digits_of(text@),
        all_digits(digits@),
{
    let mut digits: Vec<char> = Vec::new();
    proof {
        lemma_digits_of_empty();
        assert(text@.take(0) =~= Seq::<char>::empty());
    }
    for c in it: text.chars()
        invariant
            it.seq() == text@,
            digits@ == digits_of(text@.take(it.index())),
    {
        proof {
            let seen = text@.take(it.index());
            lemma_digits_of_push(seen, c);
            assert(text@.take(it.index() + 1) =~= seen.push(c));
        }
        if is_decimal_digit(c) {
            digits.push(c);
        }
    }
    proof {
        assert(text@.take(text@.len() as int) =~= text@);
        lemma_digits_of_all_digits(text@);
    }
    digits
}

/// Reads each digit of `digits` as a number.
pub fn parse_digits(digits: &Vec<char>) -> (values: Vec<u32>)
    requires
        all_digits(digits@),
    ensures
        values@.len() == digits@.len(),
        forall|i: int| 0 <= i < digits@.len() ==> #[trigger] values@[i] == digit_value(digits@[i]),
{
    let mut values: Vec<u32> = Vec::new();
    let mut i: usize = 0;
    while i < digits.len()
        invariant
            i <= digits.len(),
            all_digits(digits@),
            values@.len() == i,
            forall|j: int| 0 <= j < i ==> #[trigger] values@[j] == digit_value(digits@[j]),
        decreases digits.len() - i,
    {
        values.push(parse_digit(digits[i]));
        i += 1;
    }
    values
}

/// The decimal digit `digit` as a text of one character.
pub fn digit_text(digit: char) -> (text: &'static str)
    requires
        is_digit(digit),
    ensures
        text@ == seq![digit],
{
    proof {
        reveal_strlit("0123456789");
    }
    let first: usize = (digit as u32 - '0' as u32) as usize;
    let text = "0123456789".substring_ascii(first, first + 1);
    assert(text@ =~= seq![digit]);
    text
}

/// Writes the digits of `digits` one after the other, as one text.
pub fn concat_digits(digits: &Vec<char>) -> (text: String)
    requires
        all_digits(digits@),
    ensures
        text@ == digits@,
{
    let mut text = String::new();
    let mut i: usize = 0;
    while i < digits.len()
        invariant
            i <= digits.len(),
            all_digits(digits@),
            text@ == digits@.take(i as int),
        decreases digits.len() - i,
    {
        text.append(digit_text(digits[i]));
        proof {
            assert(text@ =~= digits@.take(i + 1));
        }
        i += 1;
    }
    proof {
        assert(digits@.take(digits@.len() as int) =~= digits@);
    }
    text
}

} // verus!
