//! Decimal text of unsigned integers: what a digit string denotes, which strings
//! are accepted as a number, and the canonical text of a number.

use vstd::prelude::*;

verus! {

/// Whether `c` is one of the ten ASCII decimal digits.
pub open spec fn is_digit(c: char) -> bool {
    '0' <= c && c <= '9'
}

/// The number that the digit `c` stands for.
pub open spec fn digit_value(c: char) -> int {
    c as u32 - '0' as u32
}

/// The digit that stands for `d`, for `d` below ten.
pub open spec fn digit_char(d: nat) -> char {
    if d == 0 {
        '0'
    } else if d == 1 {
        '1'
    } else if d == 2 {
        '2'
    } else if d == 3 {
        '3'
    } else if d == 4 {
        '4'
    } else if d == 5 {
        '5'
    } else if d == 6 {
        '6'
    } else if d == 7 {
        '7'
    } else if d == 8 {
        '8'
    } else {
        '9'
    }
}

/// Whether every character of `text` is a decimal digit.
pub open spec fn all_digits(text: Seq<char>) -> bool {
    forall|i: int| 0 <= i < text.len() ==> is_digit(#[trigger] text[i])
}

/// The number that a string of digits denotes, most significant digit first.
pub open spec fn decimal_value(digits: Seq<char>) -> int
    decreases digits.len(),
{
    if digits.len() == 0 {
        0
    } else {
        decimal_value(digits.drop_last()) * 10 + digit_value(digits.last())
    }
}

/// `text` without its leading plus sign, if it has one.
pub open spec fn unsigned_part(text: Seq<char>) -> Seq<char> {
    if text.len() > 0 && text[0] == '+' {
        text.drop_first()
    } else {
        text
    }
}

/// The number that `text` is accepted as: an optional plus sign, then at least one
/// digit and nothing else, denoting a value that fits in `usize`.
pub open spec fn parse_number(text: Seq<char>) -> Option<usize> {
    let digits = unsigned_part(text);
    if digits.len() > 0 && all_digits(digits) && decimal_value(digits) <= usize::MAX {
        Some(decimal_value(digits) as usize)
    } else {
        None
    }
}

/// The canonical text of `n`: its decimal digits, without sign or leading zeros.
pub open spec fn number_text(n: nat) -> Seq<char>
    decreases n,
{
    if n < 10 {
        seq![digit_char(n)]
    } else {
        number_text(n / 10).push(digit_char(n % 10))
    }
}

/// A digit string denotes a number that is not negative.
pub proof fn lemma_decimal_value_nonnegative(digits: Seq<char>)
    requires
        all_digits(digits),
    ensures
        decimal_value(digits) >= 0,
    decreases digits.len(),
{
    if digits.len() > 0 {
        assert(is_digit(digits[digits.len() - 1]));
        lemma_decimal_value_nonnegative(digits.drop_last());
    }
}

/// A digit string denotes at least what any of its prefixes denotes.
pub proof fn lemma_decimal_value_prefix(digits: Seq<char>, k: int)
    requires
        all_digits(digits),
        0 <= k <= digits.len(),
    ensures
        0 <= decimal_value(digits.take(k)) <= decimal_value(digits),
    decreases digits.len(),
{
    if k == digits.len() {
        assert(digits.take(k) =~= digits);
        lemma_decimal_value_nonnegative(digits);
    } else {
        assert(is_digit(digits[digits.len() - 1]));
        assert(digits.drop_last().take(k) =~= digits.take(k));
        lemma_decimal_value_prefix(digits.drop_last(), k);
    }
}

/// The canonical text of a number is a non-empty string of digits that denotes it.
pub proof fn lemma_number_text_value(n: nat)
    ensures
        number_text(n).len() > 0,
        all_digits(number_text(n)),
        decimal_value(number_text(n)) == n,
    decreases n,
{
    if n < 10 {
        let text = number_text(n);
        assert(text.drop_last() =~= Seq::<char>::empty());
        assert(decimal_value(text.drop_last()) == 0);
        assert(digit_value(text.last()) == n);
    } else {
        lemma_number_text_value(n / 10);
        let init = number_text(n / 10);
        let text = number_text(n);
        assert(text.drop_last() =~= init);
        assert(digit_value(text.last()) == n % 10);
        assert forall|i: int| 0 <= i < text.len() implies is_digit(#[trigger] text[i]) by {
            if i < init.len() {
                assert(text[i] == init[i]);
            }
        }
    }
}

/// Printing a number and reading the text back gives the number.
pub proof fn lemma_parse_number_text(n: usize)
    ensures
        parse_number(number_text(n as nat)) == Some(n),
{
    lemma_number_text_value(n as nat);
    let text = number_text(n as nat);
    assert(is_digit(text[0]));
    assert(unsigned_part(text) == text);
}

/// The digit of `c`, or `None` where `c` is no decimal digit.
pub fn digit_of(c: char) -> (d: Option<usize>)
    ensures
        d == (if is_digit(c) {
            Some(digit_value(c) as usize)
        } else {
            None::<usize>
        }),
{
    if c >= '0' && c <= '9' {
        Some((c as u32 - '0' as u32) as usize)
    } else {
        None
    }
}

/// The character for the digit `d`.
pub fn char_of_digit(d: u64) -> (c: char)
    requires
        d < 10,
    ensures
        c == digit_char(d as nat),
{
    match d {
        0 => '0',
        1 => '1',
        2 => '2',
        3 => '3',
        4 => '4',
        5 => '5',
        6 => '6',
        7 => '7',
        8 => '8',
        _ => '9',
    }
}

/// Reads `text` as a number. A leading plus sign is accepted; an empty text, a text
/// with any other character than a digit, and a value too large for `usize` are not.
pub fn read_number(text: &Vec<char>) -> (number: Option<usize>)
    ensures
        number == parse_number(text@),
{
    let start: usize = if text.len() > 0 && text[0] == '+' {
        1
    } else {
        0
    };
    let ghost digits = unsigned_part(text@);
    assert(digits =~= text@.subrange(start as int, text@.len() as int));
    if start == text.len() {
        return None;
    }
    let mut value: usize = 0;
    let mut i: usize = start;
    while i < text.len()
        invariant
            start <= i <= text.len(),
            digits == unsigned_part(text@),
            digits == text@.subrange(start as int, text@.len() as int),
            all_digits(digits.take(i - start)),
            value == decimal_value(digits.take(i - start)),
        decreases text.len() - i,
    {
        let ghost seen = digits.take(i - start);
        let ghost next = digits.take(i - start + 1);
        assert(next.drop_last() =~= seen);
        assert(next.last() == text@[i as int]);
        let digit = match digit_of(text[i]) {
            Some(digit) => digit,
            None => {
                assert(!is_digit(digits[i - start]));
                return None;
            },
        };
        assert(all_digits(next)) by {
            assert forall|j: int| 0 <= j < next.len() implies is_digit(#[trigger] next[j]) by {
                if j < seen.len() {
                    assert(next[j] == seen[j]);
                }
            }
        }
        let grown = match value.checked_mul(10) {
            Some(shifted) => shifted.checked_add(digit),
            None => None,
        };
        match grown {
            Some(grown) => {
                value = grown;
            },
            None => {
                assert(decimal_value(next) > usize::MAX);
                proof {
                    if all_digits(digits) {
                        lemma_decimal_value_prefix(digits, i - start + 1);
                    }
                }
                return None;
            },
        }
        i += 1;
    }
    assert(digits.take(i - start) =~= digits);
    Some(value)
}

/// Writes `n` as its canonical decimal text.
pub fn write_number(n: u64) -> (text: Vec<char>)
    ensures
        text@ == number_text(n as nat),
{
    let mut reversed: Vec<char> = Vec::new();
    let mut rest: u64 = n;
    while rest >= 10
        invariant
            number_text(n as nat) == number_text(rest as nat) + reversed@.reverse(),
        decreases rest,
    {
        let digit = char_of_digit(rest % 10);
        assert(number_text(rest as nat) + reversed@.reverse() =~= number_text((rest / 10) as nat)
            + reversed@.push(digit).reverse());
        reversed.push(digit);
        rest = rest / 10;
    }
    let mut text: Vec<char> = Vec::new();
    text.push(char_of_digit(rest));
    let ghost head = text@;
    assert(head =~= number_text(rest as nat));
    let mut k: usize = reversed.len();
    while k > 0
        invariant
            k <= reversed.len(),
            text@ == head + reversed@.reverse().take(reversed.len() - k),
        decreases k,
    {
        k -= 1;
        assert(reversed@.reverse().take(reversed.len() - k) =~= reversed@.reverse().take(
            reversed.len() - k - 1,
        ).push(reversed@[k as int]));
        text.push(reversed[k]);
    }
    assert(reversed@.reverse().take(reversed.len() as int) =~= reversed@.reverse());
    text
}

} // verus!
