//! Reading the tokens of a dotted path such as `R2.C3`.

use vstd::prelude::*;
use vstd::string::*;

verus! {

/// Whether `c` is one of the ten decimal digits.
pub open spec fn is_digit(c: char) -> bool {
    '0' <= c <= '9'
}

/// The number that the decimal digits of `token` spell when every other
/// character is left out; zero where it has no digit.
pub open spec fn digits_value(token: Seq<char>) -> nat
    decreases token.len(),
{
    if token.len() == 0 {
        0
    } else if is_digit(token.last()) {
        10 * digits_value(token.drop_last()) + (token.last() as nat - '0' as nat) as nat
    } else {
        digits_value(token.drop_last())
    }
}

/// Whether `token` holds a decimal digit at all.
pub open spec fn has_digit(token: Seq<char>) -> bool {
    exists|i: int| 0 <= i < token.len() && is_digit(#[trigger] token[i])
}

/// The number that a path token names: its digits read as a decimal number,
/// whatever letters stand around them. A token without a digit names nothing.
pub open spec fn token_number(token: Seq<char>) -> Option<nat> {
    if has_digit(token) {
        Some(digits_value(token))
    } else {
        None
    }
}

/// The place that a path token counts to, from zero: tokens count from one,
/// so a token without a digit, or one that spells zero, names no place.
pub open spec fn token_place(token: Seq<char>) -> Option<nat> {
    match token_number(token) {
        Some(number) if number >= 1 => Some((number - 1) as nat),
        _ => None,
    }
}

/// The digits of `number` in decimal notation, without leading zeros.
pub open spec fn decimal(number: nat) -> Seq<char>
    decreases number,
{
    if number < 10 {
        seq![('0' as nat + number) as char]
    } else {
        decimal(number / 10).push(('0' as nat + number % 10) as char)
    }
}

/// Decimal notation is made of digits and spells the number it is of.
pub proof fn lemma_decimal(number: nat)
    ensures
        decimal(number).len() >= 1,
        forall|i: int| 0 <= i < decimal(number).len() ==> is_digit(#[trigger] decimal(number)[i]),
        digits_value(decimal(number)) == number,
    decreases number,
{
    let digits = decimal(number);
    if number < 10 {
        assert(digits_value(digits.drop_last()) == 0);
    } else {
        lemma_decimal(number / 10);
        assert(digits.drop_last() =~= decimal(number / 10));
    }
}

/// Characters that are no digits, put before a token, change nothing of the
/// number that it names.
pub proof fn lemma_number_after_letters(letters: Seq<char>, token: Seq<char>)
    requires
        forall|i: int| 0 <= i < letters.len() ==> !is_digit(#[trigger] letters[i]),
    ensures
        digits_value(letters + token) == digits_value(token),
        has_digit(letters + token) == has_digit(token),
    decreases token.len(),
{
    let whole = letters + token;
    if token.len() == 0 {
        lemma_no_digit_no_value(letters);
    } else {
        lemma_number_after_letters(letters, token.drop_last());
        assert(whole.drop_last() =~= letters + token.drop_last());
    }
    if has_digit(token) {
        let k = choose|k: int| 0 <= k < token.len() && is_digit(#[trigger] token[k]);
        assert(is_digit(whole[letters.len() + k]));
    }
    if has_digit(whole) {
        let k = choose|k: int| 0 <= k < whole.len() && is_digit(#[trigger] whole[k]);
        assert(k >= letters.len() && is_digit(token[k - letters.len()]));
    }
}

/// A text without a digit spells zero.
pub proof fn lemma_no_digit_no_value(letters: Seq<char>)
    requires
        forall|i: int| 0 <= i < letters.len() ==> !is_digit(#[trigger] letters[i]),
    ensures
        digits_value(letters) == 0,
    decreases letters.len(),
{
    if letters.len() > 0 {
        let shorter = letters.drop_last();
        assert forall|i: int| 0 <= i < shorter.len() implies !is_digit(#[trigger] shorter[i]) by {
            assert(shorter[i] == letters[i]);
        }
        lemma_no_digit_no_value(shorter);
    }
}

/// A letter followed by a number in decimal notation names that number, and
/// holds no dot.
pub proof fn lemma_lettered_number(letter: char, number: nat)
    requires
        !is_digit(letter),
    ensures
        token_number(seq![letter] + decimal(number)) == Some(number),
        letter != '.' ==> !(seq![letter] + decimal(number)).contains('.'),
{
    let token = seq![letter] + decimal(number);
    lemma_decimal(number);
    lemma_number_after_letters(seq![letter], decimal(number));
    if token.contains('.') {
        let k = choose|k: int| 0 <= k < token.len() && token[k] == '.';
        assert(k == 0 || is_digit(decimal(number)[k - 1]));
    }
}

/// Reads the number that `token` names. `None` where it names none, and also
/// where the number is too large for a `usize`: no sequence in memory has a
/// place that far out.
pub fn read_number(token: &str) -> (number: Option<usize>)
    ensures
        number == match token_number(token@) {
            Some(n) if n <= usize::MAX => Some(n as usize),
            _ => None,
        },
{
    let mut value: usize = 0;
    let mut seen = false;
    let mut too_large = false;
    for c in chars: token.chars()
        invariant
            chars.seq() == token@,
            seen == has_digit(token@.take(chars.index())),
            too_large ==> digits_value(token@.take(chars.index())) > usize::MAX,
            !too_large ==> value == digits_value(token@.take(chars.index())),
    {
        let ghost at = chars.index();
        let ghost before = token@.take(at);
        let ghost now = token@.take(at + 1);
        assert(now.drop_last() =~= before);
        assert(has_digit(now) == (has_digit(before) || is_digit(c))) by {
            if has_digit(before) {
                let k = choose|k: int| 0 <= k < before.len() && is_digit(#[trigger] before[k]);
                assert(is_digit(now[k]));
            }
            if is_digit(c) {
                assert(is_digit(now[at]));
            }
            if has_digit(now) {
                let k = choose|k: int| 0 <= k < now.len() && is_digit(#[trigger] now[k]);
                assert(k == at || is_digit(before[k]));
            }
        }
        if '0' <= c && c <= '9' {
            seen = true;
            let digit: usize = (c as u32 - '0' as u32) as usize;
            if !too_large {
                if value > (usize::MAX - digit) / 10 {
                    too_large = true;
                } else {
                    value = value * 10 + digit;
                }
            }
        }
    }
    assert(token@.take(token@.len() as int) =~= token@);
    if seen && !too_large {
        Some(value)
    } else {
        None
    }
}

/// Reads the place that `token` counts to, from zero; see [`token_place`].
/// `None` also where the place is `usize::MAX` or beyond: a sequence in memory
/// has at most `usize::MAX` places, so none that far out.
pub fn read_place(token: &str) -> (place: Option<usize>)
    ensures
        place == match token_place(token@) {
            Some(n) if n < usize::MAX => Some(n as usize),
            _ => None,
        },
{
    match read_number(token) {
        Some(number) => if number >= 1 {
            Some(number - 1)
        } else {
            None
        },
        None => None,
    }
}

} // verus!
