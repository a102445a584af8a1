use vstd::prelude::*;

verus! {

/// Whether `c` is one of the ten decimal digits.
pub open spec fn is_digit(c: char) -> bool {
    0x30 <= c as u32 <= 0x39
}

/// The number that the digit `c` stands for.
pub open spec fn digit_value(c: char) -> nat {
    (c as u32 - 0x30) as nat
}

pub open spec fn all_digits(digits: Seq<char>) -> bool {
    forall|i: int| 0 <= i < digits.len() ==> is_digit(#[trigger] digits[i])
}

/// The number that a run of decimal digits spells, most significant digit first.
pub open spec fn decimal_value(digits: Seq<char>) -> nat
    decreases digits.len(),
{
    if digits.len() == 0 {
        0
    } else {
        10 * decimal_value(digits.drop_last()) + digit_value(digits.last())
    }
}

/// The digits of a numeral: the text itself, less one leading plus sign.
pub open spec fn unsigned_part(text: Seq<char>) -> Seq<char> {
    if text.len() > 0 && text[0] == '+' {
        text.skip(1)
    } else {
        text
    }
}

/// The number that `text` spells, where it is a numeral: an optional plus sign,
/// then one decimal digit or more and nothing else.
pub open spec fn numeral(text: Seq<char>) -> Option<nat> {
    let digits = unsigned_part(text);
    if digits.len() > 0 && all_digits(digits) {
        Some(decimal_value(digits))
    } else {
        None
    }
}

/// What a numeral parser with the upper limit `max` returns on `text`.
pub open spec fn bounded_numeral(text: Seq<char>, max: nat) -> Option<nat> {
    match numeral(text) {
        Some(value) => if value <= max {
            Some(value)
        } else {
            None
        },
        None => None,
    }
}

/// A longer run of digits spells no smaller number than its beginning.
pub proof fn lemma_decimal_value_grows(digits: Seq<char>, cut: int)
    requires
        0 <= cut <= digits.len(),
    ensures
        decimal_value(digits.take(cut)) <= decimal_value(digits),
    decreases digits.len(),
{
    if cut == digits.len() {
        assert(digits.take(cut) == digits);
    } else {
        lemma_decimal_value_grows(digits.drop_last(), cut);
        assert(digits.drop_last().take(cut) == digits.take(cut));
    }
}

/// Reads a numeral that is at most `max`.
pub fn parse_number(text: &Vec<char>, max: u128) -> (parsed: Option<u128>)
    ensures
        bounded_numeral(text@, max as nat) == match parsed {
            Some(value) => Some(value as nat),
            None => None,
        },
{
    let start: usize = if text.len() > 0 && text[0] == '+' {
        1
    } else {
        0
    };
    let ghost digits = unsigned_part(text@);
    assert(digits == text@.skip(start as int));
    if start == text.len() {
        return None;
    }
    let mut value: u128 = 0;
    let mut i: usize = start;
    while i < text.len()
        invariant
            start <= i <= text.len(),
            digits == text@.skip(start as int),
            digits == unsigned_part(text@),
            all_digits(digits.take(i - start)),
            value as nat == decimal_value(digits.take(i - start)),
            value <= max,
        decreases text.len() - i,
    {
        let c = text[i];
        let code: u32 = c as u32;
        assert(c == digits[i - start]);
        if code < 0x30 || code > 0x39 {
            assert(!is_digit(digits[i - start]));
            assert(!all_digits(digits));
            return None;
        }
        let digit: u128 = (code - 0x30) as u128;
        proof {
            let longer = digits.take(i - start + 1);
            assert(longer.drop_last() == digits.take(i - start));
            assert(longer.last() == c);
            assert(decimal_value(longer) == 10 * value + digit);
            assert forall|k: int| 0 <= k < longer.len() implies is_digit(#[trigger] longer[k]) by {
                if k < i - start {
                    assert(longer[k] == digits.take(i - start)[k]);
                }
            }
            lemma_decimal_value_grows(digits, i - start + 1);
        }
        if digit > max || value > (max - digit) / 10 {
            assert(10 * value + digit > max) by (nonlinear_arith)
                requires
                    digit > max || (digit <= max && value > (max - digit) / 10),
            ;
            return None;
        }
        assert(10 * value + digit <= max) by (nonlinear_arith)
            requires
                value <= (max - digit) / 10,
                digit <= max,
        ;
        value = 10 * value + digit;
        i += 1;
    }
    assert(digits.take(i - start) == digits);
    Some(value)
}

/// The digit that stands for `value`, which is below ten.
pub open spec fn digit_of(value: nat) -> char {
    (0x30 + value) as u8 as char
}

/// The decimal numeral of `value`, without sign or leading zeros.
pub open spec fn decimal_text(value: nat) -> Seq<char>
    decreases value,
{
    if value < 10 {
        seq![digit_of(value)]
    } else {
        decimal_text(value / 10).push(digit_of(value % 10))
    }
}

/// Appends the decimal numeral of `value` to `buffer`.
pub fn push_number(buffer: &mut Vec<char>, value: u128)
    ensures
        final(buffer)@ == old(buffer)@ + decimal_text(value as nat),
    decreases value,
{
    if value >= 10 {
        push_number(buffer, value / 10);
    }
    let digit: u8 = (value % 10) as u8;
    buffer.push((0x30 + digit) as char);
    assert(buffer@ == old(buffer)@ + decimal_text(value as nat));
}

/// Reading the numeral that was written for a number gives the number back.
pub proof fn lemma_numeral_of_decimal_text(value: nat)
    ensures
        numeral(decimal_text(value)) == Some(value),
        decimal_text(value).len() > 0,
        all_digits(decimal_text(value)),
    decreases value,
{
    let text = decimal_text(value);
    if value < 10 {
        assert(text.drop_last() == Seq::<char>::empty());
        assert(decimal_value(text.drop_last()) == 0);
        assert(decimal_value(text) == value);
    } else {
        lemma_numeral_of_decimal_text(value / 10);
        let shorter = decimal_text(value / 10);
        assert(text.drop_last() == shorter);
        assert(unsigned_part(shorter) == shorter);
        assert(decimal_value(text) == 10 * (value / 10) + value % 10);
    }
    assert(is_digit(text[0]));
    assert(unsigned_part(text) == text);
}

} // verus!
