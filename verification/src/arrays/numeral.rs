//! Numerals: the texts that stand for integers.

use crate::arrays::IntegerElt;
use crate::error::NumeralFault;
use vstd::prelude::*;

verus! {

/// The value of a decimal digit; nothing for every other character.
pub open spec fn digit_value(c: char) -> Option<int> {
    if '0' <= c && c <= '9' {
        Some(c as int - '0' as int)
    } else {
        None
    }
}

/// The number that a run of digits stands for, read from the left, with the
/// sign given. Reading stops at the first character that is no digit, and
/// at the first digit with which the number leaves the range of an integer
/// element.
pub open spec fn digits_value(digits: Seq<char>, negative: bool) -> Result<int, NumeralFault>
    decreases digits.len(),
{
    if digits.len() == 0 {
        Ok(0)
    } else {
        match digits_value(digits.drop_last(), negative) {
            Err(e) => Err(e),
            Ok(acc) => match digit_value(digits.last()) {
                None => Err(NumeralFault::InvalidDigit),
                Some(d) => {
                    let v = if negative {
                        acc * 10 - d
                    } else {
                        acc * 10 + d
                    };
                    if v > IntegerElt::MAX {
                        Err(NumeralFault::PosOverflow)
                    } else if v < IntegerElt::MIN {
                        Err(NumeralFault::NegOverflow)
                    } else {
                        Ok(v)
                    }
                },
            },
        }
    }
}

/// The integer that a text stands for: an optional sign, `+` or `-`, and
/// then one decimal digit or more, with a value in the range of an integer
/// element. Every other text is at fault.
pub open spec fn numeral_value(text: Seq<char>) -> Result<IntegerElt, NumeralFault> {
    if text.len() == 0 {
        Err(NumeralFault::Empty)
    } else {
        let signed = text[0] == '-' || text[0] == '+';
        let digits = if signed {
            text.drop_first()
        } else {
            text
        };
        if digits.len() == 0 {
            Err(NumeralFault::InvalidDigit)
        } else {
            match digits_value(digits, text[0] == '-') {
                Ok(v) => Ok(v as IntegerElt),
                Err(e) => Err(e),
            }
        }
    }
}

/// The number that a run of digits writes in base ten, whatever its size.
pub open spec fn decimal_number(digits: Seq<char>) -> int
    decreases digits.len(),
{
    if digits.len() == 0 {
        0
    } else {
        decimal_number(digits.drop_last()) * 10 + match digit_value(digits.last()) {
            Some(d) => d,
            None => 0,
        }
    }
}

/// A run of characters that are all decimal digits.
pub open spec fn all_digits(digits: Seq<char>) -> bool {
    forall|k: int| 0 <= k < digits.len() ==> digit_value(#[trigger] digits[k]) is Some
}

/// A run of digits has a value exactly where all its characters are digits
/// and the number that they write, with the sign, lies in the range of an
/// integer element; the value is that number.
pub proof fn lemma_digits_value(digits: Seq<char>, negative: bool)
    ensures
        digits_value(digits, negative) matches Ok(v) ==> all_digits(digits) && v == (if negative {
            -decimal_number(digits)
        } else {
            decimal_number(digits)
        }),
        all_digits(digits) && IntegerElt::MIN <= (if negative {
            -decimal_number(digits)
        } else {
            decimal_number(digits)
        }) <= IntegerElt::MAX ==> digits_value(digits, negative) is Ok,
    decreases digits.len(),
{
    if digits.len() > 0 {
        let rest = digits.drop_last();
        lemma_digits_value(rest, negative);
        if digits_value(digits, negative) is Ok {
            assert forall|k: int| 0 <= k < digits.len() implies digit_value(#[trigger] digits[k])
                is Some by {
                if k < rest.len() {
                    assert(rest[k] == digits[k]);
                }
            }
        }
    }
}

/// A text stands for an integer exactly where it is an optional sign and
/// then one digit or more, and the number that they write lies in the range
/// of an integer element; it stands for that number.
pub proof fn numeral_value_is_the_number_written(text: Seq<char>)
    ensures
        ({
            let signed = text.len() > 0 && (text[0] == '-' || text[0] == '+');
            let negative = text.len() > 0 && text[0] == '-';
            let digits = if signed {
                text.drop_first()
            } else {
                text
            };
            let number = if negative {
                -decimal_number(digits)
            } else {
                decimal_number(digits)
            };
            &&& numeral_value(text) is Ok <==> digits.len() > 0 && all_digits(digits)
                && IntegerElt::MIN <= number <= IntegerElt::MAX
            &&& numeral_value(text) matches Ok(v) ==> v == number
        }),
{
    if text.len() > 0 {
        let signed = text[0] == '-' || text[0] == '+';
        let digits = if signed {
            text.drop_first()
        } else {
            text
        };
        lemma_digits_value(digits, text[0] == '-');
    }
}

/// The integer that a text stands for, or why it stands for none.
pub fn parse_integer(text: &str) -> (r: Result<IntegerElt, NumeralFault>)
    ensures
        r == numeral_value(text@),
{
    let n = text.unicode_len();
    if n == 0 {
        return Err(NumeralFault::Empty);
    }
    let first = text.get_char(0);
    let negative = first == '-';
    let signed = first == '-' || first == '+';
    if signed && n == 1 {
        return Err(NumeralFault::InvalidDigit);
    }
    let ghost digits = if signed {
        text@.drop_first()
    } else {
        text@
    };
    let ghost lead: int = if signed {
        1
    } else {
        0
    };
    let mut acc: IntegerElt = 0;
    let mut at: usize = 0;
    for c in it: text.chars()
        invariant
            n == text@.len(),
            it.seq() == text@,
            at == it.index(),
            at <= n,
            digits == (if signed {
                text@.drop_first()
            } else {
                text@
            }),
            signed == (text@[0] == '-' || text@[0] == '+'),
            negative == (text@[0] == '-'),
            lead == (if signed {
                1int
            } else {
                0int
            }),
            at >= lead ==> digits_value(digits.take(at - lead), negative) == Ok::<
                int,
                NumeralFault,
            >(acc as int),
            at < lead ==> acc == 0,
    {
        if at > 0 || !signed {
            proof {
                assert(digits.take(at - lead + 1).drop_last() =~= digits.take(at - lead));
            }
            if c < '0' || c > '9' {
                proof {
                    lemma_fault_persists(digits, negative, at - lead + 1);
                }
                return Err(NumeralFault::InvalidDigit);
            }
            let d: i128 = (c as u32 - '0' as u32) as i128;
            let wide: i128 = if negative {
                (acc as i128) * 10 - d
            } else {
                (acc as i128) * 10 + d
            };
            if wide > IntegerElt::MAX as i128 {
                proof {
                    lemma_fault_persists(digits, negative, at - lead + 1);
                }
                return Err(NumeralFault::PosOverflow);
            }
            if wide < IntegerElt::MIN as i128 {
                proof {
                    lemma_fault_persists(digits, negative, at - lead + 1);
                }
                return Err(NumeralFault::NegOverflow);
            }
            acc = wide as IntegerElt;
        }
        at += 1;
    }
    proof {
        assert(digits =~= digits.take(at - lead));
    }
    Ok(acc)
}

/// A fault in a leading part of a run of digits is the fault of the whole
/// run.
proof fn lemma_fault_persists(digits: Seq<char>, negative: bool, k: int)
    requires
        0 <= k <= digits.len(),
        digits_value(digits.take(k), negative) is Err,
    ensures
        digits_value(digits, negative) == digits_value(digits.take(k), negative),
    decreases digits.len() - k,
{
    if k == digits.len() {
        assert(digits.take(k) =~= digits);
    } else {
        assert(digits.take(k + 1).drop_last() =~= digits.take(k));
        lemma_fault_persists(digits, negative, k + 1);
    }
}

} // verus!
