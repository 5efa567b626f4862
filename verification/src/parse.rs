//! Reading what the user typed into a search field.

use crate::model::{Alignment, ByteOrder, DataType, Literal, Predicate, SearchQuery};
use vstd::prelude::*;

verus! {

/// Whether a byte is a decimal digit in ASCII.
pub open spec fn is_digit(byte: u8) -> bool {
    0x30 <= byte <= 0x39
}

/// Whether a text is made of decimal digits only.
pub open spec fn all_digits(text: Seq<u8>) -> bool {
    forall|i: int| 0 <= i < text.len() ==> is_digit(#[trigger] text[i])
}

/// The number that a text of decimal digits spells.
pub open spec fn digits_value(text: Seq<u8>) -> nat
    decreases text.len(),
{
    if text.len() == 0 {
        0
    } else {
        10 * digits_value(text.drop_last()) + (text.last() - 0x30) as nat
    }
}

/// The integer that a text spells: decimal digits, at least one, with a
/// minus sign in front for a negative number. Anything else spells nothing.
pub open spec fn integer_value(text: Seq<u8>) -> Option<int> {
    if text.len() > 0 && text[0] == 0x2d {
        let digits = text.subrange(1, text.len() as int);
        if digits.len() > 0 && all_digits(digits) {
            Some(-(digits_value(digits) as int))
        } else {
            None
        }
    } else if text.len() > 0 && all_digits(text) {
        Some(digits_value(text) as int)
    } else {
        None
    }
}

/// The start of a text of digits spells no larger number than the whole.
pub proof fn lemma_digits_grow(text: Seq<u8>, k: int)
    requires
        all_digits(text),
        0 <= k <= text.len(),
    ensures
        digits_value(text.subrange(0, k)) <= digits_value(text),
    decreases text.len() - k,
{
    if k < text.len() {
        lemma_digits_grow(text, k + 1);
        assert(text.subrange(0, k + 1).drop_last() =~= text.subrange(0, k));
        assert(is_digit(text[k]));
    } else {
        assert(text.subrange(0, k) =~= text);
    }
}

/// Reads a text of decimal digits as a number. Gives `None` where the text is
/// empty, holds something else than digits, or spells a number that does not
/// fit.
fn parse_digits(text: &[u8], start: usize) -> (r: Option<u128>)
    requires
        start <= text@.len(),
    ensures
        ({
            let digits = text@.subrange(start as int, text@.len() as int);
            match r {
                Some(value) => digits.len() > 0 && all_digits(digits) && value == digits_value(
                    digits,
                ),
                None => digits.len() == 0 || !all_digits(digits) || digits_value(digits)
                    > u128::MAX,
            }
        }),
{
    let n: usize = text.len();
    let ghost digits = text@.subrange(start as int, n as int);
    if start == n {
        return None;
    }
    let mut value: u128 = 0;
    let mut i: usize = start;
    assert(digits.subrange(0, 0) =~= Seq::empty());
    while i < n
        invariant
            start <= i <= n,
            n == text@.len(),
            digits == text@.subrange(start as int, n as int),
            all_digits(digits.subrange(0, i - start)),
            value == digits_value(digits.subrange(0, i - start)),
        decreases n - i,
    {
        let byte: u8 = text[i];
        let ghost shown = digits.subrange(0, i - start);
        let ghost next = digits.subrange(0, i - start + 1);
        proof {
            assert(next.drop_last() =~= shown);
            assert(next.last() == byte);
            assert(digits[i - start] == byte);
        }
        if byte < 0x30 || byte > 0x39 {
            return None;
        }
        let digit: u128 = (byte - 0x30) as u128;
        assert(all_digits(next)) by {
            assert forall|k: int| 0 <= k < next.len() implies is_digit(#[trigger] next[k]) by {
                if k < shown.len() {
                    assert(next[k] == shown[k]);
                }
            }
        }
        if value > (u128::MAX - digit) / 10 {
            proof {
                assert(digits_value(next) > u128::MAX);
                if all_digits(digits) {
                    lemma_digits_grow(digits, i - start + 1);
                }
            }
            return None;
        }
        value = value * 10 + digit;
        i += 1;
    }
    assert(digits.subrange(0, n - start) =~= digits);
    Some(value)
}

/// Reads what the user typed as an integer.
///
/// Gives the number where the text spells one that fits, and `None` for
/// every other text.
pub fn parse_integer(text: &[u8]) -> (r: Option<i128>)
    ensures
        r == match integer_value(text@) {
            Some(value) => if i128::MIN <= value <= i128::MAX {
                Some(value as i128)
            } else {
                None
            },
            None => None::<i128>,
        },
{
    if text.len() > 0 && text[0] == 0x2d {
        match parse_digits(text, 1) {
            Some(magnitude) => {
                if magnitude < 0x8000_0000_0000_0000_0000_0000_0000_0000 {
                    Some(-(magnitude as i128))
                } else if magnitude == 0x8000_0000_0000_0000_0000_0000_0000_0000 {
                    Some(i128::MIN)
                } else {
                    None
                }
            },
            None => None,
        }
    } else {
        assert(text@.subrange(0, text@.len() as int) =~= text@);
        match parse_digits(text, 0) {
            Some(magnitude) => {
                if magnitude < 0x8000_0000_0000_0000_0000_0000_0000_0000 {
                    Some(magnitude as i128)
                } else {
                    None
                }
            },
            None => None,
        }
    }
}

/// The query that a number in the search field stands for: the places that
/// hold it as a 32-bit integer, least significant byte first, at any offset.
pub open spec fn number_query_for(value: i128) -> SearchQuery {
    SearchQuery {
        predicate: Predicate::Equal,
        data_type: DataType::Int32,
        literal: Some(Literal::Integer(value)),
        byte_order: ByteOrder::Little,
        alignment: Alignment::ByteAligned,
    }
}

/// Reads what the user typed into the search field as a query.
///
/// Gives the query for the number where the text spells one that fits, and
/// `None` for every other text.
pub fn number_query(text: &[u8]) -> (r: Option<SearchQuery>)
    ensures
        r == match integer_value(text@) {
            Some(value) => if i128::MIN <= value <= i128::MAX {
                Some(number_query_for(value as i128))
            } else {
                None
            },
            None => None::<SearchQuery>,
        },
        r matches Some(query) ==> query.valid_first(),
{
    match parse_integer(text) {
        Some(value) => Some(
            SearchQuery {
                predicate: Predicate::Equal,
                data_type: DataType::Int32,
                literal: Some(Literal::Integer(value)),
                byte_order: ByteOrder::Little,
                alignment: Alignment::ByteAligned,
            },
        ),
        None => None,
    }
}

} // verus!
