//! Digesters: what turns the matched symbols into a value of the
//! application.

use crate::symbol::Symbol;
use vstd::prelude::*;

verus! {

/// Turns a run of matched symbols into a value. A digester sees the matched
/// symbols only, and what it makes of them depends on nothing else.
pub trait Digester<S: Symbol> {
    type Output;

    /// The runs that the digester can digest.
    spec fn accepts(symbols: Seq<S>) -> bool;

    /// `output` is what `symbols` are digested into.
    spec fn digests(symbols: Seq<S>, output: Self::Output) -> bool;

    /// Turns `symbols` into a value.
    fn digest(symbols: &[S]) -> (output: Self::Output)
        requires
            Self::accepts(symbols@),
        ensures
            Self::digests(symbols@, output),
    ;
}

/// Reads a run of decimal digits, with or without a sign before them, as a
/// signed integer.
pub struct IntDigester;

/// Collects a run of characters into a string.
pub struct StringDigester;

/// `symbol` is one of the ten decimal digits.
pub open spec fn is_digit(symbol: char) -> bool {
    '0' <= symbol <= '9'
}

/// The number that a decimal digit stands for.
pub open spec fn digit_value(symbol: char) -> int {
    symbol as int - '0' as int
}

/// `symbols` are decimal digits, and at least one.
pub open spec fn all_digits(symbols: Seq<char>) -> bool {
    &&& symbols.len() >= 1
    &&& forall|i: int| 0 <= i < symbols.len() ==> is_digit(#[trigger] symbols[i])
}

/// The number that a run of decimal digits stands for, the first digit being
/// the most significant.
pub open spec fn digits_value(symbols: Seq<char>) -> int
    decreases symbols.len(),
{
    if symbols.len() == 0 {
        0
    } else {
        10 * digits_value(symbols.drop_last()) + digit_value(symbols.last())
    }
}

/// `symbols` begin with a sign.
pub open spec fn is_signed(symbols: Seq<char>) -> bool {
    symbols.len() >= 1 && (symbols[0] == '+' || symbols[0] == '-')
}

/// `symbols` are written as a decimal integer: an optional `+` or `-`, then
/// digits, and nothing else.
pub open spec fn is_integer(symbols: Seq<char>) -> bool {
    if is_signed(symbols) {
        all_digits(symbols.skip(1))
    } else {
        all_digits(symbols)
    }
}

/// The integer that `symbols` are written as.
pub open spec fn integer_value(symbols: Seq<char>) -> int {
    if is_signed(symbols) {
        if symbols[0] == '-' {
            -digits_value(symbols.skip(1))
        } else {
            digits_value(symbols.skip(1))
        }
    } else {
        digits_value(symbols)
    }
}

/// A run of digits stands for a number that is not negative, and for one
/// that is no smaller than the number any of its beginnings stands for.
proof fn lemma_digits_value_grows(symbols: Seq<char>, shorter: int)
    requires
        forall|i: int| 0 <= i < symbols.len() ==> is_digit(#[trigger] symbols[i]),
        0 <= shorter <= symbols.len(),
    ensures
        0 <= digits_value(symbols.take(shorter)) <= digits_value(symbols),
    decreases symbols.len() - shorter,
{
    if shorter == symbols.len() {
        assert(symbols.take(shorter) =~= symbols);
        lemma_digits_value_positive(symbols);
    } else {
        lemma_digits_value_grows(symbols, shorter + 1);
        let longer = symbols.take(shorter + 1);
        assert(longer.drop_last() =~= symbols.take(shorter));
        lemma_digits_value_positive(symbols.take(shorter));
    }
}

/// A run of digits stands for a number that is not negative.
proof fn lemma_digits_value_positive(symbols: Seq<char>)
    requires
        forall|i: int| 0 <= i < symbols.len() ==> is_digit(#[trigger] symbols[i]),
    ensures
        0 <= digits_value(symbols),
    decreases symbols.len(),
{
    if symbols.len() > 0 {
        lemma_digits_value_positive(symbols.drop_last());
    }
}

impl IntDigester {
    /// Reads `symbols` as a decimal integer. Nothing comes back where they
    /// are not written as one, or where the integer does not fit the type.
    pub fn parse(symbols: &[char]) -> (value: Option<isize>)
        ensures
            value == if <IntDigester as Digester<char>>::accepts(symbols@) {
                Some(integer_value(symbols@) as isize)
            } else {
                None
            },
    {
        let count = symbols.len();
        if count == 0 {
            return None;
        }
        let negative = symbols[0] == '-';
        let first: usize = if negative || symbols[0] == '+' {
            1
        } else {
            0
        };
        if first == count {
            return None;
        }
        let ghost digits = symbols@.skip(first as int);
        proof {
            if first == 0 {
                assert(digits =~= symbols@);
            }
        }
        let mut value: isize = 0;
        let mut i: usize = first;
        while i < count
            invariant
                first <= i <= count == symbols@.len(),
                first < count,
                digits == symbols@.skip(first as int),
                is_integer(symbols@) == all_digits(digits),
                integer_value(symbols@) == if negative {
                    -digits_value(digits)
                } else {
                    digits_value(digits)
                },
                forall|j: int| 0 <= j < i - first ==> is_digit(#[trigger] digits[j]),
                value == if negative {
                    -digits_value(digits.take(i - first))
                } else {
                    digits_value(digits.take(i - first))
                },
            decreases count - i,
        {
            let symbol = symbols[i];
            assert(symbol == digits[i - first]);
            if symbol < '0' || symbol > '9' {
                return None;
            }
            let digit: isize = Self::digit(symbol);
            proof {
                assert(digits.take(i - first + 1).drop_last() =~= digits.take(i - first));
                if all_digits(digits) {
                    lemma_digits_value_grows(digits, i - first + 1);
                }
            }
            let shifted = value.checked_mul(10);
            let next = match shifted {
                Some(shifted) => if negative {
                    shifted.checked_sub(digit)
                } else {
                    shifted.checked_add(digit)
                },
                None => None,
            };
            match next {
                Some(next) => {
                    value = next;
                },
                None => {
                    return None;
                },
            }
            i += 1;
        }
        assert(digits.take(count - first) =~= digits);
        Some(value)
    }

    /// The number that the decimal digit `symbol` stands for.
    fn digit(symbol: char) -> (value: isize)
        requires
            is_digit(symbol),
        ensures
            value == digit_value(symbol),
    {
        (symbol as u8 - 48u8) as isize
    }
}

impl Digester<char> for IntDigester {
    type Output = isize;

    open spec fn accepts(symbols: Seq<char>) -> bool {
        is_integer(symbols) && isize::MIN <= integer_value(symbols) <= isize::MAX
    }

    open spec fn digests(symbols: Seq<char>, output: isize) -> bool {
        output == integer_value(symbols)
    }

    fn digest(symbols: &[char]) -> (output: isize) {
        Self::parse(symbols).unwrap()
    }
}

/// `String::push` appends the character to the end of the string and leaves
/// the characters before it as they were.
pub assume_specification[ String::push ](text: &mut String, symbol: char)
    ensures
        final(text)@ == old(text)@.push(symbol),
;

impl Digester<char> for StringDigester {
    type Output = String;

    open spec fn accepts(symbols: Seq<char>) -> bool {
        true
    }

    open spec fn digests(symbols: Seq<char>, output: String) -> bool {
        output@ == symbols
    }

    fn digest(symbols: &[char]) -> (output: String) {
        let mut output = String::new();
        let mut i: usize = 0;
        while i < symbols.len()
            invariant
                i <= symbols@.len(),
                output@ == symbols@.take(i as int),
            decreases symbols@.len() - i,
        {
            output.push(symbols[i]);
            i += 1;
        }
        assert(symbols@.take(i as int) =~= symbols@);
        output
    }
}

} // verus!
