//! The textual form of a program: integers separated by commas.

use vstd::prelude::*;
use vstd::std_specs::iter::IteratorSpec;
use vstd::string::{axiom_spec_iter, next_postcondition};

verus! {

/// Whether `c` is one of the ten decimal digits.
pub open spec fn is_digit(c: char) -> bool {
    '0' <= c && c <= '9'
}

/// The value of a decimal digit.
pub open spec fn digit_value(c: char) -> int {
    c as int - '0' as int
}

/// The value of a run of decimal digits, the most significant first.
pub open spec fn digits_value(digits: Seq<char>) -> int
    decreases digits.len(),
{
    if digits.len() == 0 {
        0
    } else {
        10 * digits_value(digits.drop_last()) + digit_value(digits.last())
    }
}

/// Whether a field starts with a sign.
pub open spec fn has_sign(field: Seq<char>) -> bool {
    field.len() > 0 && (field[0] == '-' || field[0] == '+')
}

/// The digits of a field: all of it but a leading sign.
pub open spec fn digits_of(field: Seq<char>) -> Seq<char> {
    if has_sign(field) {
        field.subrange(1, field.len() as int)
    } else {
        field
    }
}

/// The integer that a field writes: an optional `+` or `-`, then one or more
/// decimal digits and nothing else, with a value that fits a memory cell.
pub open spec fn number_of(field: Seq<char>) -> Option<isize> {
    let digits = digits_of(field);
    let magnitude = digits_value(digits);
    let value = if field.len() > 0 && field[0] == '-' {
        -magnitude
    } else {
        magnitude
    };
    if digits.len() > 0 && (forall|i: int| 0 <= i < digits.len() ==> is_digit(#[trigger] digits[i]))
        && isize::MIN <= value <= isize::MAX {
        Some(value as isize)
    } else {
        None
    }
}

/// The fields of a text: the runs of characters between its commas. A text
/// with `n` commas has `n + 1` fields, some of which may be empty.
pub open spec fn fields(text: Seq<char>) -> Seq<Seq<char>>
    decreases text.len(),
{
    if text.len() == 0 {
        seq![Seq::<char>::empty()]
    } else {
        let before = fields(text.drop_last());
        if text.last() == ',' {
            before.push(Seq::<char>::empty())
        } else {
            before.drop_last().push(before.last().push(text.last()))
        }
    }
}

/// The integers that a text writes, where each of its fields writes one.
pub open spec fn numbers_of(text: Seq<char>) -> Option<Seq<isize>> {
    let all = fields(text);
    if forall|i: int| 0 <= i < all.len() ==> (#[trigger] number_of(all[i])).is_some() {
        Some(Seq::new(all.len(), |i: int| number_of(all[i]).unwrap()))
    } else {
        None
    }
}

/// A text always has a field.
pub proof fn lemma_fields_nonempty(text: Seq<char>)
    ensures
        fields(text).len() >= 1,
    decreases text.len(),
{
    if text.len() > 0 {
        lemma_fields_nonempty(text.drop_last());
    }
}

/// A run of digits is worth no less than any run that it starts with.
proof fn lemma_digits_value_grows(digits: Seq<char>, k: int)
    requires
        0 <= k <= digits.len(),
        forall|i: int| 0 <= i < digits.len() ==> is_digit(#[trigger] digits[i]),
    ensures
        0 <= digits_value(digits.subrange(0, k)) <= digits_value(digits),
    decreases digits.len() - k,
{
    lemma_digits_value_nonnegative(digits.subrange(0, k));
    if k == digits.len() {
        assert(digits.subrange(0, k) =~= digits);
    } else {
        let longer = digits.subrange(0, k + 1);
        assert(longer.drop_last() =~= digits.subrange(0, k));
        assert(is_digit(digits[k]));
        lemma_digits_value_grows(digits, k + 1);
    }
}

/// A run of digits is worth no less than zero.
proof fn lemma_digits_value_nonnegative(digits: Seq<char>)
    requires
        forall|i: int| 0 <= i < digits.len() ==> is_digit(#[trigger] digits[i]),
    ensures
        0 <= digits_value(digits),
    decreases digits.len(),
{
    if digits.len() > 0 {
        lemma_digits_value_nonnegative(digits.drop_last());
        assert(is_digit(digits[digits.len() - 1]));
    }
}

/// The value of a decimal digit, or `None` for any other character.
fn digit(c: char) -> (value: Option<isize>)
    ensures
        value.is_some() == is_digit(c),
        is_digit(c) ==> value == Some(digit_value(c) as isize) && 0 <= digit_value(c) <= 9,
{
    if c >= '0' && c <= '9' {
        let code: u32 = c as u32;
        let zero: u32 = '0' as u32;
        Some((code - zero) as isize)
    } else {
        None
    }
}

/// Reads one field as an integer.
pub fn parse_number(field: &Vec<char>) -> (number: Option<isize>)
    ensures
        number == number_of(field@),
{
    let n: usize = field.len();
    if n == 0 {
        return None;
    }
    let negative: bool = field[0] == '-';
    let start: usize = if field[0] == '-' || field[0] == '+' {
        1
    } else {
        0
    };
    if start == n {
        return None;
    }
    let ghost digits = digits_of(field@);
    let mut value: isize = 0;
    let mut i: usize = start;
    while i < n
        invariant
            start <= i <= n,
            n == field@.len(),
            start == (if has_sign(field@) { 1int } else { 0int }),
            negative == (field@[0] == '-'),
            digits == digits_of(field@),
            digits.len() == n - start,
            forall|j: int| 0 <= j < i - start ==> is_digit(#[trigger] digits[j]),
            value == (if negative {
                -digits_value(digits.subrange(0, i - start))
            } else {
                digits_value(digits.subrange(0, i - start))
            }),
        decreases n - i,
    {
        let ghost seen = digits.subrange(0, i - start);
        let ghost longer = digits.subrange(0, i - start + 1);
        proof {
            assert(longer.drop_last() =~= seen);
            assert(longer.last() == field@[i as int]);
            assert(digits[i - start] == field@[i as int]);
        }
        let d: isize = match digit(field[i]) {
            Some(d) => d,
            None => {
                return None;
            },
        };
        let next: Option<isize> = match value.checked_mul(10) {
            None => None,
            Some(tenfold) => if negative {
                tenfold.checked_sub(d)
            } else {
                tenfold.checked_add(d)
            },
        };
        match next {
            Some(v) => {
                value = v;
            },
            None => {
                proof {
                    if forall|j: int| 0 <= j < digits.len() ==> is_digit(#[trigger] digits[j]) {
                        lemma_digits_value_grows(digits, i - start + 1);
                        lemma_digits_value_nonnegative(seen);
                    }
                }
                return None;
            },
        }
        i = i + 1;
    }
    proof {
        assert(digits.subrange(0, i - start) =~= digits);
    }
    Some(value)
}

/// Reads a text of comma-separated integers, or returns `None` where some
/// field between two commas is not an integer that fits a memory cell.
pub fn try_csv_to_vec(input: &str) -> (numbers: Option<Vec<isize>>)
    ensures
        match numbers {
            Some(read) => numbers_of(input@) == Some(read@),
            None => numbers_of(input@).is_none(),
        },
{
    broadcast use {axiom_spec_iter, next_postcondition};

    let mut chars = input.chars();
    let mut read: Vec<isize> = Vec::new();
    let mut current: Vec<char> = Vec::new();
    let mut valid: bool = true;
    let ghost mut at: int = 0;
    let ghost mut done: Seq<Seq<char>> = Seq::empty();
    loop
        invariant
            0 <= at <= input@.len(),
            chars.remaining() == input@.subrange(at, input@.len() as int),
            fields(input@.subrange(0, at)) == done.push(current@),
            valid ==> read@.len() == done.len() && forall|k: int|
                0 <= k < done.len() ==> #[trigger] number_of(done[k]) == Some(read@[k]),
            !valid ==> exists|k: int| 0 <= k < done.len() && (#[trigger] number_of(done[k])).is_none(),
        ensures
            at == input@.len(),
        decreases input@.len() - at,
    {
        match chars.next() {
            None => {
                assert(input@.subrange(at, input@.len() as int).len() == 0);
                break;
            },
            Some(c) => {
                let ghost longer = input@.subrange(0, at + 1);
                proof {
                    assert(longer.drop_last() =~= input@.subrange(0, at));
                    assert(longer.last() == c);
                    assert(done.push(current@).drop_last() =~= done);
                }
                if c == ',' {
                    let ghost witness = if valid {
                        done.len() as int
                    } else {
                        choose|k: int| 0 <= k < done.len() && (#[trigger] number_of(done[k])).is_none()
                    };
                    match parse_number(&current) {
                        Some(value) => {
                            if valid {
                                read.push(value);
                            }
                        },
                        None => {
                            valid = false;
                        },
                    }
                    proof {
                        done = done.push(current@);
                        assert(!valid ==> number_of(done[witness]).is_none());
                    }
                    current = Vec::new();
                } else {
                    current.push(c);
                }
                proof {
                    at = at + 1;
                }
            },
        }
    }
    proof {
        assert(input@.subrange(0, at) =~= input@);
    }
    let ghost all = done.push(current@);
    match parse_number(&current) {
        Some(value) => {
            if valid {
                read.push(value);
                proof {
                    assert forall|k: int| 0 <= k < all.len() implies (#[trigger] number_of(
                        all[k],
                    )).is_some() by {
                        if k < done.len() {
                            assert(number_of(done[k]) == Some(read@[k]));
                        }
                    }
                    assert(read@ =~= Seq::new(all.len(), |i: int| number_of(all[i]).unwrap())) by {
                        assert forall|k: int| 0 <= k < all.len() implies read@[k] == number_of(
                            all[k],
                        ).unwrap() by {
                            if k < done.len() {
                                assert(number_of(done[k]) == Some(read@[k]));
                            }
                        }
                    }
                }
                Some(read)
            } else {
                proof {
                    let k = choose|k: int|
                        0 <= k < done.len() && (#[trigger] number_of(done[k])).is_none();
                    assert(number_of(all[k]).is_none());
                }
                None
            }
        },
        None => {
            proof {
                assert(number_of(all[all.len() - 1]).is_none());
            }
            None
        },
    }
}

/// Reads a text of comma-separated integers.
pub fn csv_to_vec(input: String) -> (numbers: Vec<isize>)
    requires
        numbers_of(input@).is_some(),
    ensures
        numbers_of(input@) == Some(numbers@),
{
    match try_csv_to_vec(input.as_str()) {
        Some(numbers) => numbers,
        None => unreached(),
    }
}

} // verus!
