//! The calculator: from a line of text to the sum of the numbers in it.
//!
//! A text is a list of whole numbers with commas or line breaks between them.
//! It may open with `//`, a delimiter of its own and a line break; that
//! delimiter then separates numbers too. Numbers above [`LIMIT`] are left out
//! of the sum, a text with a number below zero is refused, and a text with
//! anything in it that is no number sums to zero.

use crate::error::NegativeNumberError;
use crate::number::{ints, parse, parsed};
use crate::text::{
    chars_of, find_line_break, first_in, lemma_first_in, line_breaks, replace, replaced, split,
    tokens, trim, trimmed, views,
};
use vstd::prelude::*;

verus! {

/// The largest number that counts towards the sum.
pub const LIMIT: i32 = 1000;

/// Tells whether `input` opens with the marker `//`, which announces a
/// delimiter.
pub open spec fn has_marker(input: Seq<char>) -> bool {
    input.len() >= 2 && input[0] == '/' && input[1] == '/'
}

/// Tells whether the line that announces a delimiter, if `input` has one, is
/// closed by a line break.
pub open spec fn well_formed(input: Seq<char>) -> bool {
    has_marker(input) ==> first_in(input, line_breaks()) < input.len()
}

/// The delimiter of `input`: what stands between the marker and the first
/// line break, or a comma where `input` has no marker.
pub open spec fn delimiter(input: Seq<char>) -> Seq<char> {
    if has_marker(input) {
        input.subrange(2, first_in(input, line_breaks()) as int)
    } else {
        seq![',']
    }
}

/// The part of `input` that holds the numbers: what follows the first line
/// break, or all of `input` where it has no marker.
pub open spec fn body(input: Seq<char>) -> Seq<char> {
    if has_marker(input) {
        input.skip(first_in(input, line_breaks()) as int + 1)
    } else {
        input
    }
}

/// The numbers that `tokens` denote once the whitespace around each is
/// removed, provided that every one of them denotes a number.
pub open spec fn numbers_of(tokens: Seq<Seq<char>>) -> Option<Seq<int>> {
    if forall|i: int| 0 <= i < tokens.len() ==> parsed(trimmed(#[trigger] tokens[i])) is Some {
        Some(Seq::new(tokens.len(), |i: int| parsed(trimmed(tokens[i])).unwrap()))
    } else {
        None
    }
}

/// The numbers of `nums` that are below zero, in order.
pub open spec fn negatives(nums: Seq<int>) -> Seq<int> {
    nums.filter(|n: int| n < 0)
}

/// The numbers of `nums` that are at most [`LIMIT`], in order.
pub open spec fn within_limit(nums: Seq<int>) -> Seq<int> {
    nums.filter(|n: int| n <= LIMIT)
}

/// The sum of `nums`.
pub open spec fn total(nums: Seq<int>) -> int
    decreases nums.len(),
{
    if nums.len() == 0 {
        0
    } else {
        total(nums.drop_last()) + nums.last()
    }
}

/// What the calculator makes of `input`: the sum, or the numbers below zero
/// for which it refuses the text.
pub open spec fn outcome(input: Seq<char>) -> Result<int, Seq<int>> {
    if input.len() == 0 {
        Ok(0)
    } else {
        match numbers_of(tokens(replaced(body(input), delimiter(input), ','))) {
            None => Ok(0),
            Some(nums) => if negatives(nums).len() > 0 {
                Err(negatives(nums))
            } else {
                Ok(total(within_limit(nums)))
            },
        }
    }
}

/// Tells whether the calculator has an answer for `input`: the line that
/// announces a delimiter is closed, and the sum fits in 32 bits.
pub open spec fn answerable(input: Seq<char>) -> bool {
    &&& well_formed(input)
    &&& outcome(input) matches Ok(sum) ==> sum <= i32::MAX
}

/// A result of the calculator as mathematical values.
pub open spec fn result_view(result: Result<i32, NegativeNumberError>) -> Result<int, Seq<int>> {
    match result {
        Ok(sum) => Ok(sum as int),
        Err(e) => Err(e@),
    }
}

/// Reads every part as a number, whitespace around it aside. Returns `None`
/// as soon as one part is no number.
pub fn parse_all(parts: &Vec<&[char]>) -> (r: Option<Vec<i32>>)
    ensures
        match r {
            Some(nums) => numbers_of(views(parts@)) == Some(ints(nums@)),
            None => numbers_of(views(parts@)) is None,
        },
{
    let mut nums: Vec<i32> = Vec::new();
    let mut i: usize = 0;
    while i < parts.len()
        invariant
            i <= parts@.len(),
            nums@.len() == i,
            forall|j: int|
                0 <= j < i ==> parsed(trimmed(#[trigger] views(parts@)[j])) == Some(
                    nums@[j] as int,
                ),
        decreases parts@.len() - i,
    {
        match parse(trim(parts[i])) {
            Some(n) => {
                nums.push(n);
            },
            None => {
                assert(parsed(trimmed(views(parts@)[i as int])) is None);
                return None;
            },
        }
        i += 1;
    }
    Some(nums)
}

/// Picks the numbers below zero out of `nums`, in order.
pub fn collect_negatives(nums: &Vec<i32>) -> (found: Vec<i32>)
    ensures
        ints(found@) == negatives(ints(nums@)),
        forall|j: int| 0 <= j < found@.len() ==> #[trigger] found@[j] < 0,
        found@.len() == 0 ==> forall|j: int| 0 <= j < nums@.len() ==> #[trigger] nums@[j] >= 0,
{
    let mut found: Vec<i32> = Vec::new();
    let mut i: usize = 0;
    proof {
        reveal(Seq::filter);
    }
    while i < nums.len()
        invariant
            i <= nums@.len(),
            ints(found@) == negatives(ints(nums@).take(i as int)),
            forall|j: int| 0 <= j < found@.len() ==> #[trigger] found@[j] < 0,
            found@.len() == 0 ==> forall|j: int| 0 <= j < i ==> #[trigger] nums@[j] >= 0,
        decreases nums@.len() - i,
    {
        proof {
            reveal(Seq::filter);
        }
        assert(ints(nums@).take(i + 1).drop_last() =~= ints(nums@).take(i as int));
        if nums[i] < 0 {
            found.push(nums[i]);
        }
        i += 1;
    }
    assert(ints(nums@).take(i as int) =~= ints(nums@));
    found
}

/// Adds up the numbers of `nums` that are at most [`LIMIT`].
pub fn sum_within_limit(nums: &Vec<i32>) -> (sum: i128)
    ensures
        sum == total(within_limit(ints(nums@))),
        (forall|j: int| 0 <= j < nums@.len() ==> #[trigger] nums@[j] >= 0) ==> sum >= 0,
{
    let mut sum: i128 = 0;
    let mut i: usize = 0;
    proof {
        reveal(Seq::filter);
    }
    while i < nums.len()
        invariant
            i <= nums@.len(),
            sum == total(within_limit(ints(nums@).take(i as int))),
            i * (i32::MIN as int) <= sum <= i * (LIMIT as int),
            (forall|j: int| 0 <= j < nums@.len() ==> #[trigger] nums@[j] >= 0) ==> sum >= 0,
        decreases nums@.len() - i,
    {
        let ghost counted = within_limit(ints(nums@).take(i as int));
        proof {
            reveal(Seq::filter);
        }
        assert(ints(nums@).take(i + 1).drop_last() =~= ints(nums@).take(i as int));
        if nums[i] <= LIMIT {
            assert(counted.push(nums@[i as int] as int).drop_last() =~= counted);
            sum = sum + nums[i] as i128;
        }
        i += 1;
    }
    assert(ints(nums@).take(i as int) =~= ints(nums@));
    sum
}

/// Sums the numbers in `numbers`, where the calculator has an answer.
///
/// Returns `None` exactly where it has none: the text opens with `//` and
/// holds no line break, or the sum is too large for 32 bits. Otherwise the
/// result is the sum, or the error that carries the numbers below zero.
pub fn checked_add(numbers: &str) -> (r: Option<Result<i32, NegativeNumberError>>)
    ensures
        r is Some <==> answerable(numbers@),
        r matches Some(result) ==> result_view(result) == outcome(numbers@),
{
    let chars = chars_of(numbers);
    let input = chars.as_slice();
    if input.len() == 0 {
        return Some(Ok(0));
    }
    let comma: Vec<char> = vec![','];
    let marked = input.len() >= 2 && input[0] == '/' && input[1] == '/';
    let (delimiter, body): (&[char], &[char]) = if marked {
        let end = find_line_break(input);
        if end == input.len() {
            return None;
        }
        proof {
            lemma_first_in(input@, line_breaks());
        }
        (&input[2..end], &input[end + 1..input.len()])
    } else {
        assert(comma@ =~= seq![',']);
        (comma.as_slice(), input)
    };
    let normalized = replace(body, delimiter, ',');
    let parts = split(normalized.as_slice());
    match parse_all(&parts) {
        None => Some(Ok(0)),
        Some(nums) => {
            let found = collect_negatives(&nums);
            if found.len() > 0 {
                Some(Err(NegativeNumberError::new(found)))
            } else {
                let sum = sum_within_limit(&nums);
                if sum > i32::MAX as i128 {
                    None
                } else {
                    Some(Ok(sum as i32))
                }
            }
        },
    }
}

/// Sums the numbers in `numbers`.
///
/// The result is the sum of the numbers that are at most [`LIMIT`]; zero for
/// the empty text and for a text in which some token is no number; or the
/// error that carries every number below zero, in the order of the text.
///
/// The caller vouches that the calculator has an answer for the text, as
/// [`answerable`] says; [`checked_add`] takes any text.
pub fn add(numbers: &str) -> (result: Result<i32, NegativeNumberError>)
    requires
        answerable(numbers@),
    ensures
        result_view(result) == outcome(numbers@),
{
    checked_add(numbers).unwrap()
}

} // verus!
