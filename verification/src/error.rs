//! The error that reports numbers below zero.

use crate::number::{append_decimal, decimal, ints};
use vstd::prelude::*;
use vstd::string::StringExecFns;

verus! {

/// The numbers in `nums` in decimal notation, in order, with a comma and a
/// space between one and the next.
pub open spec fn listed(nums: Seq<int>) -> Seq<char>
    decreases nums.len(),
{
    if nums.len() == 0 {
        Seq::empty()
    } else if nums.len() == 1 {
        decimal(nums[0])
    } else {
        listed(nums.drop_last()) + ", "@ + decimal(nums.last())
    }
}

/// What the error that carries `nums` says.
pub open spec fn message(nums: Seq<int>) -> Seq<char> {
    "negative numbers not allowed: "@ + listed(nums)
}

/// Reports the numbers below zero that a text holds. It carries all of them,
/// in the order in which the text gives them, and there is at least one.
#[derive(Debug)]
pub struct NegativeNumberError {
    negative_numbers: Vec<i32>,
}

impl View for NegativeNumberError {
    type V = Seq<int>;

    /// The numbers that the error carries.
    closed spec fn view(&self) -> Seq<int> {
        ints(self.negative_numbers@)
    }
}

impl NegativeNumberError {
    #[verifier::type_invariant]
    spec fn is_valid(self) -> bool {
        &&& self.negative_numbers@.len() > 0
        &&& forall|i: int|
            0 <= i < self.negative_numbers@.len() ==> #[trigger] self.negative_numbers@[i] < 0
    }

    /// The error that carries `negative_numbers`.
    pub(crate) fn new(negative_numbers: Vec<i32>) -> (e: Self)
        requires
            negative_numbers@.len() > 0,
            forall|i: int| 0 <= i < negative_numbers@.len() ==> #[trigger] negative_numbers@[i] < 0,
        ensures
            e@ == ints(negative_numbers@),
    {
        NegativeNumberError { negative_numbers }
    }

    /// The numbers below zero, in the order in which the text gave them.
    pub fn negative_numbers(&self) -> (nums: &Vec<i32>)
        ensures
            ints(nums@) == self@,
            nums@.len() > 0,
            forall|i: int| 0 <= i < nums@.len() ==> #[trigger] nums@[i] < 0,
    {
        proof {
            use_type_invariant(self);
        }
        &self.negative_numbers
    }

    /// The message of the error: a fixed opening, then the numbers.
    pub fn to_string(&self) -> (s: String)
        ensures
            s@ == message(self@),
    {
        let mut s = String::new();
        s.append("negative numbers not allowed: ");
        let ghost nums = self@;
        let mut i: usize = 0;
        while i < self.negative_numbers.len()
            invariant
                i <= self.negative_numbers@.len(),
                nums == ints(self.negative_numbers@),
                s@ == message(nums.take(i as int)),
            decreases self.negative_numbers@.len() - i,
        {
            if i > 0 {
                s.append(", ");
            }
            append_decimal(&mut s, self.negative_numbers[i]);
            assert(nums.take(i + 1).drop_last() =~= nums.take(i as int));
            i += 1;
        }
        assert(nums.take(i as int) =~= nums);
        s
    }
}

} // verus!
