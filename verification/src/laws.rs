//! What holds of the calculator on every text, proved from its definition.

use crate::calculator::{
    answerable, body, delimiter, has_marker, negatives, numbers_of, outcome, result_view, total,
    well_formed, within_limit, LIMIT,
};
use crate::error::{message, NegativeNumberError};
use crate::number::parsed;
use crate::text::{first_in, lemma_first_in, replaced, separators, tokens, trimmed};
use vstd::prelude::*;

verus! {

/// The longest text for which [`lemma_short_text_answerable`] vouches.
pub const SHORT: usize = 1_000_000;

/// Tells whether `a` and `b` are the same text but for which separator, the
/// comma or the line break, stands at a place where both have one.
pub open spec fn same_but_separators(a: Seq<char>, b: Seq<char>) -> bool {
    &&& a.len() == b.len()
    &&& forall|i: int|
        0 <= i < a.len() ==> #[trigger] a[i] == b[i] || (separators().contains(a[i])
            && separators().contains(b[i]))
}

/// The calculator is a function of the text: two results that it may give
/// for one text are the same sum, or carry the same numbers and so say the
/// same.
pub proof fn lemma_same_text_same_result(
    input: Seq<char>,
    first: Result<i32, NegativeNumberError>,
    second: Result<i32, NegativeNumberError>,
)
    requires
        result_view(first) == outcome(input),
        result_view(second) == outcome(input),
    ensures
        first is Ok <==> second is Ok,
        first is Ok ==> first->Ok_0 == second->Ok_0,
        first is Err ==> first->Err_0@ == second->Err_0@ && message(first->Err_0@) == message(
            second->Err_0@,
        ),
{
}

/// The empty text sums to zero.
pub proof fn lemma_empty_text(input: Seq<char>)
    requires
        input.len() == 0,
    ensures
        outcome(input) == Ok::<int, Seq<int>>(0),
        answerable(input),
{
}

/// A text in which some token is no number sums to zero, whatever the other
/// tokens hold.
pub proof fn lemma_malformed_token(input: Seq<char>, i: int)
    requires
        0 <= i < tokens(replaced(body(input), delimiter(input), ',')).len(),
        parsed(trimmed(tokens(replaced(body(input), delimiter(input), ','))[i])) is None,
    ensures
        outcome(input) == Ok::<int, Seq<int>>(0),
{
}

/// A text is refused exactly for the numbers below zero in it: the error
/// carries at least one number, and all that it carries are below zero.
pub proof fn lemma_refused_for_negatives(input: Seq<char>)
    requires
        outcome(input) is Err,
    ensures
        outcome(input)->Err_0.len() > 0,
        forall|i: int|
            0 <= i < outcome(input)->Err_0.len() ==> (#[trigger] outcome(input)->Err_0[i]) < 0,
{
    let nums = numbers_of(tokens(replaced(body(input), delimiter(input), ',')))->0;
    assert forall|i: int| 0 <= i < negatives(nums).len() implies (#[trigger] negatives(nums)[i])
        < 0 by {
        nums.lemma_filter_pred(|n: int| n < 0, i);
    }
}

/// One more number at the end of a list adds itself to the sum where it is at
/// most the limit, and nothing where it is above. It joins the numbers below
/// zero exactly where it is below zero.
pub proof fn lemma_one_more_number(nums: Seq<int>, n: int)
    ensures
        total(within_limit(nums.push(n))) == total(within_limit(nums)) + if n <= LIMIT {
            n
        } else {
            0
        },
        negatives(nums.push(n)) == if n < 0 {
            negatives(nums).push(n)
        } else {
            negatives(nums)
        },
{
    reveal(Seq::filter);
    assert(nums.push(n).drop_last() =~= nums);
    if n <= LIMIT {
        assert(within_limit(nums).push(n).drop_last() =~= within_limit(nums));
    }
}

/// The sum of the numbers that count is at most the limit for each number of
/// the list.
pub proof fn lemma_total_bound(nums: Seq<int>)
    ensures
        total(within_limit(nums)) <= LIMIT * nums.len(),
    decreases nums.len(),
{
    reveal(Seq::filter);
    if nums.len() > 0 {
        lemma_total_bound(nums.drop_last());
        assert(nums.drop_last().push(nums.last()) =~= nums);
        lemma_one_more_number(nums.drop_last(), nums.last());
    }
}

/// Replacing makes a text at most twice as long, and one character more.
pub proof fn lemma_replaced_len(text: Seq<char>, pattern: Seq<char>, with: char)
    ensures
        replaced(text, pattern, with).len() <= 2 * text.len() + 1,
    decreases text.len(),
{
    if pattern.len() == 0 {
        if text.len() > 0 {
            lemma_replaced_len(text.skip(1), pattern, with);
        }
    } else if pattern.is_prefix_of(text) {
        lemma_replaced_len(text.skip(pattern.len() as int), pattern, with);
    } else if text.len() > 0 {
        lemma_replaced_len(text.skip(1), pattern, with);
    }
}

/// Replacing a character by itself changes nothing.
pub proof fn lemma_replaced_by_itself(text: Seq<char>, c: char)
    ensures
        replaced(text, seq![c], c) == text,
    decreases text.len(),
{
    if text.len() > 0 {
        lemma_replaced_by_itself(text.skip(1), c);
    }
}

/// A text has at least one token, and at most one more than it has
/// characters.
pub proof fn lemma_tokens_len(text: Seq<char>)
    ensures
        1 <= tokens(text).len() <= text.len() + 1,
    decreases text.len(),
{
    let end = first_in(text, separators()) as int;
    if end < text.len() {
        lemma_tokens_len(text.skip(end + 1));
    }
}

/// Commas and line breaks separate alike: texts that differ only in which
/// of the two stands between the tokens have the same tokens.
pub proof fn lemma_separators_alike(a: Seq<char>, b: Seq<char>)
    requires
        same_but_separators(a, b),
    ensures
        tokens(a) == tokens(b),
    decreases a.len(),
{
    lemma_first_in(a, separators());
    lemma_first_in(b, separators());
    let end_a = first_in(a, separators()) as int;
    let end_b = first_in(b, separators()) as int;
    // Both texts have their first separator at the same place.
    assert(end_a == end_b) by {
        if end_a < end_b {
            assert(separators().contains(a[end_a]));
        }
        if end_b < end_a {
            assert(separators().contains(b[end_b]));
            assert(a[end_b] == b[end_b] || separators().contains(a[end_b]));
        }
    }
    // Before it they hold no separator, so they agree there.
    assert(a.take(end_a) =~= b.take(end_a));
    if end_a >= a.len() {
        assert(a =~= b);
    } else {
        let rest_a = a.skip(end_a + 1);
        let rest_b = b.skip(end_a + 1);
        assert forall|i: int| 0 <= i < rest_a.len() implies #[trigger] rest_a[i] == rest_b[i] || (
        separators().contains(rest_a[i]) && separators().contains(rest_b[i])) by {
            assert(rest_a[i] == a[i + end_a + 1]);
            assert(rest_b[i] == b[i + end_a + 1]);
        }
        lemma_separators_alike(rest_a, rest_b);
    }
}

/// In a text without a marker a line break does what a comma does: texts
/// that differ only in which of the two stands between the tokens have the
/// same outcome.
pub proof fn lemma_line_breaks_as_commas(a: Seq<char>, b: Seq<char>)
    requires
        same_but_separators(a, b),
        !has_marker(a),
    ensures
        outcome(a) == outcome(b),
{
    lemma_replaced_by_itself(a, ',');
    lemma_replaced_by_itself(b, ',');
    lemma_separators_alike(a, b);
}

/// The calculator has an answer for every text of at most [`SHORT`]
/// characters in which the line that announces a delimiter, if there is one,
/// is closed by a line break.
pub proof fn lemma_short_text_answerable(input: Seq<char>)
    requires
        well_formed(input),
        input.len() <= SHORT,
    ensures
        answerable(input),
{
    if input.len() > 0 {
        let text = replaced(body(input), delimiter(input), ',');
        lemma_replaced_len(body(input), delimiter(input), ',');
        lemma_tokens_len(text);
        if numbers_of(tokens(text)) is Some {
            let nums = numbers_of(tokens(text))->0;
            lemma_total_bound(nums);
            assert(LIMIT * nums.len() <= LIMIT * (2 * SHORT + 2)) by (nonlinear_arith)
                requires
                    nums.len() <= 2 * SHORT + 2,
                    LIMIT == 1000,
            ;
        }
    }
}

} // verus!
