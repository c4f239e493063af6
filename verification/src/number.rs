//! Whole numbers in decimal notation: reading them from text and writing
//! them back.

use vstd::prelude::*;
use vstd::string::StringExecFns;

verus! {

/// The machine numbers `nums` as mathematical integers.
pub open spec fn ints(nums: Seq<i32>) -> Seq<int> {
    nums.map_values(|n: i32| n as int)
}

/// Tells whether `c` is one of the ten decimal digits.
pub open spec fn is_digit(c: char) -> bool {
    '0' <= c <= '9'
}

/// The value of the decimal digit `c`.
pub open spec fn digit_value(c: char) -> nat
    recommends
        is_digit(c),
{
    (c as int - '0' as int) as nat
}

/// Tells whether `s` holds decimal digits only.
pub open spec fn all_digits(s: Seq<char>) -> bool {
    forall|i: int| 0 <= i < s.len() ==> is_digit(#[trigger] s[i])
}

/// The number that the digits `s` denote in base ten; leading zeros are
/// allowed, and no digits at all denote zero.
pub open spec fn digits_value(s: Seq<char>) -> nat
    recommends
        all_digits(s),
    decreases s.len(),
{
    if s.len() == 0 {
        0
    } else {
        digits_value(s.drop_last()) * 10 + digit_value(s.last())
    }
}

/// Tells whether `s` begins with a sign, `+` or `-`.
pub open spec fn has_sign(s: Seq<char>) -> bool {
    s.len() > 0 && (s[0] == '+' || s[0] == '-')
}

/// The number that `s` denotes, where it denotes one that fits in 32 bits
/// with a sign: an optional sign, `+` or `-`, and then one or more decimal
/// digits with nothing before, between or after them.
pub open spec fn parsed(s: Seq<char>) -> Option<int> {
    let digits = if has_sign(s) {
        s.skip(1)
    } else {
        s
    };
    let magnitude = digits_value(digits) as int;
    let value = if has_sign(s) && s[0] == '-' {
        -magnitude
    } else {
        magnitude
    };
    if digits.len() > 0 && all_digits(digits) && i32::MIN <= value <= i32::MAX {
        Some(value)
    } else {
        None
    }
}

/// Reads `s` as a number in base ten.
pub fn parse(s: &[char]) -> (r: Option<i32>)
    ensures
        match r {
            Some(n) => parsed(s@) == Some(n as int),
            None => parsed(s@) is None,
        },
{
    let signed = s.len() > 0 && (s[0] == '+' || s[0] == '-');
    let negative = signed && s[0] == '-';
    let first: usize = if signed {
        1
    } else {
        0
    };
    let ghost digits = if signed {
        s@.skip(1)
    } else {
        s@
    };
    if first == s.len() {
        return None;
    }
    // The magnitude read so far, as long as it is at most 2^31.
    let mut magnitude: i64 = 0;
    let mut too_large = false;
    let mut i: usize = first;
    while i < s.len()
        invariant
            first <= i <= s@.len(),
            first < s@.len(),
            signed == has_sign(s@),
            negative == (has_sign(s@) && s@[0] == '-'),
            first == if signed { 1int } else { 0int },
            digits == if signed { s@.skip(1) } else { s@ },
            all_digits(digits.take(i - first)),
            !too_large ==> magnitude == digits_value(digits.take(i - first)) && magnitude
                <= 0x8000_0000,
            too_large ==> digits_value(digits.take(i - first)) > 0x8000_0000,
        decreases s@.len() - i,
    {
        let c = s[i];
        let ghost read = digits.take(i - first);
        let ghost next = digits.take(i - first + 1);
        assert(next.drop_last() =~= read);
        if !('0' <= c && c <= '9') {
            return None;
        }
        assert forall|j: int| 0 <= j < next.len() implies is_digit(#[trigger] next[j]) by {
            if j < read.len() {
                assert(next[j] == read[j]);
            }
        }
        if !too_large {
            magnitude = magnitude * 10 + (c as u32 - '0' as u32) as i64;
            if magnitude > 0x8000_0000 {
                too_large = true;
            }
        }
        i += 1;
    }
    assert(digits.take(i - first) =~= digits);
    if too_large {
        return None;
    }
    let value: i64 = if negative {
        -magnitude
    } else {
        magnitude
    };
    if value > 0x7fff_ffff {
        return None;
    }
    Some(value as i32)
}

/// The character that stands for the digit `d`.
pub open spec fn digit_char(d: nat) -> char
    recommends
        d < 10,
{
    ('0' as int + d) as char
}

/// The decimal digits of `n`, the most significant first, without leading
/// zeros; zero is written `0`.
pub open spec fn digits_of(n: nat) -> Seq<char>
    decreases n,
{
    if n < 10 {
        seq![digit_char(n)]
    } else {
        digits_of(n / 10).push(digit_char(n % 10))
    }
}

/// The number `n` in decimal notation, with a `-` in front where it is
/// negative.
pub open spec fn decimal(n: int) -> Seq<char> {
    if n < 0 {
        seq!['-'] + digits_of((-n) as nat)
    } else {
        digits_of(n as nat)
    }
}

/// The digit `d` as text.
fn digit_str(d: u32) -> (s: &'static str)
    requires
        d < 10,
    ensures
        s@ == seq![digit_char(d as nat)],
{
    proof {
        reveal_strlit("0");
        reveal_strlit("1");
        reveal_strlit("2");
        reveal_strlit("3");
        reveal_strlit("4");
        reveal_strlit("5");
        reveal_strlit("6");
        reveal_strlit("7");
        reveal_strlit("8");
        reveal_strlit("9");
    }
    let s = match d {
        0 => "0",
        1 => "1",
        2 => "2",
        3 => "3",
        4 => "4",
        5 => "5",
        6 => "6",
        7 => "7",
        8 => "8",
        _ => "9",
    };
    s
}

/// Writes the decimal digits of `n` at the end of `out`.
fn append_digits(out: &mut String, n: u32)
    ensures
        final(out)@ == old(out)@ + digits_of(n as nat),
    decreases n,
{
    if n >= 10 {
        append_digits(out, n / 10);
    }
    out.append(digit_str(n % 10));
}

/// Writes `n` in decimal notation at the end of `out`.
pub fn append_decimal(out: &mut String, n: i32)
    ensures
        final(out)@ == old(out)@ + decimal(n as int),
{
    if n < 0 {
        proof {
            reveal_strlit("-");
        }
        out.append("-");
        append_digits(out, (-(n as i64)) as u32);
    } else {
        append_digits(out, n as u32);
    }
}

/// What `digits_of` writes for `n` is at least one digit, digits only, and
/// denotes `n`.
pub proof fn lemma_digits_of(n: nat)
    ensures
        digits_of(n).len() > 0,
        all_digits(digits_of(n)),
        digits_value(digits_of(n)) == n,
    decreases n,
{
    if n < 10 {
        assert(digits_value(digits_of(n).drop_last()) == 0);
    } else {
        let front = digits_of(n / 10);
        lemma_digits_of(n / 10);
        assert(digits_of(n).drop_last() =~= front);
        assert forall|i: int| 0 <= i < digits_of(n).len() implies is_digit(
            #[trigger] digits_of(n)[i],
        ) by {
            if i < front.len() {
                assert(digits_of(n)[i] == front[i]);
            }
        }
    }
}

/// Reading a number that was written in decimal notation gives the number
/// back.
pub proof fn lemma_decimal_parses_back(n: int)
    requires
        i32::MIN <= n <= i32::MAX,
    ensures
        parsed(decimal(n)) == Some(n),
{
    if n < 0 {
        lemma_digits_of((-n) as nat);
        assert(decimal(n).skip(1) =~= digits_of((-n) as nat));
    } else {
        lemma_digits_of(n as nat);
    }
}

} // verus!
