//! Operations on text, modelled as sequences of characters.
//!
//! Every executable function here works on a slice of characters, and its
//! contract says what it returns by a function on `Seq<char>`.

use vstd::prelude::*;

verus! {

/// The one character that ends the line announcing a delimiter.
pub open spec fn line_breaks() -> Set<char> {
    set!['\n']
}

/// The characters that always separate two tokens: the comma and the line break.
pub open spec fn separators() -> Set<char> {
    set![',', '\n']
}

/// The index of the first character of `s` that belongs to `stops`, or
/// `s.len()` where none does.
pub open spec fn first_in(s: Seq<char>, stops: Set<char>) -> nat
    decreases s.len(),
{
    if s.len() == 0 || stops.contains(s[0]) {
        0
    } else {
        1 + first_in(s.skip(1), stops)
    }
}

/// `first_in` stays within the text, passes over nothing that belongs to
/// `stops`, and rests on a character of `stops` unless it reached the end.
pub proof fn lemma_first_in(s: Seq<char>, stops: Set<char>)
    ensures
        first_in(s, stops) <= s.len(),
        forall|j: int| 0 <= j < first_in(s, stops) ==> !stops.contains(#[trigger] s[j]),
        first_in(s, stops) < s.len() ==> stops.contains(s[first_in(s, stops) as int]),
    decreases s.len(),
{
    if s.len() == 0 || stops.contains(s[0]) {
    } else {
        let rest = s.skip(1);
        lemma_first_in(rest, stops);
        assert forall|j: int| 0 <= j < first_in(s, stops) implies !stops.contains(
            #[trigger] s[j],
        ) by {
            if j > 0 {
                assert(s[j] == rest[j - 1]);
            }
        }
    }
}

/// The characters of `s`, in order.
pub fn chars_of(s: &str) -> (chars: Vec<char>)
    ensures
        chars@ == s@,
{
    let mut chars: Vec<char> = Vec::new();
    for c in it: s.chars()
        invariant
            it.seq() == s@,
            chars@ == it.seq().take(it.index()),
    {
        chars.push(c);
    }
    chars
}

/// Finds the first line break of `text`; returns `text.len()` where there is none.
pub fn find_line_break(text: &[char]) -> (i: usize)
    ensures
        i == first_in(text@, line_breaks()),
        i <= text@.len(),
{
    let mut i: usize = 0;
    assert(text@.skip(0) =~= text@);
    while i < text.len() && text[i] != '\n'
        invariant
            i <= text@.len(),
            first_in(text@, line_breaks()) == i + first_in(text@.skip(i as int), line_breaks()),
        decreases text@.len() - i,
    {
        assert(text@.skip(i as int).skip(1) =~= text@.skip(i + 1));
        i += 1;
    }
    i
}

/// Finds the first comma or line break of `text`; returns `text.len()` where
/// there is none.
pub fn find_separator(text: &[char]) -> (i: usize)
    ensures
        i == first_in(text@, separators()),
        i <= text@.len(),
{
    let mut i: usize = 0;
    assert(text@.skip(0) =~= text@);
    while i < text.len() && text[i] != ',' && text[i] != '\n'
        invariant
            i <= text@.len(),
            first_in(text@, separators()) == i + first_in(text@.skip(i as int), separators()),
        decreases text@.len() - i,
    {
        assert(text@.skip(i as int).skip(1) =~= text@.skip(i + 1));
        i += 1;
    }
    i
}

/// `text` in which every occurrence of `pattern` is replaced by the character
/// `with`. Occurrences are found from left to right and do not overlap. The
/// empty pattern occurs before every character and at the end.
pub open spec fn replaced(text: Seq<char>, pattern: Seq<char>, with: char) -> Seq<char>
    decreases text.len(),
{
    if pattern.len() == 0 {
        if text.len() == 0 {
            seq![with]
        } else {
            seq![with, text[0]] + replaced(text.skip(1), pattern, with)
        }
    } else if pattern.is_prefix_of(text) {
        seq![with] + replaced(text.skip(pattern.len() as int), pattern, with)
    } else if text.len() == 0 {
        text
    } else {
        seq![text[0]] + replaced(text.skip(1), pattern, with)
    }
}

/// Tells whether `text` begins with `pattern`.
pub fn starts_with(text: &[char], pattern: &[char]) -> (b: bool)
    ensures
        b == pattern@.is_prefix_of(text@),
{
    if pattern.len() > text.len() {
        return false;
    }
    let mut i: usize = 0;
    while i < pattern.len()
        invariant
            i <= pattern@.len() <= text@.len(),
            forall|j: int| 0 <= j < i ==> pattern@[j] == text@[j],
        decreases pattern@.len() - i,
    {
        if pattern[i] != text[i] {
            return false;
        }
        i += 1;
    }
    true
}

/// Replaces every occurrence of `pattern` in `text` by the character `with`.
pub fn replace(text: &[char], pattern: &[char], with: char) -> (out: Vec<char>)
    ensures
        out@ == replaced(text@, pattern@, with),
{
    let mut out: Vec<char> = Vec::new();
    let mut i: usize = 0;
    assert(text@.skip(0) =~= text@);
    while i < text.len()
        invariant
            i <= text@.len(),
            replaced(text@, pattern@, with) == out@ + replaced(text@.skip(i as int), pattern@, with),
        decreases text@.len() - i,
    {
        let ghost rest = text@.skip(i as int);
        if pattern.len() == 0 {
            out.push(with);
            out.push(text[i]);
            assert(rest.skip(1) =~= text@.skip(i + 1));
            i += 1;
        } else if starts_with(&text[i..text.len()], pattern) {
            out.push(with);
            assert(rest.skip(pattern@.len() as int) =~= text@.skip(i + pattern@.len()));
            i += pattern.len();
        } else {
            out.push(text[i]);
            assert(rest.skip(1) =~= text@.skip(i + 1));
            i += 1;
        }
    }
    if pattern.len() == 0 {
        out.push(with);
    }
    out
}

/// The tokens of `text`: the stretches between its commas and line breaks,
/// in order. A text with `n` separators has `n + 1` tokens, some of which may
/// be empty.
pub open spec fn tokens(text: Seq<char>) -> Seq<Seq<char>>
    decreases text.len(),
{
    let end = first_in(text, separators()) as int;
    if end >= text.len() {
        seq![text]
    } else {
        seq![text.take(end)] + tokens(text.skip(end + 1))
    }
}

/// The views of the slices in `parts`.
pub open spec fn views(parts: Seq<&[char]>) -> Seq<Seq<char>> {
    Seq::new(parts.len(), |i: int| parts[i]@)
}

/// Splits `text` at every comma and every line break.
pub fn split(text: &[char]) -> (parts: Vec<&[char]>)
    ensures
        views(parts@) == tokens(text@),
{
    let mut parts: Vec<&[char]> = Vec::new();
    let mut start: usize = 0;
    assert(text@.skip(0) =~= text@);
    loop
        invariant_except_break
            start <= text@.len(),
            tokens(text@) == views(parts@) + tokens(text@.skip(start as int)),
        ensures
            views(parts@) == tokens(text@),
        decreases text@.len() - start,
    {
        let rest = &text[start..text.len()];
        let end = find_separator(rest);
        parts.push(&rest[0..end]);
        if end == rest.len() {
            assert(rest@.take(end as int) =~= rest@);
            break ;
        }
        assert(rest@.skip(end + 1) =~= text@.skip(start + end + 1));
        start = start + end + 1;
    }
    parts
}

/// The characters that count as whitespace: those with the Unicode property
/// `White_Space`.
pub open spec fn white_space(c: char) -> bool {
    let code = c as u32;
    ||| 0x09 <= code <= 0x0D
    ||| code == 0x20
    ||| code == 0x85
    ||| code == 0xA0
    ||| code == 0x1680
    ||| 0x2000 <= code <= 0x200A
    ||| code == 0x2028
    ||| code == 0x2029
    ||| code == 0x202F
    ||| code == 0x205F
    ||| code == 0x3000
}

/// `s` without the whitespace it begins with.
pub open spec fn trimmed_start(s: Seq<char>) -> Seq<char>
    decreases s.len(),
{
    if s.len() > 0 && white_space(s[0]) {
        trimmed_start(s.skip(1))
    } else {
        s
    }
}

/// `s` without the whitespace it ends with.
pub open spec fn trimmed_end(s: Seq<char>) -> Seq<char>
    decreases s.len(),
{
    if s.len() > 0 && white_space(s.last()) {
        trimmed_end(s.drop_last())
    } else {
        s
    }
}

/// `s` without the whitespace around it.
pub open spec fn trimmed(s: Seq<char>) -> Seq<char> {
    trimmed_end(trimmed_start(s))
}

/// Tells whether `c` is whitespace.
pub fn is_whitespace(c: char) -> (b: bool)
    ensures
        b == white_space(c),
{
    let code = c as u32;
    (0x09 <= code && code <= 0x0D) || code == 0x20 || code == 0x85 || code == 0xA0 || code
        == 0x1680 || (0x2000 <= code && code <= 0x200A) || code == 0x2028 || code == 0x2029 || code
        == 0x202F || code == 0x205F || code == 0x3000
}

/// Removes the whitespace around `s`.
pub fn trim(s: &[char]) -> (t: &[char])
    ensures
        t@ == trimmed(s@),
{
    let mut from: usize = 0;
    assert(s@.skip(0) =~= s@);
    while from < s.len() && is_whitespace(s[from])
        invariant
            from <= s@.len(),
            trimmed_start(s@) == trimmed_start(s@.skip(from as int)),
        decreases s@.len() - from,
    {
        assert(s@.skip(from as int).skip(1) =~= s@.skip(from + 1));
        from += 1;
    }
    let mut to: usize = s.len();
    while to > from && is_whitespace(s[to - 1])
        invariant
            from <= to <= s@.len(),
            trimmed(s@) == trimmed_end(s@.subrange(from as int, to as int)),
        decreases to,
    {
        assert(s@.subrange(from as int, to as int).drop_last() =~= s@.subrange(
            from as int,
            to - 1,
        ));
        to -= 1;
    }
    &s[from..to]
}

} // verus!
