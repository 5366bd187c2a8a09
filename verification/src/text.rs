//! Character-level helpers shared by the matcher and the scanner.
//!
//! A line of text is modelled as a `Seq<char>`. Executable code converts a
//! `&str` to a `Vec<char>` once and then works by index.

use vstd::prelude::*;

verus! {

/// `pattern` occurs in `text` as a contiguous run of characters.
pub open spec fn has_substring(text: Seq<char>, pattern: Seq<char>) -> bool {
    exists|i: int|
        0 <= i && i + pattern.len() <= text.len() && #[trigger] text.subrange(
            i,
            i + pattern.len(),
        ) == pattern
}

/// Index of the first character at or after `from` that satisfies `wanted`,
/// or `text.len()` when there is none.
pub open spec fn first_match(text: Seq<char>, wanted: spec_fn(char) -> bool, from: int) -> int
    decreases text.len() - from,
{
    if from < 0 || from >= text.len() {
        text.len() as int
    } else if wanted(text[from]) {
        from
    } else {
        first_match(text, wanted, from + 1)
    }
}

/// `first_match` returns the least matching index at or after `from`:
/// nothing before it matches, and it matches itself unless it is the end of
/// the text.
pub proof fn lemma_first_match(text: Seq<char>, wanted: spec_fn(char) -> bool, from: int)
    requires
        0 <= from <= text.len(),
    ensures
        from <= first_match(text, wanted, from) <= text.len(),
        first_match(text, wanted, from) < text.len() ==> wanted(
            text[first_match(text, wanted, from)],
        ),
        forall|k: int| from <= k < first_match(text, wanted, from) ==> !wanted(#[trigger] text[k]),
    decreases text.len() - from,
{
    if from < text.len() && !wanted(text[from]) {
        lemma_first_match(text, wanted, from + 1);
    }
}

/// An index that matches, with nothing matching between `from` and it, is
/// the one `first_match` returns.
pub proof fn lemma_first_match_is(
    text: Seq<char>,
    wanted: spec_fn(char) -> bool,
    from: int,
    at: int,
)
    requires
        0 <= from <= at <= text.len(),
        at < text.len() ==> wanted(text[at]),
        forall|k: int| from <= k < at ==> !wanted(#[trigger] text[k]),
    ensures
        first_match(text, wanted, from) == at,
    decreases at - from,
{
    if from < at {
        assert(!wanted(text[from]));
        lemma_first_match_is(text, wanted, from + 1, at);
    }
}

/// The characters of `s`, in order, as a vector that can be indexed in
/// constant time.
pub fn to_chars(s: &str) -> (chars: Vec<char>)
    ensures
        chars@ == s@,
{
    let mut chars: Vec<char> = Vec::new();
    for c in it: s.chars()
        invariant
            chars@ == it.seq().take(it.index() as int),
    {
        chars.push(c);
    }
    chars
}

/// Whether `c` occurs in `text`.
pub fn has_char(text: &Vec<char>, c: char) -> (found: bool)
    ensures
        found == text@.contains(c),
        found == has_substring(text@, seq![c]),
{
    let mut i: usize = 0;
    while i < text.len()
        invariant
            i <= text.len(),
            forall|k: int| 0 <= k < i ==> text@[k] != c,
        decreases text.len() - i,
    {
        if text[i] == c {
            proof {
                assert(text@.subrange(i as int, i as int + 1) =~= seq![c]);
            }
            return true;
        }
        i += 1;
    }
    proof {
        assert forall|k: int| 0 <= k && k + 1 <= text@.len() implies #[trigger] text@.subrange(
            k,
            k + 1,
        ) != seq![c] by {
            assert(text@.subrange(k, k + 1)[0] == text@[k]);
        }
    }
    false
}

/// Whether the two characters `a`, `b` occur next to each other, in this
/// order, somewhere in `text`.
pub fn has_pair(text: &Vec<char>, a: char, b: char) -> (found: bool)
    ensures
        found == has_substring(text@, seq![a, b]),
{
    if text.len() < 2 {
        return false;
    }
    let mut i: usize = 0;
    while i + 1 < text.len()
        invariant
            i + 1 <= text.len(),
            forall|k: int| 0 <= k < i ==> !(#[trigger] text@[k] == a && text@[k + 1] == b),
        decreases text.len() - i,
    {
        if text[i] == a && text[i + 1] == b {
            proof {
                assert(text@.subrange(i as int, i as int + 2) =~= seq![a, b]);
            }
            return true;
        }
        i += 1;
    }
    proof {
        assert forall|k: int| 0 <= k && k + 2 <= text@.len() implies #[trigger] text@.subrange(
            k,
            k + 2,
        ) != seq![a, b] by {
            assert(text@.subrange(k, k + 2)[0] == text@[k]);
            assert(text@.subrange(k, k + 2)[1] == text@[k + 1]);
        }
    }
    false
}

} // verus!
