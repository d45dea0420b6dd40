//! Cutting the literal of an array into the literals of its elements.

use crate::text::{
    all_delimiters, chars_of, fragments, is_clean, lemma_delimiters_cut_alike,
    lemma_fragments_are_clean, split_fragments, starts_with, starts_with_text,
};
use vstd::prelude::*;
use vstd::string::StrSliceExecFns;

verus! {

/// The elements of a literal of arrays, found from index `at` on by walking
/// up to, and not onto, its last character.
///
/// `depth` counts the brackets that stand open at `at`, inside the outermost
/// one, and `start` is where the one at depth 0 was opened. An element runs
/// from a bracket that opens at depth 0 to the bracket that closes it. A
/// closing bracket at depth 0 is passed over.
pub open spec fn nested_groups_from(text: Seq<char>, at: int, depth: nat, start: int) -> Seq<
    Seq<char>,
>
    decreases text.len() - at,
{
    if at < 0 || at >= text.len() - 1 {
        Seq::empty()
    } else if text[at] == '[' {
        nested_groups_from(
            text,
            at + 1,
            depth + 1,
            if depth == 0 {
                at
            } else {
                start
            },
        )
    } else if text[at] == ']' && depth == 1 {
        seq![text.subrange(start, at + 1)] + nested_groups_from(text, at + 1, 0, start)
    } else if text[at] == ']' && depth > 1 {
        nested_groups_from(text, at + 1, (depth - 1) as nat, start)
    } else {
        nested_groups_from(text, at + 1, depth, start)
    }
}

/// The literals of the elements of the array literal `array`, in order.
///
/// A literal that begins with `[[` holds arrays: its elements are the
/// bracketed stretches at depth 0 inside the outermost bracket. Any other
/// literal is cut at spaces, commas and brackets, and the empty pieces are
/// dropped.
pub open spec fn grouped(array: Seq<char>) -> Seq<Seq<char>> {
    if starts_with_text(array, "[["@) {
        nested_groups_from(array, 1, 0, 0)
    } else {
        fragments(array, " [,]"@)
    }
}

/// Whether `element` begins with an opening bracket and ends with a closing
/// one.
pub open spec fn is_bracketed(element: Seq<char>) -> bool {
    element.len() >= 2 && element.first() == '[' && element.last() == ']'
}

/// Every element found by the walk is a bracketed stretch.
pub proof fn lemma_nested_groups_are_bracketed(text: Seq<char>, at: int, depth: nat, start: int)
    requires
        0 <= at,
        depth > 0 ==> 0 <= start < at && text[start] == '[',
    ensures
        forall|i: int|
            0 <= i < nested_groups_from(text, at, depth, start).len() ==> is_bracketed(
                #[trigger] nested_groups_from(text, at, depth, start)[i],
            ),
    decreases text.len() - at,
{
    let found = nested_groups_from(text, at, depth, start);
    if at >= text.len() - 1 {
        assert(found.len() == 0);
    } else if text[at] == '[' {
        let opened = if depth == 0 {
            at
        } else {
            start
        };
        lemma_nested_groups_are_bracketed(text, at + 1, depth + 1, opened);
        assert(found == nested_groups_from(text, at + 1, depth + 1, opened));
    } else if text[at] == ']' && depth == 1 {
        lemma_nested_groups_are_bracketed(text, at + 1, 0, start);
        let rest = nested_groups_from(text, at + 1, 0, start);
        assert(found == seq![text.subrange(start, at + 1)] + rest);
        assert(is_bracketed(text.subrange(start, at + 1)));
        assert forall|i: int| 0 <= i < found.len() implies is_bracketed(#[trigger] found[i]) by {
            if i > 0 {
                assert(found[i] == rest[i - 1]);
            }
        }
    } else if text[at] == ']' && depth > 1 {
        lemma_nested_groups_are_bracketed(text, at + 1, (depth - 1) as nat, start);
        assert(found == nested_groups_from(text, at + 1, (depth - 1) as nat, start));
    } else {
        lemma_nested_groups_are_bracketed(text, at + 1, depth, start);
        assert(found == nested_groups_from(text, at + 1, depth, start));
    }
}

/// The elements of a literal of arrays are bracketed stretches.
pub proof fn lemma_groups_of_arrays_are_bracketed(array: Seq<char>)
    requires
        starts_with_text(array, "[["@),
    ensures
        forall|i: int|
            0 <= i < grouped(array).len() ==> is_bracketed(#[trigger] grouped(array)[i]),
{
    lemma_nested_groups_are_bracketed(array, 1, 0, 0);
}

/// The elements of a literal that holds no arrays are not empty, and none
/// holds a space, a comma or a bracket.
pub proof fn lemma_flat_groups_are_clean(array: Seq<char>)
    requires
        !starts_with_text(array, "[["@),
    ensures
        forall|i: int|
            0 <= i < grouped(array).len() ==> is_clean(#[trigger] grouped(array)[i], " [,]"@),
{
    lemma_fragments_are_clean(array, " [,]"@);
}

/// In a literal that holds no arrays it does not matter which of space, comma
/// and bracket, or how many of them, stand between two elements.
pub proof fn lemma_separators_group_alike(
    before: Seq<char>,
    gap: Seq<char>,
    other_gap: Seq<char>,
    after: Seq<char>,
)
    requires
        gap.len() > 0,
        other_gap.len() > 0,
        all_delimiters(gap, " [,]"@),
        all_delimiters(other_gap, " [,]"@),
        !starts_with_text(before + gap + after, "[["@),
        !starts_with_text(before + other_gap + after, "[["@),
    ensures
        grouped(before + gap + after) == grouped(before + other_gap + after),
{
    lemma_delimiters_cut_alike(before, gap, other_gap, after, " [,]"@);
}

/// The literals of the elements of the array literal `array`, in order.
pub fn group_array(array: &str) -> (elements: Vec<String>)
    ensures
        elements.deep_view() == grouped(array@),
{
    let chars = chars_of(array);
    let opening = chars_of("[[");
    if !starts_with(chars.as_slice(), opening.as_slice()) {
        return split_fragments(array, " [,]");
    }
    proof {
        reveal_strlit("[[");
    }
    let n = chars.len();
    let mut elements: Vec<String> = Vec::new();
    let mut start: usize = 0;
    let mut depth: usize = 0;
    let mut i: usize = 1;
    while i < n - 1
        invariant
            1 <= i <= n - 1,
            n == chars.len(),
            chars@ == array@,
            depth <= i,
            depth > 0 ==> start < i,
            grouped(array@) == elements.deep_view() + nested_groups_from(
                array@,
                i as int,
                depth as nat,
                start as int,
            ),
        decreases n - i,
    {
        let c = chars[i];
        if c == '[' {
            if depth == 0 {
                start = i;
            }
            depth += 1;
        } else if c == ']' && depth == 1 {
            depth = 0;
            let piece = array.substring_char(start, i + 1).to_owned();
            elements.push(piece);
        } else if c == ']' && depth > 1 {
            depth -= 1;
        }
        i += 1;
    }
    elements
}

} // verus!
