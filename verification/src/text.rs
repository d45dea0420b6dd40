//! Text as a sequence of characters: searching, comparing and splitting.
//!
//! Every string of the library is modelled by its view, a `Seq<char>`. The
//! executable functions work on the characters of a string, taken once with
//! [`chars_of`].

use vstd::prelude::*;
use vstd::string::StrSliceExecFns;

verus! {

/// `needle` stands in `text` at index `at`.
pub open spec fn occurs_at(text: Seq<char>, needle: Seq<char>, at: int) -> bool {
    &&& 0 <= at
    &&& at + needle.len() <= text.len()
    &&& text.subrange(at, at + needle.len()) == needle
}

/// `needle` stands somewhere in `text`.
pub open spec fn contains_text(text: Seq<char>, needle: Seq<char>) -> bool {
    exists|at: int| occurs_at(text, needle, at)
}

/// `text` begins with `prefix`.
pub open spec fn starts_with_text(text: Seq<char>, prefix: Seq<char>) -> bool {
    occurs_at(text, prefix, 0)
}

/// The characters of `s`, in order.
pub fn chars_of(s: &str) -> (out: Vec<char>)
    ensures
        out@ == s@,
{
    let mut out: Vec<char> = Vec::new();
    for c in it: s.chars()
        invariant
            out@ == it.seq().take(it.index() as int),
            it.seq() == s@,
    {
        out.push(c);
    }
    out
}

/// Whether two texts hold the same characters.
pub fn same_text(a: &[char], b: &[char]) -> (same: bool)
    ensures
        same == (a@ == b@),
{
    if a.len() != b.len() {
        return false;
    }
    let mut i: usize = 0;
    while i < a.len()
        invariant
            i <= a.len(),
            a.len() == b.len(),
            a@.take(i as int) == b@.take(i as int),
        decreases a.len() - i,
    {
        if a[i] != b[i] {
            return false;
        }
        i += 1;
    }
    assert(a@ == a@.take(i as int));
    assert(b@ == b@.take(i as int));
    true
}

/// Whether `needle` stands in `text` at index `at`.
pub fn occurs_at_index(text: &[char], needle: &[char], at: usize) -> (found: bool)
    ensures
        found == occurs_at(text@, needle@, at as int),
{
    if needle.len() > text.len() || at > text.len() - needle.len() {
        return false;
    }
    let ghost window = text@.subrange(at as int, at + needle.len());
    let mut i: usize = 0;
    while i < needle.len()
        invariant
            i <= needle.len(),
            at + needle.len() <= text.len(),
            window == text@.subrange(at as int, at + needle.len()),
            window.take(i as int) == needle@.take(i as int),
        decreases needle.len() - i,
    {
        if text[at + i] != needle[i] {
            return false;
        }
        i += 1;
    }
    assert(window == window.take(i as int));
    assert(needle@ == needle@.take(i as int));
    true
}

/// Whether `needle` stands somewhere in `text`.
pub fn contains(text: &[char], needle: &[char]) -> (found: bool)
    ensures
        found == contains_text(text@, needle@),
{
    if needle.len() > text.len() {
        return false;
    }
    let last: usize = text.len() - needle.len();
    let mut at: usize = 0;
    loop
        invariant
            at <= last,
            last == text.len() - needle.len(),
            forall|k: int| 0 <= k < at ==> !occurs_at(text@, needle@, k),
        decreases last - at,
    {
        if occurs_at_index(text, needle, at) {
            return true;
        }
        if at == last {
            return false;
        }
        at += 1;
    }
}

/// Whether `text` begins with `prefix`.
pub fn starts_with(text: &[char], prefix: &[char]) -> (found: bool)
    ensures
        found == starts_with_text(text@, prefix@),
{
    occurs_at_index(text, prefix, 0)
}

/// Whether `c` is one of `set`.
pub fn is_one_of(c: char, set: &[char]) -> (found: bool)
    ensures
        found == set@.contains(c),
{
    let mut i: usize = 0;
    while i < set.len()
        invariant
            i <= set.len(),
            forall|k: int| 0 <= k < i ==> set@[k] != c,
        decreases set.len() - i,
    {
        if set[i] == c {
            return true;
        }
        i += 1;
    }
    false
}

/// How many characters at the start of `text` are not in `delimiters`.
pub open spec fn run_len(text: Seq<char>, delimiters: Seq<char>) -> nat
    decreases text.len(),
{
    if text.len() == 0 || delimiters.contains(text[0]) {
        0
    } else {
        1 + run_len(text.skip(1), delimiters)
    }
}

/// The pieces into which the characters of `delimiters` cut `text`, in order,
/// without the empty ones.
pub open spec fn fragments(text: Seq<char>, delimiters: Seq<char>) -> Seq<Seq<char>>
    decreases text.len(),
{
    if text.len() == 0 {
        Seq::empty()
    } else if delimiters.contains(text[0]) {
        fragments(text.skip(1), delimiters)
    } else {
        let n = run_len(text, delimiters) as int;
        proof {
            lemma_run_is_clear(text, delimiters);
        }
        seq![text.take(n)] + fragments(text.skip(n), delimiters)
    }
}

/// A stretch of `n` characters without a delimiter, followed by a delimiter or
/// by the end of `text`, is the run that `run_len` measures.
pub proof fn lemma_run_len(text: Seq<char>, delimiters: Seq<char>, n: nat)
    requires
        n <= text.len(),
        forall|k: int| 0 <= k < n ==> !delimiters.contains(#[trigger] text[k]),
        n == text.len() || delimiters.contains(text[n as int]),
    ensures
        run_len(text, delimiters) == n,
    decreases n,
{
    if n > 0 {
        lemma_run_len(text.skip(1), delimiters, (n - 1) as nat);
    }
}

/// Whether every character of `text` is one of `delimiters`.
pub open spec fn all_delimiters(text: Seq<char>, delimiters: Seq<char>) -> bool {
    forall|i: int| 0 <= i < text.len() ==> delimiters.contains(#[trigger] text[i])
}

/// No delimiter stands in a run, and a delimiter or the end of the text
/// follows it.
pub proof fn lemma_run_is_clear(text: Seq<char>, delimiters: Seq<char>)
    ensures
        run_len(text, delimiters) <= text.len(),
        forall|k: int|
            0 <= k < run_len(text, delimiters) ==> !delimiters.contains(#[trigger] text[k]),
        run_len(text, delimiters) == text.len() || delimiters.contains(
            text[run_len(text, delimiters) as int],
        ),
    decreases text.len(),
{
    if text.len() > 0 && !delimiters.contains(text[0]) {
        let rest = text.skip(1);
        lemma_run_is_clear(rest, delimiters);
        assert forall|k: int| 0 <= k < run_len(text, delimiters) implies !delimiters.contains(
            #[trigger] text[k],
        ) by {
            if k > 0 {
                assert(text[k] == rest[k - 1]);
            }
        }
    }
}

/// Whether `piece` is not empty and holds no delimiter.
pub open spec fn is_clean(piece: Seq<char>, delimiters: Seq<char>) -> bool {
    &&& piece.len() > 0
    &&& forall|k: int| 0 <= k < piece.len() ==> !delimiters.contains(#[trigger] piece[k])
}

/// No piece is empty and none holds a delimiter.
pub proof fn lemma_fragments_are_clean(text: Seq<char>, delimiters: Seq<char>)
    ensures
        forall|i: int|
            0 <= i < fragments(text, delimiters).len() ==> is_clean(
                #[trigger] fragments(text, delimiters)[i],
                delimiters,
            ),
    decreases text.len(),
{
    let pieces = fragments(text, delimiters);
    if text.len() == 0 {
        assert(pieces.len() == 0);
    } else if delimiters.contains(text[0]) {
        lemma_fragments_are_clean(text.skip(1), delimiters);
        assert(pieces == fragments(text.skip(1), delimiters));
    } else {
        let n = run_len(text, delimiters) as int;
        lemma_run_is_clear(text, delimiters);
        lemma_fragments_are_clean(text.skip(n), delimiters);
        let rest = fragments(text.skip(n), delimiters);
        assert(pieces == seq![text.take(n)] + rest);
        assert(is_clean(text.take(n), delimiters));
        assert forall|i: int| 0 <= i < pieces.len() implies is_clean(
            #[trigger] pieces[i],
            delimiters,
        ) by {
            if i > 0 {
                assert(pieces[i] == rest[i - 1]);
            }
        }
    }
}

/// Delimiters at the start of a text add no piece.
pub proof fn lemma_leading_delimiters(gap: Seq<char>, text: Seq<char>, delimiters: Seq<char>)
    requires
        all_delimiters(gap, delimiters),
    ensures
        fragments(gap + text, delimiters) == fragments(text, delimiters),
    decreases gap.len(),
{
    if gap.len() > 0 {
        assert((gap + text).skip(1) == gap.skip(1) + text);
        lemma_leading_delimiters(gap.skip(1), text, delimiters);
    }
}

/// A text with delimiters in it is cut there: its pieces are those of what
/// stands before them, then those of what stands after.
pub proof fn lemma_cut_at_delimiters(
    before: Seq<char>,
    gap: Seq<char>,
    after: Seq<char>,
    delimiters: Seq<char>,
)
    requires
        gap.len() > 0,
        all_delimiters(gap, delimiters),
    ensures
        fragments(before + gap + after, delimiters) == fragments(before, delimiters) + fragments(
            after,
            delimiters,
        ),
    decreases before.len(),
{
    let whole = before + gap + after;
    if before.len() == 0 {
        lemma_leading_delimiters(gap, after, delimiters);
        assert(Seq::<Seq<char>>::empty() + fragments(after, delimiters) == fragments(
            after,
            delimiters,
        ));
    } else if delimiters.contains(before[0]) {
        assert(whole.skip(1) == before.skip(1) + gap + after);
        lemma_cut_at_delimiters(before.skip(1), gap, after, delimiters);
    } else {
        let n = run_len(before, delimiters);
        lemma_run_is_clear(before, delimiters);
        lemma_run_len(whole, delimiters, n);
        assert(whole.take(n as int) == before.take(n as int));
        assert(whole.skip(n as int) == before.skip(n as int) + gap + after);
        lemma_cut_at_delimiters(before.skip(n as int), gap, after, delimiters);
        let head = seq![before.take(n as int)];
        assert(head + (fragments(before.skip(n as int), delimiters) + fragments(after, delimiters))
            == (head + fragments(before.skip(n as int), delimiters)) + fragments(
            after,
            delimiters,
        ));
    }
}

/// It does not matter which delimiters, or how many, stand between two
/// stretches of a text: a comma, a space, or both cut alike.
pub proof fn lemma_delimiters_cut_alike(
    before: Seq<char>,
    gap: Seq<char>,
    other_gap: Seq<char>,
    after: Seq<char>,
    delimiters: Seq<char>,
)
    requires
        gap.len() > 0,
        other_gap.len() > 0,
        all_delimiters(gap, delimiters),
        all_delimiters(other_gap, delimiters),
    ensures
        fragments(before + gap + after, delimiters) == fragments(
            before + other_gap + after,
            delimiters,
        ),
{
    lemma_cut_at_delimiters(before, gap, after, delimiters);
    lemma_cut_at_delimiters(before, other_gap, after, delimiters);
}

/// The pieces into which the characters of `delimiters` cut `text`, in order,
/// without the empty ones.
pub fn split_fragments(text: &str, delimiters: &str) -> (pieces: Vec<String>)
    ensures
        pieces.deep_view() == fragments(text@, delimiters@),
{
    let chars = chars_of(text);
    let marks = chars_of(delimiters);
    let n = chars.len();
    let mut pieces: Vec<String> = Vec::new();
    let mut i: usize = 0;
    assert(text@.skip(0) == text@);
    while i < n
        invariant
            i <= n,
            n == chars.len(),
            chars@ == text@,
            marks@ == delimiters@,
            fragments(text@, delimiters@) == pieces.deep_view() + fragments(
                text@.skip(i as int),
                delimiters@,
            ),
        decreases n - i,
    {
        let ghost rest = text@.skip(i as int);
        if is_one_of(chars[i], marks.as_slice()) {
            assert(rest.skip(1) == text@.skip(i + 1));
            i += 1;
        } else {
            let start = i;
            i += 1;
            while i < n && !is_one_of(chars[i], marks.as_slice())
                invariant
                    start < i <= n,
                    n == chars.len(),
                    chars@ == text@,
                    marks@ == delimiters@,
                    forall|k: int| start <= k < i ==> !delimiters@.contains(#[trigger] text@[k]),
                decreases n - i,
            {
                i += 1;
            }
            let piece = text.substring_char(start, i).to_owned();
            proof {
                lemma_run_len(rest, delimiters@, (i - start) as nat);
                assert(rest.take(i - start) == text@.subrange(start as int, i as int));
                assert(rest.skip(i - start) == text@.skip(i as int));
            }
            let ghost before = pieces.deep_view();
            pieces.push(piece);
            assert(before.push(piece@) + fragments(text@.skip(i as int), delimiters@) == before
                + (seq![piece@] + fragments(text@.skip(i as int), delimiters@)));
        }
    }
    pieces
}

} // verus!
