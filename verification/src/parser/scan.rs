//! Reading the smallest pieces of a text: runs of characters and fixed
//! words.

use super::grammar::{
    coordinate_end, find, is_coordinate_char, is_space, run_end, spaces_end, tag_at,
};
use vstd::prelude::*;

verus! {

/// A run of wanted characters from `pos` to `end` that stops at `end` is
/// the run that `run_end` finds.
pub proof fn lemma_run_end_is(s: Seq<char>, pos: int, end: int, wanted: spec_fn(char) -> bool)
    requires
        0 <= pos <= end <= s.len(),
        forall|i: int| pos <= i < end ==> wanted(#[trigger] s[i]),
        end < s.len() ==> !wanted(s[end]),
    ensures
        run_end(s, pos, wanted) == end,
    decreases end - pos,
{
    if pos < end {
        lemma_run_end_is(s, pos + 1, end, wanted);
    }
}

/// A stretch without `stop` from `pos` to `end` that stops at `end` is the
/// one that `find` finds.
pub proof fn lemma_find_is(s: Seq<char>, pos: int, end: int, stop: char)
    requires
        0 <= pos <= end <= s.len(),
        forall|i: int| pos <= i < end ==> #[trigger] s[i] != stop,
        end < s.len() ==> s[end] == stop,
    ensures
        find(s, pos, stop) == end,
    decreases end - pos,
{
    if pos < end {
        lemma_find_is(s, pos + 1, end, stop);
    }
}

pub fn is_space_char(c: char) -> (space: bool)
    ensures
        space == is_space(c),
{
    c == ' ' || c == '\n' || c == '\t' || c == '\r'
}

pub fn is_coordinate(c: char) -> (wanted: bool)
    ensures
        wanted == is_coordinate_char(c),
{
    ('0' <= c && c <= '9') || c == '-'
}

/// Skips the white space at `pos`.
pub fn skip_spaces(s: &Vec<char>, pos: usize) -> (end: usize)
    requires
        pos <= s@.len(),
    ensures
        end == spaces_end(s@, pos as int),
        pos <= end <= s@.len(),
{
    let mut end: usize = pos;
    while end < s.len() && is_space_char(s[end])
        invariant
            pos <= end <= s@.len(),
            forall|i: int| pos <= i < end ==> is_space(#[trigger] s@[i]),
        decreases s@.len() - end,
    {
        end += 1;
    }
    proof {
        lemma_run_end_is(s@, pos as int, end as int, |c: char| is_space(c));
    }
    end
}

/// Skips the digits and signs at `pos`.
pub fn skip_coordinate(s: &Vec<char>, pos: usize) -> (end: usize)
    requires
        pos <= s@.len(),
    ensures
        end == coordinate_end(s@, pos as int),
        pos <= end <= s@.len(),
{
    let mut end: usize = pos;
    while end < s.len() && is_coordinate(s[end])
        invariant
            pos <= end <= s@.len(),
            forall|i: int| pos <= i < end ==> is_coordinate_char(#[trigger] s@[i]),
        decreases s@.len() - end,
    {
        end += 1;
    }
    proof {
        lemma_run_end_is(s@, pos as int, end as int, |c: char| is_coordinate_char(c));
    }
    end
}

/// Looks for `stop` from `pos` on.
pub fn find_char(s: &Vec<char>, pos: usize, stop: char) -> (end: usize)
    requires
        pos <= s@.len(),
    ensures
        end == find(s@, pos as int, stop),
        pos <= end <= s@.len(),
        end < s@.len() ==> s@[end as int] == stop,
        forall|i: int| pos <= i < end ==> s@[i] != stop,
{
    let mut end: usize = pos;
    while end < s.len() && s[end] != stop
        invariant
            pos <= end <= s@.len(),
            forall|i: int| pos <= i < end ==> #[trigger] s@[i] != stop,
        decreases s@.len() - end,
    {
        end += 1;
    }
    proof {
        lemma_find_is(s@, pos as int, end as int, stop);
    }
    end
}

/// Whether `word` stands at `pos`.
pub fn tag(s: &Vec<char>, pos: usize, word: &str) -> (found: bool)
    requires
        pos <= s@.len(),
    ensures
        found == tag_at(s@, pos as int, word@),
{
    let n = word.unicode_len();
    if n > s.len() - pos {
        return false;
    }
    let mut i: usize = 0;
    while i < n
        invariant
            i <= n == word@.len(),
            pos + n <= s@.len() <= usize::MAX,
            forall|k: int| 0 <= k < i ==> s@[pos + k] == word@[k],
        decreases n - i,
    {
        if s[pos + i] != word.get_char(i) {
            proof {
                assert(s@.subrange(pos as int, pos + n)[i as int] == s@[pos + i]);
            }
            return false;
        }
        i += 1;
    }
    proof {
        assert(s@.subrange(pos as int, pos + n) =~= word@);
    }
    true
}

/// Whether the characters from `from` up to `to` are `word`.
pub fn range_is(s: &Vec<char>, from: usize, to: usize, word: &str) -> (same: bool)
    requires
        from <= to <= s@.len(),
    ensures
        same == (s@.subrange(from as int, to as int) == word@),
{
    if word.unicode_len() != to - from {
        return false;
    }
    tag(s, from, word)
}

} // verus!
