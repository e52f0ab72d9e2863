//! Fuzzy search in the items of a menu, and the marking of what matched.

use vstd::prelude::*;
use fuzzy_matcher::skim::SkimMatcherV2;
use fuzzy_matcher::FuzzyMatcher;
use vstd::string::StrSliceExecFns;

verus! {

/// The positions of the characters of `choice` that the skim matcher, in its second
/// version and with its default settings, picks for `pattern`; `None` where `choice`
/// does not match.
pub uninterp spec fn fuzzy_positions(choice: Seq<char>, pattern: Seq<char>) -> Option<Seq<usize>>;

/// `SkimMatcherV2::fuzzy_indices` with the default matcher, without the score.
#[verifier::external_body]
pub(crate) fn skim_indices(choice: &str, pattern: &str) -> (found: Option<Vec<usize>>)
    ensures
        match found {
            Some(positions) => fuzzy_positions(choice@, pattern@) == Some(positions@),
            None => fuzzy_positions(choice@, pattern@) is None,
        },
{
    SkimMatcherV2::default().fuzzy_indices(choice, pattern).map(|(_, indices)| indices)
}

/// A run of characters of an item that are all matched or all not matched.
#[derive(Debug, Clone, Copy, PartialEq, Eq, Structural)]
pub struct Segment {
    /// Position of the first character of the run.
    pub start: usize,
    /// Position behind the last character of the run.
    pub end: usize,
    /// Whether the characters of the run matched.
    pub matched: bool,
}

/// Whether the positions come in strictly ascending order and lie below `len`.
pub open spec fn positions_valid(positions: Seq<usize>, len: int) -> bool {
    &&& forall|i: int, j: int| 0 <= i < j < positions.len() ==> positions[i] < positions[j]
    &&& forall|i: int| 0 <= i < positions.len() ==> positions[i] < len
}

/// Whether the character at position `at` is one of the matched ones.
pub open spec fn is_marked(positions: Seq<usize>, at: int) -> bool {
    exists|i: int| 0 <= i < positions.len() && #[trigger] positions[i] == at
}

/// Whether `segments` cut the first `len` characters of an item into the longest runs
/// of matched and of unmatched characters: the runs are not empty and follow one
/// another from the first character to the last, the characters of a run are matched
/// exactly where the run is, and of two neighbours one is matched and one is not.
pub open spec fn is_segmentation(segments: Seq<Segment>, len: int, positions: Seq<usize>) -> bool {
    &&& forall|i: int| 0 <= i < segments.len() ==> (#[trigger] segments[i]).start < segments[i].end
    &&& if segments.len() == 0 {
        len == 0
    } else {
        segments[0].start == 0 && segments.last().end == len
    }
    &&& forall|i: int, j: int|
        0 <= i && j == i + 1 && j < segments.len() ==> (#[trigger] segments[i]).end == (
        #[trigger] segments[j]).start && segments[i].matched != segments[j].matched
    &&& forall|i: int, at: int|
        0 <= i < segments.len() && segments[i].start <= at < segments[i].end ==> (
        #[trigger] segments[i]).matched == #[trigger] is_marked(positions, at)
}

/// Whether the positions come in strictly ascending order and lie below `len`.
pub fn check_positions(positions: &Vec<usize>, len: usize) -> (valid: bool)
    ensures
        valid == positions_valid(positions@, len as int),
{
    let mut i: usize = 0;
    while i < positions.len()
        invariant
            i <= positions.len(),
            forall|a: int, b: int| 0 <= a < b < i ==> positions@[a] < positions@[b],
            forall|a: int| 0 <= a < i ==> positions@[a] < len,
        decreases positions.len() - i,
    {
        if positions[i] >= len {
            return false;
        }
        if i > 0 && positions[i - 1] >= positions[i] {
            return false;
        }
        proof {
            assert forall|a: int, b: int| 0 <= a < b < i + 1 implies positions@[a]
                < positions@[b] by {
                if b == i && a < i - 1 {
                    assert(positions@[a] < positions@[i - 1]);
                }
            }
        }
        i += 1;
    }
    true
}

/// Cuts an item into the longest runs of matched and of unmatched characters.
pub fn stylize_matched_item(item: &str, matched_indices: &Vec<usize>) -> (segments: Vec<Segment>)
    requires
        positions_valid(matched_indices@, item@.len() as int),
    ensures
        is_segmentation(segments@, item@.len() as int, matched_indices@),
{
    segments_of(item.unicode_len(), matched_indices)
}

/// The runs that show an item with the given matched positions; positions that are not
/// in strictly ascending order or reach beyond the item mark nothing.
pub open spec fn shown_as(segments: Seq<Segment>, item: Seq<char>, positions: Seq<usize>) -> bool {
    if positions_valid(positions, item.len() as int) {
        is_segmentation(segments, item.len() as int, positions)
    } else {
        is_segmentation(segments, item.len() as int, Seq::empty())
    }
}

/// Cuts an item into the longest runs of matched and of unmatched characters, after a
/// look at the positions: where they are not in strictly ascending order or reach
/// beyond the item, the whole item is one unmatched run.
pub fn stylize_item(item: &str, matched_indices: &Vec<usize>) -> (segments: Vec<Segment>)
    ensures
        shown_as(segments@, item@, matched_indices@),
{
    let len = item.unicode_len();
    if check_positions(matched_indices, len) {
        stylize_matched_item(item, matched_indices)
    } else {
        let none: Vec<usize> = Vec::new();
        segments_of(len, &none)
    }
}

/// Cuts an item of `len` characters into the longest runs of matched and of unmatched
/// characters.
fn segments_of(len: usize, matched_indices: &Vec<usize>) -> (segments: Vec<Segment>)
    requires
        positions_valid(matched_indices@, len as int),
    ensures
        is_segmentation(segments@, len as int, matched_indices@),
{
    let mut segments: Vec<Segment> = Vec::new();
    let mut at: usize = 0;
    let mut next: usize = 0;
    while at < len
        invariant
            at <= len,
            next <= matched_indices.len(),
            positions_valid(matched_indices@, len as int),
            forall|i: int| 0 <= i < next ==> matched_indices@[i] < at,
            forall|i: int| next <= i < matched_indices.len() ==> matched_indices@[i] >= at,
            is_segmentation(segments@, at as int, matched_indices@),
        decreases len - at,
    {
        let matched = next < matched_indices.len() && matched_indices[next] == at;
        proof {
            if matched {
                assert(is_marked(matched_indices@, at as int));
            } else {
                assert forall|i: int| 0 <= i < matched_indices.len() implies matched_indices@[i]
                    != at by {
                    if i >= next && i > next {
                        assert(matched_indices@[next as int] < matched_indices@[i]);
                    }
                }
            }
        }
        let ghost before = segments@;
        let count = segments.len();
        if count > 0 && segments[count - 1].matched == matched {
            let last = segments[count - 1];
            segments.set(count - 1, Segment { start: last.start, end: at + 1, matched });
            proof {
                let after = segments@;
                assert forall|i: int, p: int|
                    0 <= i < after.len() && after[i].start <= p < after[i].end implies (
                #[trigger] after[i]).matched == #[trigger] is_marked(matched_indices@, p) by {
                    if i < count - 1 {
                        assert(after[i] == before[i]);
                    } else if p < at {
                        assert(before[i].start <= p < before[i].end);
                    }
                }
                assert forall|i: int, j: int|
                    0 <= i && j == i + 1 && j < after.len() implies (#[trigger] after[i]).end == (
                #[trigger] after[j]).start && after[i].matched != after[j].matched by {
                    assert(after[i] == before[i]);
                    assert(before[i].end == before[j].start);
                }
            }
        } else {
            segments.push(Segment { start: at, end: at + 1, matched });
            proof {
                let after = segments@;
                assert forall|i: int, p: int|
                    0 <= i < after.len() && after[i].start <= p < after[i].end implies (
                #[trigger] after[i]).matched == #[trigger] is_marked(matched_indices@, p) by {
                    if i < count {
                        assert(after[i] == before[i]);
                    }
                }
                assert forall|i: int, j: int|
                    0 <= i && j == i + 1 && j < after.len() implies (#[trigger] after[i]).end == (
                #[trigger] after[j]).start && after[i].matched != after[j].matched by {
                    assert(after[i] == before[i]);
                    if j < count {
                        assert(after[j] == before[j]);
                    } else {
                        assert(before[i] == before.last());
                    }
                }
            }
        }
        if matched {
            next += 1;
        }
        at += 1;
    }
    segments
}

} // verus!
