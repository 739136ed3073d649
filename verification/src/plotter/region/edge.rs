//! Outlines as the decomposition sees them: elements between labelled
//! points.

use vstd::prelude::*;

verus! {

/// One element of an outline. Two ends are the same point exactly when
/// their labels are equal. `shape` is what the element is to the caller;
/// it is carried along untouched.
#[derive(Debug, Clone, PartialEq, Eq)]
pub struct Edge<E> {
    pub from: u64,
    pub to: u64,
    /// Whether the element is an arc; a straight line otherwise.
    pub curved: bool,
    pub shape: E,
}

/// Whether the last of `path` ends where the first starts.
pub open spec fn locked<E>(path: Seq<Edge<E>>) -> bool {
    path.len() > 0 && path.first().from == path.last().to
}

/// Whether no two of the first `upto` elements of `path` end at one point.
pub open spec fn ends_distinct<E>(path: Seq<Edge<E>>, upto: int) -> bool {
    forall|a: int, b: int|
        0 <= a < b < upto ==> (#[trigger] path[a]).to != (#[trigger] path[b]).to
}

/// The sequences that `lists` hold, in order.
pub open spec fn lists<E>(lists: Seq<Vec<Edge<E>>>) -> Seq<Seq<Edge<E>>> {
    Seq::new(lists.len(), |i: int| lists[i]@)
}

/// Whether the outline is closed: it has elements and ends where it
/// starts.
pub fn is_locked<E>(path: &Vec<Edge<E>>) -> (closed: bool)
    ensures
        closed == locked(path@),
{
    let n = path.len();
    n > 0 && path[0].from == path[n - 1].to
}

} // verus!
