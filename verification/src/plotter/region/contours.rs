//! Taking a closed, split outline apart into its simple closed contours.

use super::edge::{ends_distinct, is_locked, lists, locked, Edge};
use std::collections::HashMap;
use vstd::prelude::*;

verus! {

/// The first position of `path` whose element starts at `label`; the
/// length of `path` where none does.
pub open spec fn first_with_start<E>(path: Seq<Edge<E>>, label: u64) -> int
    decreases path.len(),
{
    if path.len() == 0 {
        0
    } else if path.first().from == label {
        0
    } else {
        1 + first_with_start(path.drop_first(), label)
    }
}

/// The first position of `path` whose element ends at `label`; the
/// length of `path` where none does.
pub open spec fn first_with_end<E>(path: Seq<Edge<E>>, label: u64) -> int
    decreases path.len(),
{
    if path.len() == 0 {
        0
    } else if path.first().to == label {
        0
    } else {
        1 + first_with_end(path.drop_first(), label)
    }
}

/// The first position at or after `from` whose element ends where an
/// earlier one ends; the length of `path` where there is none.
pub open spec fn first_revisit_from<E>(path: Seq<Edge<E>>, from: int) -> int
    decreases path.len() - from,
{
    if 0 <= from < path.len() {
        if first_with_end(path.take(from), path[from].to) < from {
            from
        } else {
            first_revisit_from(path, from + 1)
        }
    } else {
        from
    }
}

/// The first element that ends at a point where an earlier element ends,
/// as the pair of the earlier position and its own.
pub open spec fn revisit<E>(path: Seq<Edge<E>>) -> Option<(int, int)> {
    let ix = first_revisit_from(path, 0);
    if ix < path.len() {
        Some((first_with_end(path.take(ix), path[ix].to), ix))
    } else {
        None
    }
}

/// The walk along a chain: as long as an element of `rest` starts at
/// `next`, the first such element moves over to `taken`; the walk ends
/// when `taken` closes or no element goes on. Gives what is left and what
/// was taken.
pub open spec fn walk<E>(rest: Seq<Edge<E>>, taken: Seq<Edge<E>>, next: u64) -> (
    Seq<Edge<E>>,
    Seq<Edge<E>>,
)
    decreases rest.len(),
{
    let k = first_with_start(rest, next);
    if 0 <= k < rest.len() {
        let grown = taken.push(rest[k]);
        let left = rest.remove(k);
        if locked(grown) {
            (left, grown)
        } else {
            walk(left, grown, rest[k].to)
        }
    } else {
        (rest, taken)
    }
}

/// The chain that goes on from the end of the element at `element_index`,
/// cut out of `path`.
pub open spec fn cutout<E>(path: Seq<Edge<E>>, element_index: int) -> (Seq<Edge<E>>, Seq<Edge<E>>) {
    walk(path, Seq::empty(), path[element_index].to)
}

/// `path` if it has elements.
pub open spec fn non_empty<E>(path: Seq<Edge<E>>) -> Option<Seq<Edge<E>>> {
    if path.len() == 0 {
        None
    } else {
        Some(path)
    }
}

/// The elements of `path`, if there is one.
pub open spec fn shown<E>(path: Option<Vec<Edge<E>>>) -> Option<Seq<Edge<E>>> {
    match path {
        Some(p) => Some(p@),
        None => None,
    }
}

/// One step of the decomposition, as the pair of what is left of `path`
/// and the contour found. Where a point is visited twice, the chain from
/// the first visit is cut out. Where none is, the whole path is the
/// contour if it is closed, and is left over if not.
pub open spec fn first_contour<E>(path: Seq<Edge<E>>) -> (Option<Seq<Edge<E>>>, Option<Seq<Edge<E>>>) {
    match revisit(path) {
        Some((first, _)) => {
            let (rest, taken) = cutout(path, first);
            (non_empty(rest), non_empty(taken))
        },
        None => if locked(path) {
            (None, Some(path))
        } else {
            (Some(path), None)
        },
    }
}

/// The contours of `path`: a step that finds a contour and leaves a rest
/// goes on with both; a rest without a contour is dropped.
pub open spec fn contours_of<E>(path: Seq<Edge<E>>) -> Seq<Seq<Edge<E>>>
    decreases path.len(),
{
    match first_contour(path) {
        (None, Some(contour)) => seq![contour],
        (Some(rest), Some(contour)) => if rest.len() < path.len() && contour.len() < path.len() {
            contours_of(rest) + contours_of(contour)
        } else {
            Seq::empty()
        },
        _ => Seq::empty(),
    }
}

pub proof fn lemma_first_with_start<E>(path: Seq<Edge<E>>, label: u64)
    ensures
        0 <= first_with_start(path, label) <= path.len(),
        first_with_start(path, label) < path.len() ==> path[first_with_start(path, label)].from
            == label,
        forall|i: int| 0 <= i < first_with_start(path, label) ==> (#[trigger] path[i]).from != label,
    decreases path.len(),
{
    if path.len() > 0 && path.first().from != label {
        let rest = path.drop_first();
        lemma_first_with_start(rest, label);
        assert forall|i: int| 0 <= i < first_with_start(path, label) implies (#[trigger] path[i]).from
            != label by {
            if i > 0 {
                assert(path[i] == rest[i - 1]);
            }
        }
    }
}

/// A position whose element starts at `label`, after elements that do
/// not, is the one `first_with_start` gives.
pub proof fn lemma_first_with_start_is<E>(path: Seq<Edge<E>>, label: u64, k: int)
    requires
        0 <= k <= path.len(),
        k < path.len() ==> path[k].from == label,
        forall|i: int| 0 <= i < k ==> (#[trigger] path[i]).from != label,
    ensures
        first_with_start(path, label) == k,
{
    lemma_first_with_start(path, label);
    let r = first_with_start(path, label);
    if r < k {
        assert(path[r].from != label);
    }
}

pub proof fn lemma_first_with_end<E>(path: Seq<Edge<E>>, label: u64)
    ensures
        0 <= first_with_end(path, label) <= path.len(),
        first_with_end(path, label) < path.len() ==> path[first_with_end(path, label)].to == label,
        forall|i: int| 0 <= i < first_with_end(path, label) ==> (#[trigger] path[i]).to != label,
    decreases path.len(),
{
    if path.len() > 0 && path.first().to != label {
        let rest = path.drop_first();
        lemma_first_with_end(rest, label);
        assert forall|i: int| 0 <= i < first_with_end(path, label) implies (#[trigger] path[i]).to
            != label by {
            if i > 0 {
                assert(path[i] == rest[i - 1]);
            }
        }
    }
}

pub proof fn lemma_first_with_end_is<E>(path: Seq<Edge<E>>, label: u64, k: int)
    requires
        0 <= k <= path.len(),
        k < path.len() ==> path[k].to == label,
        forall|i: int| 0 <= i < k ==> (#[trigger] path[i]).to != label,
    ensures
        first_with_end(path, label) == k,
{
    lemma_first_with_end(path, label);
    let r = first_with_end(path, label);
    if r < k {
        assert(path[r].to != label);
    }
}

/// Where the ends before `ix` are all different and the element at `ix`
/// ends where the one at `first` does, the scan from `from` stops at
/// `ix`.
pub proof fn lemma_first_revisit_is<E>(path: Seq<Edge<E>>, from: int, first: int, ix: int)
    requires
        0 <= from <= ix <= path.len(),
        ends_distinct(path, ix),
        ix < path.len() ==> 0 <= first < ix && path[first].to == path[ix].to,
    ensures
        first_revisit_from(path, from) == ix,
        ix < path.len() ==> first_with_end(path.take(ix), path[ix].to) == first,
    decreases ix - from,
{
    if ix < path.len() {
        let head = path.take(ix);
        assert forall|i: int| 0 <= i < first implies (#[trigger] head[i]).to != path[ix].to by {
            assert(path[i].to != path[first].to);
        }
        assert(head[first] == path[first]);
        lemma_first_with_end_is(head, path[ix].to, first);
    }
    if from < ix {
        let head = path.take(from);
        assert forall|i: int| 0 <= i < from implies (#[trigger] head[i]).to != path[from].to by {
            assert(path[i].to != path[from].to);
        }
        lemma_first_with_end_is(head, path[from].to, from);
        lemma_first_revisit_is(path, from + 1, first, ix);
    }
}

/// The walk moves elements over and loses none.
pub proof fn lemma_walk_len<E>(rest: Seq<Edge<E>>, taken: Seq<Edge<E>>, next: u64)
    ensures
        walk(rest, taken, next).0.len() + walk(rest, taken, next).1.len() == rest.len()
            + taken.len(),
        walk(rest, taken, next).1.len() >= taken.len(),
    decreases rest.len(),
{
    lemma_first_with_start(rest, next);
    let k = first_with_start(rest, next);
    if k < rest.len() {
        let grown = taken.push(rest[k]);
        if !locked(grown) {
            lemma_walk_len(rest.remove(k), grown, rest[k].to);
        }
    }
}

/// Looks for the first element that starts at `label`.
pub fn find_element_with_start<E>(path: &Vec<Edge<E>>, label: u64) -> (found: Option<usize>)
    ensures
        match found {
            Some(k) => k == first_with_start(path@, label) && k < path@.len(),
            None => first_with_start(path@, label) == path@.len(),
        },
{
    let mut k: usize = 0;
    while k < path.len()
        invariant
            k <= path@.len(),
            forall|i: int| 0 <= i < k ==> (#[trigger] path@[i]).from != label,
        decreases path@.len() - k,
    {
        if path[k].from == label {
            proof {
                lemma_first_with_start_is(path@, label, k as int);
            }
            return Some(k);
        }
        k += 1;
    }
    proof {
        lemma_first_with_start_is(path@, label, k as int);
    }
    None
}

/// Looks for the first element that ends where an earlier one ends; gives
/// the earlier position and its own. The ends met so far are kept in a
/// map from the label of a point to the first position that ends there.
pub fn find_fist_point_with_two_plus_sources<E>(path: &Vec<Edge<E>>) -> (found: Option<(usize, usize)>)
    ensures
        match found {
            Some((first, ix)) => {
                &&& revisit(path@) == Some((first as int, ix as int))
                &&& first < ix < path@.len()
                &&& path@[first as int].to == path@[ix as int].to
                &&& ends_distinct(path@, ix as int)
            },
            None => revisit(path@) is None && ends_distinct(path@, path@.len() as int),
        },
{
    broadcast use vstd::std_specs::hash::group_hash_axioms;

    let mut seen: HashMap<u64, usize> = HashMap::new();
    let mut ix: usize = 0;
    while ix < path.len()
        invariant
            ix <= path@.len(),
            ends_distinct(path@, ix as int),
            forall|j: int| 0 <= j < ix ==> seen@.dom().contains(#[trigger] path@[j].to),
            forall|label: u64|
                seen@.dom().contains(label) ==> (#[trigger] seen@[label]) < ix && path@[seen@[label] as int].to
                    == label,
        decreases path@.len() - ix,
    {
        let label = path[ix].to;
        match seen.get(&label) {
            Some(first) => {
                let first = *first;
                proof {
                    lemma_first_revisit_is(path@, 0, first as int, ix as int);
                }
                return Some((first, ix));
            },
            None => {
                seen.insert(label, ix);
            },
        }
        ix += 1;
    }
    proof {
        lemma_first_revisit_is(path@, 0, 0, ix as int);
    }
    None
}

/// Cuts the chain that goes on from the end of the element at
/// `element_index` out of the path. Gives what is left and the chain,
/// each only if it has elements.
pub fn cutout_from_element<E>(consumed_path: Vec<Edge<E>>, element_index: usize) -> (parts: (
    Option<Vec<Edge<E>>>,
    Option<Vec<Edge<E>>>,
))
    requires
        element_index < consumed_path@.len(),
    ensures
        shown(parts.0) == non_empty(cutout(consumed_path@, element_index as int).0),
        shown(parts.1) == non_empty(cutout(consumed_path@, element_index as int).1),
{
    let ghost whole = consumed_path@;
    let mut rest = consumed_path;
    let mut taken: Vec<Edge<E>> = Vec::new();
    let mut next = rest[element_index].to;
    proof {
        assert(taken@ =~= Seq::<Edge<E>>::empty());
    }
    loop
        invariant_except_break
            walk(rest@, taken@, next) == cutout(whole, element_index as int),
        ensures
            (rest@, taken@) == cutout(whole, element_index as int),
        decreases rest@.len(),
    {
        match find_element_with_start(&rest, next) {
            None => {
                break ;
            },
            Some(k) => {
                let el = rest.remove(k);
                let end = el.to;
                taken.push(el);
                if is_locked(&taken) {
                    break ;
                }
                next = end;
            },
        }
    }
    (
        if rest.is_empty() {
            None
        } else {
            Some(rest)
        },
        if taken.is_empty() {
            None
        } else {
            Some(taken)
        },
    )
}

/// Makes one step of the decomposition: gives what is left of the path
/// and the contour found, each only if it has elements.
pub fn get_first_found_locked_contour<E>(path: Vec<Edge<E>>) -> (parts: (
    Option<Vec<Edge<E>>>,
    Option<Vec<Edge<E>>>,
))
    ensures
        (shown(parts.0), shown(parts.1)) == first_contour(path@),
{
    match find_fist_point_with_two_plus_sources(&path) {
        Some((first, _)) => cutout_from_element(path, first),
        None => {
            if is_locked(&path) {
                (None, Some(path))
            } else {
                (Some(path), None)
            }
        },
    }
}

/// What is left over when `path` is taken apart: each rest in which no
/// contour was found, as it stood.
pub open spec fn dropped_of<E>(path: Seq<Edge<E>>) -> Seq<Seq<Edge<E>>>
    decreases path.len(),
{
    match first_contour(path) {
        (Some(rest), None) => if rest.len() > 0 {
            seq![rest]
        } else {
            Seq::empty()
        },
        (Some(rest), Some(contour)) => if rest.len() < path.len() && contour.len() < path.len() {
            dropped_of(rest) + dropped_of(contour)
        } else {
            Seq::empty()
        },
        _ => Seq::empty(),
    }
}

/// The count of the elements of all of `lists`.
pub open spec fn count_of<E>(lists: Seq<Seq<Edge<E>>>) -> nat
    decreases lists.len(),
{
    if lists.len() == 0 {
        0
    } else {
        count_of(lists.drop_last()) + lists.last().len()
    }
}

/// An outline taken apart: the contours found, and the pieces in which
/// none was found and which are therefore dropped.
#[derive(Debug, PartialEq, Eq)]
pub struct Split<E> {
    pub contours: Vec<Vec<Edge<E>>>,
    pub dropped: Vec<Vec<Edge<E>>>,
}

/// Takes the path apart into its contours, and gives an account of what
/// is in none of them.
pub fn split_by_locked_countours<E>(path: Vec<Edge<E>>) -> (split: Split<E>)
    ensures
        lists(split.contours@) == contours_of(path@),
        lists(split.dropped@) == dropped_of(path@),
    decreases path@.len(),
{
    let ghost whole = path@;
    proof {
        match revisit(whole) {
            Some((first, _)) => {
                lemma_walk_len(whole, Seq::empty(), whole[first].to);
            },
            None => {},
        }
    }
    let mut contours: Vec<Vec<Edge<E>>> = Vec::new();
    let mut dropped: Vec<Vec<Edge<E>>> = Vec::new();
    proof {
        assert(lists(contours@) =~= Seq::<Seq<Edge<E>>>::empty());
        assert(lists(dropped@) =~= Seq::<Seq<Edge<E>>>::empty());
    }
    match get_first_found_locked_contour(path) {
        (None, Some(contour)) => {
            contours.push(contour);
            proof {
                assert(lists(contours@) =~= seq![contour@]);
            }
        },
        (Some(rest), Some(contour)) => {
            let Split { contours: mut found, dropped: mut lost } = split_by_locked_countours(rest);
            let Split { contours: mut more, dropped: mut gone } = split_by_locked_countours(
                contour,
            );
            let ghost first = found@;
            let ghost second = more@;
            let ghost third = lost@;
            let ghost fourth = gone@;
            found.append(&mut more);
            lost.append(&mut gone);
            proof {
                assert(lists(found@) =~= lists(first) + lists(second));
                assert(lists(lost@) =~= lists(third) + lists(fourth));
            }
            contours = found;
            dropped = lost;
        },
        (Some(rest), None) => {
            if rest.len() > 0 {
                dropped.push(rest);
                proof {
                    assert(lists(dropped@) =~= seq![rest@]);
                }
            }
        },
        (None, None) => {},
    }
    Split { contours, dropped }
}

/// Whether a contour can enclose anything. A single element does if it
/// ends where it starts; two elements do if they close and one of them is
/// an arc, since two lines between the same two points enclose nothing;
/// more elements always count.
pub open spec fn has_area<E>(contour: Seq<Edge<E>>) -> bool {
    if contour.len() == 1 {
        contour[0].from == contour[0].to
    } else if contour.len() == 2 {
        locked(contour) && (contour[0].curved || contour[1].curved)
    } else {
        true
    }
}

/// Whether the contour can enclose anything.
pub fn encloses_area<E>(contour: &Vec<Edge<E>>) -> (kept: bool)
    ensures
        kept == has_area(contour@),
{
    let n = contour.len();
    if n == 1 {
        contour[0].from == contour[0].to
    } else if n == 2 {
        is_locked(contour) && (contour[0].curved || contour[1].curved)
    } else {
        true
    }
}

/// Parts the contours into those that enclose something and those that
/// do not; both keep their order.
pub fn remove_unlocked_and_zero_square_conturs<E>(paths: Vec<Vec<Edge<E>>>) -> (parts: (
    Vec<Vec<Edge<E>>>,
    Vec<Vec<Edge<E>>>,
))
    ensures
        lists(parts.0@) == lists(paths@).filter(|c: Seq<Edge<E>>| has_area(c)),
        lists(parts.1@) == lists(paths@).filter(|c: Seq<Edge<E>>| !has_area(c)),
{
    let ghost keep = |c: Seq<Edge<E>>| has_area(c);
    let ghost drop = |c: Seq<Edge<E>>| !has_area(c);
    let mut kept: Vec<Vec<Edge<E>>> = Vec::new();
    let mut lost: Vec<Vec<Edge<E>>> = Vec::new();
    proof {
        assert(lists(paths@.take(0)) =~= Seq::<Seq<Edge<E>>>::empty());
        assert(lists(kept@) =~= Seq::<Seq<Edge<E>>>::empty());
        assert(lists(lost@) =~= Seq::<Seq<Edge<E>>>::empty());
        reveal(Seq::filter);
    }
    for path in it: paths
        invariant
            it.seq() == paths@,
            keep == |c: Seq<Edge<E>>| has_area(c),
            drop == |c: Seq<Edge<E>>| !has_area(c),
            lists(kept@) == lists(paths@.take(it.index() as int)).filter(keep),
            lists(lost@) == lists(paths@.take(it.index() as int)).filter(drop),
    {
        proof {
            let done = lists(paths@.take(it.index() as int));
            let more = lists(paths@.take(it.index() + 1));
            assert(more.drop_last() =~= done);
            assert(more.last() == path@);
            reveal(Seq::filter);
            assert(more.filter(keep) == if keep(path@) {
                done.filter(keep).push(path@)
            } else {
                done.filter(keep)
            });
            assert(more.filter(drop) == if drop(path@) {
                done.filter(drop).push(path@)
            } else {
                done.filter(drop)
            });
        }
        if encloses_area(&path) {
            let ghost before = kept@;
            kept.push(path);
            proof {
                assert(lists(kept@) =~= lists(before).push(path@));
            }
        } else {
            let ghost before = lost@;
            lost.push(path);
            proof {
                assert(lists(lost@) =~= lists(before).push(path@));
            }
        }
    }
    proof {
        assert(paths@.take(paths@.len() as int) =~= paths@);
    }
    (kept, lost)
}

/// The contours of an outline that is split at its crossings: the
/// contours it falls into, without those that enclose nothing.
pub open spec fn region_contours<E>(path: Seq<Edge<E>>) -> Seq<Seq<Edge<E>>> {
    contours_of(path).filter(|c: Seq<Edge<E>>| has_area(c))
}

/// What of an outline is in none of its region contours: the pieces in
/// which no contour was found, then the contours that enclose nothing.
pub open spec fn region_dropped<E>(path: Seq<Edge<E>>) -> Seq<Seq<Edge<E>>> {
    dropped_of(path) + contours_of(path).filter(|c: Seq<Edge<E>>| !has_area(c))
}

/// Takes an outline that is split at its crossings apart into the
/// contours that enclose something, and gives an account of what is
/// dropped: the pieces that close no contour, and the contours that
/// enclose nothing.
pub fn split_region_paths<E>(path: Vec<Edge<E>>) -> (split: Split<E>)
    ensures
        lists(split.contours@) == region_contours(path@),
        lists(split.dropped@) == region_dropped(path@),
{
    let Split { contours, dropped } = split_by_locked_countours(path);
    let (kept, mut flat) = remove_unlocked_and_zero_square_conturs(contours);
    let mut dropped = dropped;
    let ghost first = dropped@;
    let ghost second = flat@;
    dropped.append(&mut flat);
    proof {
        assert(lists(dropped@) =~= lists(first) + lists(second));
    }
    Split { contours: kept, dropped }
}

/// Joining lists joins their counts.
pub proof fn lemma_count_of_concat<E>(a: Seq<Seq<Edge<E>>>, b: Seq<Seq<Edge<E>>>)
    ensures
        count_of(a + b) == count_of(a) + count_of(b),
    decreases b.len(),
{
    if b.len() == 0 {
        assert(a + b =~= a);
    } else {
        lemma_count_of_concat(a, b.drop_last());
        assert((a + b).drop_last() =~= a + b.drop_last());
        assert((a + b).last() == b.last());
    }
}

/// A list of one piece holds the elements of that piece.
pub proof fn lemma_count_of_one<E>(piece: Seq<Edge<E>>)
    ensures
        count_of(seq![piece]) == piece.len(),
{
    let one = seq![piece];
    assert(one.drop_last() =~= Seq::<Seq<Edge<E>>>::empty());
    assert(one.last() == piece);
    assert(count_of(one.drop_last()) == 0);
}

/// Taking a path apart loses no element and doubles none: the contours
/// and the dropped pieces hold as many elements as the path.
pub proof fn lemma_split_keeps_count<E>(path: Seq<Edge<E>>)
    ensures
        count_of(contours_of(path)) + count_of(dropped_of(path)) == path.len(),
    decreases path.len(),
{
    lemma_revisit_bounds(path, 0);
    match revisit(path) {
        Some((first, _)) => {
            lemma_walk_len(path, Seq::empty(), path[first].to);
        },
        None => {},
    }
    match first_contour(path) {
        (None, Some(contour)) => {
            lemma_count_of_one(contour);
        },
        (Some(rest), Some(contour)) => {
            lemma_split_keeps_count(rest);
            lemma_split_keeps_count(contour);
            lemma_count_of_concat(contours_of(rest), contours_of(contour));
            lemma_count_of_concat(dropped_of(rest), dropped_of(contour));
        },
        (Some(rest), None) => {
            if rest.len() > 0 {
                lemma_count_of_one(rest);
            }
        },
        (None, None) => {},
    }
}

/// A walk that starts a chain at `start` and has not closed it yet, while
/// an element that ends at `start` is still left, either closes the chain
/// or leaves something over.
proof fn lemma_walk_closes<E>(
    rest: Seq<Edge<E>>,
    taken: Seq<Edge<E>>,
    next: u64,
    start: u64,
    witness: int,
)
    requires
        taken.len() == 0 ==> next == start,
        taken.len() > 0 ==> taken.first().from == start,
        forall|k: int| 0 <= k < taken.len() ==> (#[trigger] taken[k]).to != start,
        0 <= witness < rest.len(),
        rest[witness].to == start,
    ensures
        walk(rest, taken, next).0.len() == 0 ==> locked(walk(rest, taken, next).1),
    decreases rest.len(),
{
    lemma_first_with_start(rest, next);
    let k = first_with_start(rest, next);
    if k < rest.len() {
        let grown = taken.push(rest[k]);
        let left = rest.remove(k);
        if !locked(grown) {
            assert(grown.first().from == start);
            assert(grown.last() == rest[k]);
            assert forall|i: int| 0 <= i < grown.len() implies (#[trigger] grown[i]).to != start by {
                if i < taken.len() {
                    assert(grown[i] == taken[i]);
                }
            }
            let moved = if witness < k {
                witness
            } else {
                witness - 1
            };
            assert(left[moved] == rest[witness]);
            lemma_walk_closes(left, grown, rest[k].to, start, moved);
        }
    }
}

/// Where the scan for a revisited point stops, an earlier element ends
/// at the same point.
pub proof fn lemma_revisit_bounds<E>(path: Seq<Edge<E>>, from: int)
    requires
        0 <= from <= path.len(),
    ensures
        from <= first_revisit_from(path, from) <= path.len(),
        first_revisit_from(path, from) < path.len() ==> {
            let ix = first_revisit_from(path, from);
            let first = first_with_end(path.take(ix), path[ix].to);
            0 <= first < ix && path[first].to == path[ix].to
        },
    decreases path.len() - from,
{
    if from < path.len() {
        lemma_first_with_end(path.take(from), path[from].to);
        let first = first_with_end(path.take(from), path[from].to);
        if first < from {
            assert(path.take(from)[first] == path[first]);
        } else {
            lemma_revisit_bounds(path, from + 1);
        }
    }
}

/// Every contour that the decomposition finds is closed.
pub proof fn lemma_contours_are_locked<E>(path: Seq<Edge<E>>)
    ensures
        forall|i: int| 0 <= i < contours_of(path).len() ==> locked(#[trigger] contours_of(path)[i]),
    decreases path.len(),
{
    lemma_revisit_bounds(path, 0);
    match revisit(path) {
        Some((first, ix)) => {
            lemma_walk_closes(path, Seq::empty(), path[first].to, path[first].to, first);
        },
        None => {},
    }
    match first_contour(path) {
        (Some(rest), Some(contour)) => {
            if rest.len() < path.len() && contour.len() < path.len() {
                lemma_contours_are_locked(rest);
                lemma_contours_are_locked(contour);
                let a = contours_of(rest);
                let b = contours_of(contour);
                assert forall|i: int| 0 <= i < (a + b).len() implies locked(#[trigger] (a + b)[i]) by {
                    if i < a.len() {
                        assert((a + b)[i] == a[i]);
                    } else {
                        assert((a + b)[i] == b[i - a.len()]);
                    }
                }
            }
        },
        _ => {},
    }
}

/// A closed path that visits no point twice is its own single contour:
/// the decomposition gives it back, element for element.
pub proof fn lemma_simple_closed_path_is_one_contour<E>(path: Seq<Edge<E>>)
    requires
        locked(path),
        ends_distinct(path, path.len() as int),
    ensures
        contours_of(path) == seq![path],
        path.len() >= 3 ==> region_contours(path) == seq![path],
{
    lemma_first_revisit_is(path, 0, 0, path.len() as int);
    assert(revisit(path) is None);
    let keep = |c: Seq<Edge<E>>| has_area(c);
    reveal(Seq::filter);
    assert(seq![path].drop_last() =~= Seq::<Seq<Edge<E>>>::empty());
    assert(Seq::<Seq<Edge<E>>>::empty().filter(keep) =~= Seq::<Seq<Edge<E>>>::empty());
    if path.len() >= 3 {
        assert(seq![path].last() == path);
        assert(seq![path].filter(keep) =~= seq![path]);
    }
}

} // verus!
