//! Putting the two offsets of a swept path together into regions.

use super::super::tree::{tr, Tree};
use super::nesting::Nesting;
use super::region_impl::Region;
use crate::parser::commands::Polarity;
use vstd::prelude::*;

verus! {

/// The elements of `items` from last to first.
pub fn reversed<E>(items: Vec<E>) -> (turned: Vec<E>)
    ensures
        turned@ == items@.reverse(),
{
    let mut items = items;
    let ghost whole = items@;
    let mut turned: Vec<E> = Vec::new();
    while items.len() > 0
        invariant
            items@ == whole.take(items@.len() as int),
            items@.len() <= whole.len(),
            turned@.len() + items@.len() == whole.len(),
            forall|i: int| 0 <= i < turned@.len() ==> turned@[i] == whole[whole.len() - 1 - i],
        decreases items@.len(),
    {
        let ghost n = items@.len() as int;
        match items.pop() {
            Some(item) => {
                turned.push(item);
                proof {
                    assert(items@ =~= whole.take(n - 1));
                }
            },
            None => {},
        }
    }
    proof {
        assert(turned@ =~= whole.reverse());
    }
    turned
}

/// Whether the regions hold what sweeping makes of the two offsets.
///
/// An open path gives one region with one contour: the forward offset and
/// behind it the backward offset, turned round. A closed path gives its
/// two offsets as two contours: the one that encloses the other above it
/// in one region, or each in a region of its own where neither encloses
/// the other. Every region starts dark.
pub open spec fn swept<E>(
    regions: Seq<Region<Vec<E>>>,
    forward: Seq<E>,
    backward: Seq<E>,
    nesting: Option<Nesting>,
) -> bool {
    &&& forall|i: int| 0 <= i < regions.len() ==> (#[trigger] regions[i]).starting_polarity
        == Polarity::Dark
    &&& match nesting {
        None => {
            &&& regions.len() == 1
            &&& regions[0].paths.data@ == forward + backward.reverse()
            &&& regions[0].paths.children@.len() == 0
        },
        Some(Nesting::Encloses) => {
            &&& regions.len() == 1
            &&& nested(regions[0].paths, forward, backward)
        },
        Some(Nesting::Within) => {
            &&& regions.len() == 1
            &&& nested(regions[0].paths, backward, forward)
        },
        Some(Nesting::Apart) => {
            &&& regions.len() == 2
            &&& regions[0].paths.data@ == forward
            &&& regions[0].paths.children@.len() == 0
            &&& regions[1].paths.data@ == backward
            &&& regions[1].paths.children@.len() == 0
        },
    }
}

/// Whether `tree` is the contour `outer` with the contour `inner` as its
/// only child.
pub open spec fn nested<E>(tree: Tree<Vec<E>>, outer: Seq<E>, inner: Seq<E>) -> bool {
    &&& tree.data@ == outer
    &&& tree.children@.len() == 1
    &&& tree.children@[0].data@ == inner
    &&& tree.children@[0].children@.len() == 0
}

/// Puts the forward and the backward offset of a swept path together.
/// `nesting` is `None` for an open path; for a closed one it says how the
/// forward offset lies to the backward one.
pub fn to_stroke_around_path<E>(forward: Vec<E>, backward: Vec<E>, nesting: Option<Nesting>) -> (regions:
    Vec<Region<Vec<E>>>)
    ensures
        swept(regions@, forward@, backward@, nesting),
{
    let mut regions: Vec<Region<Vec<E>>> = Vec::new();
    match nesting {
        None => {
            let mut outline = forward;
            let mut back = reversed(backward);
            outline.append(&mut back);
            regions.push(Region::new(Polarity::Dark, tr(outline)));
        },
        Some(Nesting::Encloses) => {
            regions.push(Region::new(Polarity::Dark, tr(forward).over(tr(backward))));
        },
        Some(Nesting::Within) => {
            regions.push(Region::new(Polarity::Dark, tr(backward).over(tr(forward))));
        },
        Some(Nesting::Apart) => {
            regions.push(Region::new(Polarity::Dark, tr(forward)));
            regions.push(Region::new(Polarity::Dark, tr(backward)));
        },
    }
    regions
}

} // verus!
