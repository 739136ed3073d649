//! Ordering contours by containment into trees.
//!
//! Contours are named by their place in a list. A table says for each
//! pair how the first lies to the second; a cell that the table lacks
//! reads as "apart".

use super::super::tree::{
    forest_size, forest_view, items_of, lemma_forest_size_at, lemma_forest_view,
    lemma_forest_view_concat, tree_view, Forest, Tree, TreeView,
};
use super::nesting::Nesting;
use super::region_impl::Region;
use crate::parser::commands::Polarity;
use vstd::prelude::*;

verus! {

/// Whether the contour `outer` encloses the contour `inner` by the table.
pub open spec fn encloses(rel: Seq<Vec<Nesting>>, outer: usize, inner: usize) -> bool {
    outer < rel.len() && inner < rel[outer as int]@.len() && rel[outer as int]@[inner as int]
        == Nesting::Encloses
}

/// How many of the first `upto` contours, `c` itself left out, enclose
/// the contour `c`.
pub open spec fn enclosers(rel: Seq<Vec<Nesting>>, c: usize, upto: nat) -> nat
    decreases upto,
{
    if upto == 0 {
        0
    } else if (upto - 1) != c && encloses(rel, (upto - 1) as usize, c) {
        enclosers(rel, c, (upto - 1) as nat) + 1
    } else {
        enclosers(rel, c, (upto - 1) as nat)
    }
}

/// Whether the contour `c` stands on the top level: no other of the
/// `count` contours encloses it.
pub open spec fn is_root(rel: Seq<Vec<Nesting>>, count: nat, c: usize) -> bool {
    enclosers(rel, c, count) == 0
}

/// Whether `q` can stand directly above `c`: it is another contour, it
/// encloses `c`, and fewer contours enclose it than enclose `c`.
pub open spec fn eligible(rel: Seq<Vec<Nesting>>, count: nat, q: usize, c: usize) -> bool {
    q != c && encloses(rel, q, c) && enclosers(rel, q, count) < enclosers(rel, c, count)
}

/// The innermost among the first `upto` contours that can stand directly
/// above `c`: the one that most contours enclose, and of several such the
/// first.
pub open spec fn innermost(rel: Seq<Vec<Nesting>>, count: nat, c: usize, upto: nat) -> Option<
    usize,
>
    decreases upto,
{
    if upto == 0 {
        None
    } else {
        let held = innermost(rel, count, c, (upto - 1) as nat);
        let q = (upto - 1) as usize;
        if eligible(rel, count, q, c) && (held is None || enclosers(rel, held->0, count)
            < enclosers(rel, q, count)) {
            Some(q)
        } else {
            held
        }
    }
}

/// The contour directly above each of the `count` contours: the innermost
/// one that encloses it. `None` for a contour that nothing encloses.
pub open spec fn parents(rel: Seq<Vec<Nesting>>, count: nat) -> Seq<Option<usize>> {
    Seq::new(count, |c: int| innermost(rel, count, c as usize, count))
}

/// Whether `owner` stands directly above `c` by the list `above`.
pub open spec fn owned(above: Seq<Option<usize>>, owner: usize, c: usize) -> bool {
    c < above.len() && above[c as int] == Some(owner)
}

/// The contours of `paths` directly below `owner`, in their order.
pub open spec fn taken_by(above: Seq<Option<usize>>, owner: usize, paths: Seq<usize>) -> Seq<usize>
    decreases paths.len(),
{
    if paths.len() == 0 {
        Seq::empty()
    } else if owned(above, owner, paths.last()) {
        taken_by(above, owner, paths.drop_last()).push(paths.last())
    } else {
        taken_by(above, owner, paths.drop_last())
    }
}

/// The contours of `paths` not directly below `owner`, in their order.
pub open spec fn left_by(above: Seq<Option<usize>>, owner: usize, paths: Seq<usize>) -> Seq<usize>
    decreases paths.len(),
{
    if paths.len() == 0 {
        Seq::empty()
    } else if owned(above, owner, paths.last()) {
        left_by(above, owner, paths.drop_last())
    } else {
        left_by(above, owner, paths.drop_last()).push(paths.last())
    }
}

/// Each of `items` as a tree of one node.
pub open spec fn leaves(items: Seq<usize>) -> Seq<TreeView<usize>> {
    Seq::new(items.len(), |i: int| TreeView::leaf(items[i]))
}

/// One pass over a tree: each node takes the contours of `paths` that
/// stand directly below it as new leaves, and hands the others down to
/// its children. Gives the tree after the pass and the contours not
/// taken.
pub open spec fn attach_tree(
    above: Seq<Option<usize>>,
    node: TreeView<usize>,
    paths: Seq<usize>,
) -> (TreeView<usize>, Seq<usize>)
    decreases node, 1nat,
{
    let (children, left) = attach_forest(above, node.children, left_by(above, node.data, paths));
    (
        TreeView {
            data: node.data,
            children: children + leaves(taken_by(above, node.data, paths)),
        },
        left,
    )
}

/// One pass over a forest, tree by tree: each tree gets what the trees
/// before it have not taken.
pub open spec fn attach_forest(
    above: Seq<Option<usize>>,
    forest: Seq<TreeView<usize>>,
    paths: Seq<usize>,
) -> (Seq<TreeView<usize>>, Seq<usize>)
    decreases forest, 0nat,
{
    if forest.len() == 0 {
        (Seq::empty(), paths)
    } else {
        let (first, rest) = attach_tree(above, forest.first(), paths);
        let (others, left) = attach_forest(above, forest.drop_first(), rest);
        (seq![first] + others, left)
    }
}

/// Passes over the forest until every contour is placed or a pass places
/// none. Gives the forest and the contours that found no place.
pub open spec fn settle(
    above: Seq<Option<usize>>,
    forest: Seq<TreeView<usize>>,
    paths: Seq<usize>,
) -> (Seq<TreeView<usize>>, Seq<usize>)
    decreases paths.len(),
{
    if paths.len() == 0 {
        (forest, paths)
    } else {
        let (grown, left) = attach_forest(above, forest, paths);
        if left.len() < paths.len() {
            settle(above, grown, left)
        } else {
            (grown, left)
        }
    }
}

/// The contours on the top level among the first `upto`, in order.
pub open spec fn roots(rel: Seq<Vec<Nesting>>, count: nat, upto: nat) -> Seq<usize>
    decreases upto,
{
    if upto == 0 {
        Seq::empty()
    } else if is_root(rel, count, (upto - 1) as usize) {
        roots(rel, count, (upto - 1) as nat).push((upto - 1) as usize)
    } else {
        roots(rel, count, (upto - 1) as nat)
    }
}

/// The contours below the top level among the first `upto`, in order.
pub open spec fn others(rel: Seq<Vec<Nesting>>, count: nat, upto: nat) -> Seq<usize>
    decreases upto,
{
    if upto == 0 {
        Seq::empty()
    } else if is_root(rel, count, (upto - 1) as usize) {
        others(rel, count, (upto - 1) as nat)
    } else {
        others(rel, count, (upto - 1) as nat).push((upto - 1) as usize)
    }
}

/// The trees that the first `count` contours form by the table, and the
/// contours that found no place in them. The roots are the contours that
/// no other contour encloses; every other contour stands below the
/// innermost contour that encloses it.
pub open spec fn composition(rel: Seq<Vec<Nesting>>, count: nat) -> (
    Seq<TreeView<usize>>,
    Seq<usize>,
) {
    settle(parents(rel, count), leaves(roots(rel, count, count)), others(rel, count, count))
}

/// The tree of contours that the tree `shape` of their places stands
/// for.
pub open spec fn render<P>(shape: TreeView<usize>, items: Seq<P>) -> TreeView<P>
    decreases shape, 1nat,
{
    TreeView { data: items[shape.data as int], children: render_all(shape.children, items) }
}

/// The trees of contours that the trees `shapes` of their places stand
/// for.
pub open spec fn render_all<P>(shapes: Seq<TreeView<usize>>, items: Seq<P>) -> Seq<TreeView<P>>
    decreases shapes, 0nat,
{
    if shapes.len() == 0 {
        Seq::empty()
    } else {
        render_all(shapes.drop_last(), items).push(render(shapes.last(), items))
    }
}

/// There is a tree of contours for each tree of places.
pub proof fn lemma_render_all_len<P>(shapes: Seq<TreeView<usize>>, items: Seq<P>)
    ensures
        render_all(shapes, items).len() == shapes.len(),
    decreases shapes.len(),
{
    if shapes.len() > 0 {
        lemma_render_all_len(shapes.drop_last(), items);
    }
}

/// The contours at the places `places`, in that order.
pub open spec fn picked<P>(places: Seq<usize>, items: Seq<P>) -> Seq<P> {
    Seq::new(places.len(), |i: int| items[places[i] as int])
}

/// The contours ordered into regions, and what could not be ordered.
pub struct Composition<P> {
    /// One region for each contour of the top level, in their order.
    pub regions: Vec<Region<P>>,
    /// The contours that found no place: the table puts them below a
    /// contour that has none itself. A table that orders the contours
    /// strictly leaves none.
    pub unplaced: Vec<P>,
}

/// The trees of `regions`, in order.
pub open spec fn region_trees<P>(regions: Seq<Region<P>>) -> Seq<TreeView<P>> {
    Seq::new(regions.len(), |i: int| regions[i].paths@)
}

/// Whether `outer` encloses `inner` by the table.
pub fn is_enclosing(relation: &Vec<Vec<Nesting>>, outer: usize, inner: usize) -> (yes: bool)
    ensures
        yes == encloses(relation@, outer, inner),
{
    if outer < relation.len() {
        let row = &relation[outer];
        if inner < row.len() {
            return matches!(row[inner], Nesting::Encloses);
        }
    }
    false
}

proof fn lemma_enclosers_bound(rel: Seq<Vec<Nesting>>, c: usize, upto: nat)
    ensures
        enclosers(rel, c, upto) <= upto,
    decreases upto,
{
    if upto > 0 {
        lemma_enclosers_bound(rel, c, (upto - 1) as nat);
    }
}

/// Counts the contours among the first `count` that enclose `c`.
pub fn count_enclosers(relation: &Vec<Vec<Nesting>>, c: usize, count: usize) -> (found: usize)
    ensures
        found == enclosers(relation@, c, count as nat),
{
    let mut found: usize = 0;
    let mut k: usize = 0;
    while k < count
        invariant
            k <= count,
            found == enclosers(relation@, c, k as nat),
            found <= k,
        decreases count - k,
    {
        if k != c && is_enclosing(relation, k, c) {
            found += 1;
        }
        k += 1;
    }
    found
}

/// Finds the contour directly above `c`, given for each contour how many
/// enclose it.
fn find_parent(relation: &Vec<Vec<Nesting>>, ranks: &Vec<usize>, c: usize) -> (found: Option<usize>)
    requires
        c < ranks@.len(),
        forall|i: int|
            0 <= i < ranks@.len() ==> #[trigger] ranks@[i] == enclosers(
                relation@,
                i as usize,
                ranks@.len(),
            ),
    ensures
        found == innermost(relation@, ranks@.len(), c, ranks@.len()),
{
    let count = ranks.len();
    let mut held: Option<usize> = None;
    let mut k: usize = 0;
    while k < count
        invariant
            k <= count == ranks@.len(),
            c < count,
            forall|i: int|
                0 <= i < ranks@.len() ==> #[trigger] ranks@[i] == enclosers(
                    relation@,
                    i as usize,
                    ranks@.len(),
                ),
            held == innermost(relation@, count as nat, c, k as nat),
            held is Some ==> held->0 < k,
        decreases count - k,
    {
        if k != c && is_enclosing(relation, k, c) && ranks[k] < ranks[c] {
            let better = match held {
                None => true,
                Some(h) => ranks[h] < ranks[k],
            };
            if better {
                held = Some(k);
            }
        }
        k += 1;
    }
    held
}

/// Whether `owner` stands directly above `c` by the list.
fn is_owned(above: &Vec<Option<usize>>, owner: usize, c: usize) -> (yes: bool)
    ensures
        yes == owned(above@, owner, c),
{
    if c < above.len() {
        match above[c] {
            Some(p) => p == owner,
            None => false,
        }
    } else {
        false
    }
}

/// Parts `paths` into the contours directly below `owner` and the others.
fn partition(above: &Vec<Option<usize>>, owner: usize, paths: Vec<usize>) -> (parts: (
    Vec<usize>,
    Vec<usize>,
))
    ensures
        parts.0@ == taken_by(above@, owner, paths@),
        parts.1@ == left_by(above@, owner, paths@),
{
    let mut mine: Vec<usize> = Vec::new();
    let mut rest: Vec<usize> = Vec::new();
    let mut i: usize = 0;
    while i < paths.len()
        invariant
            i <= paths@.len(),
            mine@ == taken_by(above@, owner, paths@.take(i as int)),
            rest@ == left_by(above@, owner, paths@.take(i as int)),
        decreases paths@.len() - i,
    {
        proof {
            assert(paths@.take(i + 1).drop_last() =~= paths@.take(i as int));
        }
        if is_owned(above, owner, paths[i]) {
            mine.push(paths[i]);
        } else {
            rest.push(paths[i]);
        }
        i += 1;
    }
    proof {
        assert(paths@.take(paths@.len() as int) =~= paths@);
    }
    (mine, rest)
}

/// Makes a tree of one node of each of `items`.
fn plant(items: Vec<usize>) -> (forest: Forest<usize>)
    ensures
        forest_view(forest@) == leaves(items@),
{
    let mut forest: Forest<usize> = Vec::new();
    let mut i: usize = 0;
    while i < items.len()
        invariant
            i <= items@.len(),
            forest_view(forest@) == leaves(items@.take(i as int)),
        decreases items@.len() - i,
    {
        let ghost before = forest@;
        forest.push(Box::new(Tree::new(items[i])));
        proof {
            assert(forest@.drop_last() =~= before);
            assert(leaves(items@.take(i + 1)) =~= leaves(items@.take(i as int)).push(
                TreeView::leaf(items@[i as int]),
            ));
        }
        i += 1;
    }
    proof {
        assert(items@.take(items@.len() as int) =~= items@);
    }
    forest
}

/// Makes one pass over the forest: every node takes, as new leaves, the
/// contours of `paths` that stand directly below it by the list `above`.
/// Gives the forest after the pass and the contours not taken.
pub fn attach_leafs(above: &Vec<Option<usize>>, forest: Forest<usize>, paths: Vec<usize>) -> (grown:
    (Forest<usize>, Vec<usize>))
    ensures
        (forest_view(grown.0@), grown.1@) == attach_forest(above@, forest_view(forest@), paths@),
    decreases forest_size(forest@),
{
    let ghost whole = forest_view(forest@);
    let ghost start = paths@;
    let mut done: Forest<usize> = Vec::new();
    let mut paths = paths;
    proof {
        lemma_forest_view(forest@);
        assert(whole.skip(0) =~= whole);
        assert(forest_view(done@) + attach_forest(above@, whole, start).0 =~= attach_forest(
            above@,
            whole,
            start,
        ).0);
    }
    for node in it: forest
        invariant
            it.seq() == forest@,
            whole == forest_view(forest@),
            whole.len() == forest@.len(),
            forall|i: int| 0 <= i < forest@.len() ==> #[trigger] whole[i] == tree_view(*forest@[i]),
            attach_forest(above@, whole, start) == (
                forest_view(done@) + attach_forest(above@, whole.skip(it.index() as int), paths@).0,
                attach_forest(above@, whole.skip(it.index() as int), paths@).1,
            ),
    {
        let ghost at = it.index() as int;
        let ghost before = paths@;
        let ghost done_before = done@;
        proof {
            lemma_forest_size_at(forest@, at);
            assert(whole.skip(at).first() == whole[at]);
            assert(whole.skip(at).drop_first() =~= whole.skip(at + 1));
        }
        let Tree { data, children } = *node;
        let (mine, rest) = partition(above, data, paths);
        let (mut kids, left) = attach_leafs(above, children, rest);
        let mut fresh = plant(mine);
        let ghost old_kids = kids@;
        let ghost new_kids = fresh@;
        kids.append(&mut fresh);
        proof {
            lemma_forest_view_concat(old_kids, new_kids);
        }
        paths = left;
        let tree = Tree { data, children: kids };
        proof {
            assert(tree_view(tree) == attach_tree(above@, whole[at], before).0);
            assert(paths@ == attach_tree(above@, whole[at], before).1);
        }
        done.push(Box::new(tree));
        proof {
            assert(done@.drop_last() =~= done_before);
            let others = attach_forest(above@, whole.skip(at + 1), paths@).0;
            assert(forest_view(done_before) + (seq![tree_view(tree)] + others) =~= forest_view(
                done@,
            ) + others);
        }
    }
    proof {
        assert(whole.skip(forest@.len() as int).len() == 0);
        assert(forest_view(done@) + Seq::<TreeView<usize>>::empty() =~= forest_view(done@));
    }
    (done, paths)
}

/// Orders the places `0` to `count - 1` into trees by the table. Gives
/// the trees and the places that found none.
pub fn arrange(relation: &Vec<Vec<Nesting>>, count: usize) -> (made: (Forest<usize>, Vec<usize>))
    ensures
        (forest_view(made.0@), made.1@) == composition(relation@, count as nat),
{
    let mut ranks: Vec<usize> = Vec::new();
    let mut k: usize = 0;
    while k < count
        invariant
            k <= count,
            ranks@.len() == k,
            forall|i: int|
                0 <= i < k ==> #[trigger] ranks@[i] == enclosers(relation@, i as usize, count as nat),
        decreases count - k,
    {
        ranks.push(count_enclosers(relation, k, count));
        k += 1;
    }
    let mut above: Vec<Option<usize>> = Vec::new();
    let mut top_nodes: Vec<usize> = Vec::new();
    let mut other_nodes: Vec<usize> = Vec::new();
    k = 0;
    while k < count
        invariant
            k <= count == ranks@.len(),
            forall|i: int|
                0 <= i < count ==> #[trigger] ranks@[i] == enclosers(
                    relation@,
                    i as usize,
                    count as nat,
                ),
            above@.len() == k,
            forall|i: int|
                0 <= i < k ==> #[trigger] above@[i] == innermost(
                    relation@,
                    count as nat,
                    i as usize,
                    count as nat,
                ),
            top_nodes@ == roots(relation@, count as nat, k as nat),
            other_nodes@ == others(relation@, count as nat, k as nat),
        decreases count - k,
    {
        above.push(find_parent(relation, &ranks, k));
        if ranks[k] == 0 {
            top_nodes.push(k);
        } else {
            other_nodes.push(k);
        }
        k += 1;
    }
    proof {
        assert(above@ =~= parents(relation@, count as nat));
    }
    let mut forest = plant(top_nodes);
    loop
        invariant_except_break
            above@ == parents(relation@, count as nat),
            settle(above@, forest_view(forest@), other_nodes@) == composition(
                relation@,
                count as nat,
            ),
        ensures
            (forest_view(forest@), other_nodes@) == composition(relation@, count as nat),
        decreases other_nodes@.len(),
    {
        if other_nodes.is_empty() {
            break ;
        }
        let before = other_nodes.len();
        let (grown, left) = attach_leafs(&above, forest, other_nodes);
        forest = grown;
        other_nodes = left;
        if other_nodes.len() >= before {
            break ;
        }
    }
    (forest, other_nodes)
}

/// Whether each of `places` is a place of `slots` that still holds its
/// contour.
pub open spec fn available<P>(places: Seq<usize>, slots: Seq<Option<P>>) -> bool {
    forall|k: int|
        0 <= k < places.len() ==> (#[trigger] places[k]) < slots.len() && slots[places[k] as int]
            is Some
}

/// Whether `place` is one of `places`.
pub open spec fn names(places: Seq<usize>, place: int) -> bool {
    exists|k: int| 0 <= k < places.len() && #[trigger] places[k] as int == place
}

/// Whether `after` is `before` with the contours at `places` taken out.
pub open spec fn taken_out<P>(
    before: Seq<Option<P>>,
    after: Seq<Option<P>>,
    places: Seq<usize>,
) -> bool {
    &&& after.len() == before.len()
    &&& forall|i: int|
        0 <= i < before.len() ==> #[trigger] after[i] == if names(places, i) {
            None
        } else {
            before[i]
        }
}

/// Whether every contour that `slots` still holds is the one of `items`
/// at its place.
pub open spec fn holds<P>(slots: Seq<Option<P>>, items: Seq<P>) -> bool {
    &&& slots.len() == items.len()
    &&& forall|i: int|
        0 <= i < slots.len() && slots[i] is Some ==> #[trigger] slots[i] == Some(items[i])
}

/// The payloads of a forest are those of its first trees followed by
/// those of the rest.
pub proof fn lemma_items_of_concat<T>(a: Seq<TreeView<T>>, b: Seq<TreeView<T>>)
    ensures
        items_of(a + b) == items_of(a) + items_of(b),
    decreases a.len(),
{
    if a.len() == 0 {
        assert(a + b =~= b);
        assert(items_of(a) + items_of(b) =~= items_of(b));
    } else {
        lemma_items_of_concat(a.drop_first(), b);
        assert((a + b).drop_first() =~= a.drop_first() + b);
        assert((a + b).first() == a.first());
        assert(items_of(a + b) =~= items_of(a) + items_of(b));
    }
}

/// The payloads of a forest of one tree are those of the tree.
pub proof fn lemma_items_of_one<T>(tree: TreeView<T>)
    ensures
        items_of(seq![tree]) == tree.items(),
{
    let one = seq![tree];
    assert(one.first() == tree);
    assert(one.drop_first() =~= Seq::<TreeView<T>>::empty());
    assert(items_of(one.drop_first()) =~= Seq::<T>::empty());
    assert(items_of(one) =~= tree.items());
}

/// Taking out what `first` names and then what `second` names takes out
/// what the two name together.
proof fn lemma_taken_out_twice<P>(
    before: Seq<Option<P>>,
    middle: Seq<Option<P>>,
    after: Seq<Option<P>>,
    first: Seq<usize>,
    second: Seq<usize>,
)
    requires
        taken_out(before, middle, first),
        taken_out(middle, after, second),
    ensures
        taken_out(before, after, first + second),
{
    let both = first + second;
    assert forall|i: int| 0 <= i < before.len() implies #[trigger] after[i] == if names(both, i) {
        None
    } else {
        before[i]
    } by {
        if names(first, i) {
            let k = choose|k: int| 0 <= k < first.len() && #[trigger] first[k] as int == i;
            assert(both[k] as int == i);
        }
        if names(second, i) {
            let k = choose|k: int| 0 <= k < second.len() && #[trigger] second[k] as int == i;
            assert(both[first.len() + k] as int == i);
        }
        if names(both, i) {
            let k = choose|k: int| 0 <= k < both.len() && #[trigger] both[k] as int == i;
            if k < first.len() {
                assert(first[k] as int == i);
            } else {
                assert(second[k - first.len()] as int == i);
            }
        }
    }
}

/// Of places that are all different and all still hold their contours,
/// the later ones still do when the earlier ones are taken out.
proof fn lemma_available_after<P>(
    before: Seq<Option<P>>,
    middle: Seq<Option<P>>,
    first: Seq<usize>,
    second: Seq<usize>,
)
    requires
        taken_out(before, middle, first),
        (first + second).no_duplicates(),
        available(first + second, before),
    ensures
        second.no_duplicates(),
        available(second, middle),
{
    let both = first + second;
    assert forall|a: int, b: int|
        0 <= a < second.len() && 0 <= b < second.len() && a != b implies second[a]
        != second[b] by {
        assert(both[first.len() + a] != both[first.len() + b]);
    }
    assert forall|k: int| 0 <= k < second.len() implies (#[trigger] second[k]) < middle.len()
        && middle[second[k] as int] is Some by {
        assert(both[first.len() + k] == second[k]);
        if names(first, second[k] as int) {
            let j = choose|j: int| 0 <= j < first.len() && #[trigger] first[j] as int == second[k] as int;
            assert(both[j] == both[first.len() + k]);
        }
    }
}

/// Takes the contour at `place` out of `slots`.
fn take_out<P>(slots: &mut Vec<Option<P>>, place: usize, Ghost(items): Ghost<Seq<P>>) -> (item: P)
    requires
        holds(old(slots)@, items),
        place < old(slots)@.len(),
        old(slots)@[place as int] is Some,
    ensures
        item == items[place as int],
        holds(final(slots)@, items),
        taken_out(old(slots)@, final(slots)@, seq![place]),
{
    slots.push(None);
    let taken = slots.swap_remove(place);
    proof {
        assert(slots@ =~= old(slots)@.update(place as int, None));
        assert forall|i: int| 0 <= i < old(slots)@.len() implies #[trigger] slots@[i] == if names(
            seq![place],
            i,
        ) {
            None
        } else {
            old(slots)@[i]
        } by {
            if i == place {
                assert(seq![place][0] as int == i);
            }
        }
    }
    taken.unwrap()
}

/// Puts the contours in the places that the tree names.
fn fill_tree<P>(tree: Tree<usize>, slots: &mut Vec<Option<P>>, Ghost(items): Ghost<Seq<P>>) -> (made:
    Tree<P>)
    requires
        holds(old(slots)@, items),
        tree@.items().no_duplicates(),
        available(tree@.items(), old(slots)@),
    ensures
        made@ == render(tree@, items),
        holds(final(slots)@, items),
        taken_out(old(slots)@, final(slots)@, tree@.items()),
    decreases tree.size(), 0nat,
{
    let ghost root = seq![tree.data];
    let ghost below = items_of(tree@.children);
    let Tree { data, children } = tree;
    proof {
        assert(tree@.items() == root + below);
        assert((root + below)[0] == data);
    }
    let item = take_out(slots, data, Ghost(items));
    proof {
        lemma_available_after(old(slots)@, slots@, root, below);
    }
    let ghost middle = slots@;
    let kids = fill_forest(children, slots, Ghost(items));
    proof {
        lemma_taken_out_twice(old(slots)@, middle, slots@, root, below);
    }
    Tree { data: item, children: kids }
}

/// Puts the contours in the places that the trees name.
fn fill_forest<P>(
    forest: Forest<usize>,
    slots: &mut Vec<Option<P>>,
    Ghost(items): Ghost<Seq<P>>,
) -> (made: Forest<P>)
    requires
        holds(old(slots)@, items),
        items_of(forest_view(forest@)).no_duplicates(),
        available(items_of(forest_view(forest@)), old(slots)@),
    ensures
        forest_view(made@) == render_all(forest_view(forest@), items),
        holds(final(slots)@, items),
        taken_out(old(slots)@, final(slots)@, items_of(forest_view(forest@))),
    decreases forest_size(forest@), 1nat,
{
    let ghost shapes = forest_view(forest@);
    let ghost all = items_of(shapes);
    let mut made: Forest<P> = Vec::new();
    proof {
        lemma_forest_view(forest@);
        assert(shapes.take(0) =~= Seq::<TreeView<usize>>::empty());
        assert(forest_view(made@) =~= render_all(shapes.take(0), items));
        assert(items_of(shapes.take(0)) =~= Seq::<usize>::empty());
    }
    for node in it: forest
        invariant
            it.seq() == forest@,
            shapes == forest_view(forest@),
            shapes.len() == forest@.len(),
            forall|i: int| 0 <= i < forest@.len() ==> #[trigger] shapes[i] == tree_view(*forest@[i]),
            all == items_of(shapes),
            all.no_duplicates(),
            available(all, old(slots)@),
            holds(slots@, items),
            forest_view(made@) == render_all(shapes.take(it.index() as int), items),
            taken_out(old(slots)@, slots@, items_of(shapes.take(it.index() as int))),
    {
        let ghost at = it.index() as int;
        let ghost before = slots@;
        let ghost made_before = made@;
        let ghost done = items_of(shapes.take(at));
        let ghost block = shapes[at].items();
        let ghost rest = items_of(shapes.skip(at + 1));
        proof {
            lemma_forest_size_at(forest@, at);
            assert(shapes =~= shapes.take(at) + shapes.skip(at));
            lemma_items_of_concat(shapes.take(at), shapes.skip(at));
            assert(shapes.skip(at).first() == shapes[at]);
            assert(shapes.skip(at).drop_first() =~= shapes.skip(at + 1));
            assert(items_of(shapes.skip(at)) == block + rest);
            assert(all =~= (done + block) + rest);
            assert((done + block).no_duplicates() && available(done + block, old(slots)@)) by {
                let front = done + block;
                assert forall|a: int, b: int|
                    0 <= a < front.len() && 0 <= b < front.len() && a != b implies front[a]
                    != front[b] by {
                    assert(all[a] == front[a] && all[b] == front[b]);
                }
                assert forall|k: int| 0 <= k < front.len() implies (#[trigger] front[k]) < old(
                    slots,
                )@.len() && old(slots)@[front[k] as int] is Some by {
                    assert(all[k] == front[k]);
                }
            }
            lemma_available_after(old(slots)@, before, done, block);
            assert(tree_view(*node) == shapes[at]);
        }
        let tree = fill_tree(*node, slots, Ghost(items));
        made.push(Box::new(tree));
        proof {
            assert(made@.drop_last() =~= made_before);
            assert(shapes.take(at + 1).drop_last() =~= shapes.take(at));
            assert(shapes.take(at + 1).last() == shapes[at]);
            assert(shapes.take(at + 1) =~= shapes.take(at) + seq![shapes[at]]);
            lemma_items_of_concat(shapes.take(at), seq![shapes[at]]);
            lemma_items_of_one(shapes[at]);
            lemma_taken_out_twice(old(slots)@, before, slots@, done, block);
        }
    }
    proof {
        assert(shapes.take(forest@.len() as int) =~= shapes);
    }
    made
}

/// Takes the contours at `places` out of `slots`, in that order.
fn pick<P>(places: &Vec<usize>, slots: &mut Vec<Option<P>>, Ghost(items): Ghost<Seq<P>>) -> (taken:
    Vec<P>)
    requires
        holds(old(slots)@, items),
        places@.no_duplicates(),
        available(places@, old(slots)@),
    ensures
        taken@ == picked(places@, items),
{
    let mut taken: Vec<P> = Vec::new();
    let mut k: usize = 0;
    proof {
        assert(places@.take(0) =~= Seq::<usize>::empty());
    }
    while k < places.len()
        invariant
            k <= places@.len(),
            places@.no_duplicates(),
            available(places@, old(slots)@),
            holds(slots@, items),
            taken_out(old(slots)@, slots@, places@.take(k as int)),
            taken@ == picked(places@.take(k as int), items),
        decreases places@.len() - k,
    {
        let place = places[k];
        let ghost before = slots@;
        let ghost done = places@.take(k as int);
        proof {
            assert(places@.take(k + 1) =~= done + seq![place]);
            assert((done + seq![place]).no_duplicates() && available(
                done + seq![place],
                old(slots)@,
            )) by {
                let front = done + seq![place];
                assert forall|a: int, b: int|
                    0 <= a < front.len() && 0 <= b < front.len() && a != b implies front[a]
                    != front[b] by {
                    assert(places@[a] == front[a] && places@[b] == front[b]);
                }
                assert forall|j: int| 0 <= j < front.len() implies (#[trigger] front[j]) < old(
                    slots,
                )@.len() && old(slots)@[front[j] as int] is Some by {
                    assert(places@[j] == front[j]);
                }
            }
            lemma_available_after(old(slots)@, before, done, seq![place]);
            assert(seq![place][0] == place);
        }
        let item = take_out(slots, place, Ghost(items));
        taken.push(item);
        proof {
            lemma_taken_out_twice(old(slots)@, before, slots@, done, seq![place]);
            assert(taken@ =~= picked(places@.take(k + 1), items));
        }
        k += 1;
    }
    proof {
        assert(places@.take(places@.len() as int) =~= places@);
    }
    taken
}

/// Orders contours into regions by the table, which says of each pair of
/// them, both named by their place in `paths`, how the first lies to the
/// second.
///
/// The contours that no other contour encloses become the roots, in
/// their order. Every other contour becomes a child of the innermost
/// contour that encloses it: of the contours that enclose it and are
/// themselves enclosed by fewer, the one that most enclose. So each level
/// of a tree lies one contour deeper than the level above. A contour that
/// nothing can stand above in this way, and all below it, are handed back
/// as unplaced; a table that orders the contours strictly leaves none.
/// Every region starts dark.
pub fn compose_regions<P>(paths: Vec<P>, relation: &Vec<Vec<Nesting>>) -> (made: Composition<P>)
    ensures
        region_trees(made.regions@) == render_all(
            composition(relation@, paths@.len()).0,
            paths@,
        ),
        made.unplaced@ == picked(composition(relation@, paths@.len()).1, paths@),
        made.regions@.len() == roots(relation@, paths@.len(), paths@.len()).len(),
        super::laws::strict_order(relation@, paths@.len()) ==> made.unplaced@.len() == 0,
        forall|i: int|
            0 <= i < made.regions@.len() ==> (#[trigger] made.regions@[i]).starting_polarity
                == Polarity::Dark,
{
    let ghost items = paths@;
    let count = paths.len();
    proof {
        super::laws::lemma_composition_roots(relation@, count as nat);
        lemma_render_all_len(composition(relation@, count as nat).0, items);
        if super::laws::strict_order(relation@, count as nat) {
            super::laws::lemma_strict_order_places_all(relation@, count as nat);
        }
    }
    let (forest, left) = arrange(relation, count);
    let ghost shapes = forest_view(forest@);
    let ghost placed = items_of(shapes);
    let mut slots: Vec<Option<P>> = Vec::new();
    for path in it: paths
        invariant
            it.seq() == items,
            slots@.len() == it.index(),
            forall|i: int| 0 <= i < slots@.len() ==> #[trigger] slots@[i] == Some(items[i]),
    {
        slots.push(Some(path));
    }
    let ghost full = slots@;
    proof {
        super::laws::lemma_composition_places(relation@, count as nat);
        let both = placed + left@;
        assert(available(both, full)) by {
            assert forall|k: int| 0 <= k < both.len() implies (#[trigger] both[k]) < full.len()
                && full[both[k] as int] is Some by {}
        }
        assert(placed.no_duplicates() && available(placed, full)) by {
            assert forall|a: int, b: int|
                0 <= a < placed.len() && 0 <= b < placed.len() && a != b implies placed[a]
                != placed[b] by {
                assert(both[a] == placed[a] && both[b] == placed[b]);
            }
            assert forall|k: int| 0 <= k < placed.len() implies (#[trigger] placed[k]) < full.len()
                && full[placed[k] as int] is Some by {
                assert(both[k] == placed[k]);
            }
        }
    }
    let trees = fill_forest(forest, &mut slots, Ghost(items));
    proof {
        lemma_available_after(full, slots@, placed, left@);
    }
    let unplaced = pick(&left, &mut slots, Ghost(items));
    let ghost filled = trees@;
    let mut regions: Vec<Region<P>> = Vec::new();
    proof {
        lemma_forest_view(filled);
        assert(region_trees(regions@) =~= forest_view(filled).take(0));
    }
    for node in it: trees
        invariant
            it.seq() == filled,
            forest_view(filled).len() == filled.len(),
            forall|i: int| 0 <= i < filled.len() ==> #[trigger] forest_view(filled)[i] == tree_view(
                *filled[i],
            ),
            region_trees(regions@) == forest_view(filled).take(it.index() as int),
            forall|i: int|
                0 <= i < regions@.len() ==> (#[trigger] regions@[i]).starting_polarity
                    == Polarity::Dark,
    {
        let ghost before = regions@;
        regions.push(Region::new(Polarity::Dark, *node));
        proof {
            assert(region_trees(regions@) =~= region_trees(before).push(tree_view(*node)));
            assert(forest_view(filled).take(it.index() + 1) =~= forest_view(filled).take(
                it.index() as int,
            ).push(tree_view(*node)));
        }
    }
    proof {
        assert(forest_view(filled).take(filled.len() as int) =~= forest_view(filled));
    }
    Composition { regions, unplaced }
}

} // verus!
