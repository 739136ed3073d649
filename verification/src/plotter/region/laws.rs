//! What holds of every composition of contours into trees.

use super::super::tree::{items_of, TreeView};
use super::compose::{
    attach_forest, attach_tree, composition, eligible, enclosers, encloses, innermost, is_root,
    leaves, left_by, lemma_items_of_concat, others, owned, parents, roots, settle, taken_by,
};
use super::nesting::Nesting;
use vstd::prelude::*;
use vstd::seq_lib::{lemma_multiset_commutative, to_multiset_build};

verus! {

broadcast use {vstd::multiset::group_multiset_axioms, vstd::seq_lib::group_to_multiset_ensures};

/// Whether every child in `tree` stands directly below its parent by the
/// list `above`.
pub open spec fn well_nested(above: Seq<Option<usize>>, tree: TreeView<usize>) -> bool
    decreases tree,
{
    forall|i: int|
        0 <= i < tree.children.len() ==> owned(above, tree.data, (#[trigger] tree.children[i]).data)
            && well_nested(above, tree.children[i])
}

/// Whether every tree of `forest` is well nested.
pub open spec fn all_nested(above: Seq<Option<usize>>, forest: Seq<TreeView<usize>>) -> bool {
    forall|i: int| 0 <= i < forest.len() ==> well_nested(above, #[trigger] forest[i])
}

/// The contours `0` to `count - 1`.
pub open spec fn all_contours(count: nat) -> Seq<usize> {
    Seq::new(count, |i: int| i as usize)
}

/// Whether the table orders the first `count` contours strictly: none
/// encloses itself, and what encloses a contour encloses all that the
/// contour encloses.
pub open spec fn strict_order(rel: Seq<Vec<Nesting>>, count: nat) -> bool {
    &&& forall|a: usize| a < count ==> !#[trigger] encloses(rel, a, a)
    &&& forall|a: usize, b: usize, c: usize|
        a < count && b < count && c < count && #[trigger] encloses(rel, a, b) && #[trigger] encloses(
            rel,
            b,
            c,
        ) ==> encloses(rel, a, c)
}

proof fn lemma_taken_by(above: Seq<Option<usize>>, owner: usize, paths: Seq<usize>)
    ensures
        forall|i: int|
            0 <= i < taken_by(above, owner, paths).len() ==> owned(
                above,
                owner,
                #[trigger] taken_by(above, owner, paths)[i],
            ),
        forall|i: int|
            0 <= i < left_by(above, owner, paths).len() ==> !owned(
                above,
                owner,
                #[trigger] left_by(above, owner, paths)[i],
            ) && paths.contains(left_by(above, owner, paths)[i]),
        taken_by(above, owner, paths).to_multiset().add(left_by(above, owner, paths).to_multiset())
            == paths.to_multiset(),
    decreases paths.len(),
{
    if paths.len() > 0 {
        let front = paths.drop_last();
        lemma_taken_by(above, owner, front);
        to_multiset_build(taken_by(above, owner, front), paths.last());
        to_multiset_build(left_by(above, owner, front), paths.last());
        to_multiset_build(front, paths.last());
        assert(front.push(paths.last()) =~= paths);
        assert(taken_by(above, owner, paths).to_multiset().add(
            left_by(above, owner, paths).to_multiset(),
        ) =~= paths.to_multiset());
        let left = left_by(above, owner, paths);
        assert forall|i: int| 0 <= i < left.len() implies !owned(above, owner, #[trigger] left[i])
            && paths.contains(left[i]) by {
            if i < left_by(above, owner, front).len() {
                let v = left_by(above, owner, front)[i];
                assert(left[i] == v);
                assert(front.contains(v));
                let j = choose|j: int| 0 <= j < front.len() && front[j] == v;
                assert(paths[j] == v);
            } else {
                assert(left[i] == paths.last());
                assert(paths[paths.len() - 1] == paths.last());
            }
        }
    } else {
        assert(taken_by(above, owner, paths).to_multiset().add(
            left_by(above, owner, paths).to_multiset(),
        ) =~= paths.to_multiset());
    }
}

/// What one step moves from a list into a first part, and the next step
/// from the rest into a second part, the two steps move from the list
/// into both parts.
proof fn lemma_bag_chain(
    first_after: Seq<usize>,
    second_after: Seq<usize>,
    left: Seq<usize>,
    first: Seq<usize>,
    second: Seq<usize>,
    paths: Seq<usize>,
    rest: Seq<usize>,
)
    requires
        first_after.to_multiset().add(rest.to_multiset()) == first.to_multiset().add(
            paths.to_multiset(),
        ),
        second_after.to_multiset().add(left.to_multiset()) == second.to_multiset().add(
            rest.to_multiset(),
        ),
    ensures
        (first_after + second_after).to_multiset().add(left.to_multiset()) == (first
            + second).to_multiset().add(paths.to_multiset()),
{
    lemma_multiset_commutative(first_after, second_after);
    lemma_multiset_commutative(first, second);
    let a = (first_after + second_after).to_multiset().add(left.to_multiset());
    let b = (first + second).to_multiset().add(paths.to_multiset());
    assert forall|v: usize| a.count(v) == b.count(v) by {
        let after = first_after.to_multiset().add(second_after.to_multiset());
        let both = first.to_multiset().add(second.to_multiset());
        assert((first_after + second_after).to_multiset() == after);
        assert((first + second).to_multiset() == both);
        assert(after.count(v) == first_after.to_multiset().count(v)
            + second_after.to_multiset().count(v));
        assert(both.count(v) == first.to_multiset().count(v) + second.to_multiset().count(v));
        assert(a.count(v) == after.count(v) + left.to_multiset().count(v));
        assert(b.count(v) == both.count(v) + paths.to_multiset().count(v));
        assert(first_after.to_multiset().add(rest.to_multiset()).count(v)
            == first_after.to_multiset().count(v) + rest.to_multiset().count(v));
        assert(first.to_multiset().add(paths.to_multiset()).count(v) == first.to_multiset().count(v)
            + paths.to_multiset().count(v));
        assert(second_after.to_multiset().add(left.to_multiset()).count(v)
            == second_after.to_multiset().count(v) + left.to_multiset().count(v));
        assert(second.to_multiset().add(rest.to_multiset()).count(v) == second.to_multiset().count(v)
            + rest.to_multiset().count(v));
    }
    assert(a =~= b);
}

proof fn lemma_leaves_items(items: Seq<usize>)
    ensures
        items_of(leaves(items)) == items,
    decreases items.len(),
{
    if items.len() > 0 {
        lemma_leaves_items(items.drop_first());
        assert(leaves(items).drop_first() =~= leaves(items.drop_first()));
        assert(leaves(items).first().children =~= Seq::<TreeView<usize>>::empty());
        assert(leaves(items).first().items() =~= seq![items.first()]);
        assert(items_of(leaves(items)) =~= items);
    } else {
        assert(items_of(leaves(items)) =~= items);
    }
}

/// Three bags that are moved in two steps: what the children take of the
/// rest, and what the node takes of the list.
proof fn lemma_bag_node(
    root: Seq<usize>,
    kids_after: Seq<usize>,
    mine: Seq<usize>,
    left: Seq<usize>,
    kids: Seq<usize>,
    rest: Seq<usize>,
    paths: Seq<usize>,
)
    requires
        kids_after.to_multiset().add(left.to_multiset()) == kids.to_multiset().add(
            rest.to_multiset(),
        ),
        mine.to_multiset().add(rest.to_multiset()) == paths.to_multiset(),
    ensures
        (root + (kids_after + mine)).to_multiset().add(left.to_multiset()) == (root
            + kids).to_multiset().add(paths.to_multiset()),
{
    lemma_multiset_commutative(root, kids_after + mine);
    lemma_multiset_commutative(kids_after, mine);
    lemma_multiset_commutative(root, kids);
    let a = (root + (kids_after + mine)).to_multiset().add(left.to_multiset());
    let b = (root + kids).to_multiset().add(paths.to_multiset());
    assert forall|v: usize| a.count(v) == b.count(v) by {
        let r = root.to_multiset().count(v);
        let ka = kids_after.to_multiset().count(v);
        let m = mine.to_multiset().count(v);
        let l = left.to_multiset().count(v);
        let k = kids.to_multiset().count(v);
        let re = rest.to_multiset().count(v);
        let p = paths.to_multiset().count(v);
        assert(kids_after.to_multiset().add(left.to_multiset()).count(v) == ka + l);
        assert(kids.to_multiset().add(rest.to_multiset()).count(v) == k + re);
        assert(mine.to_multiset().add(rest.to_multiset()).count(v) == m + re);
        assert((kids_after + mine).to_multiset() == kids_after.to_multiset().add(mine.to_multiset()));
        assert(kids_after.to_multiset().add(mine.to_multiset()).count(v) == ka + m);
        assert((root + (kids_after + mine)).to_multiset() == root.to_multiset().add(
            (kids_after + mine).to_multiset(),
        ));
        assert(root.to_multiset().add((kids_after + mine).to_multiset()).count(v) == r + (ka + m));
        assert(a.count(v) == r + ka + m + l);
        assert((root + kids).to_multiset() == root.to_multiset().add(kids.to_multiset()));
        assert(root.to_multiset().add(kids.to_multiset()).count(v) == r + k);
        assert(b.count(v) == r + k + p);
    }
    assert(a =~= b);
}

/// A pass over a tree keeps its root and its nesting, and moves contours
/// from the list into the tree without losing or doubling one. What it
/// leaves stood in the list and stands directly below no node of the
/// tree.
pub proof fn lemma_attach_tree(above: Seq<Option<usize>>, node: TreeView<usize>, paths: Seq<usize>)
    ensures
        attach_tree(above, node, paths).0.data == node.data,
        well_nested(above, node) ==> well_nested(above, attach_tree(above, node, paths).0),
        attach_tree(above, node, paths).0.items().to_multiset().add(
            attach_tree(above, node, paths).1.to_multiset(),
        ) == node.items().to_multiset().add(paths.to_multiset()),
        forall|i: int|
            0 <= i < attach_tree(above, node, paths).1.len() ==> paths.contains(
                #[trigger] attach_tree(above, node, paths).1[i],
            ) && forall|k: int|
                0 <= k < node.items().len() ==> !owned(
                    above,
                    #[trigger] node.items()[k],
                    attach_tree(above, node, paths).1[i],
                ),
    decreases node, 1nat,
{
    let grown = attach_tree(above, node, paths).0;
    let left = attach_tree(above, node, paths).1;
    let root = seq![node.data];
    let mine = taken_by(above, node.data, paths);
    let rest = left_by(above, node.data, paths);
    let kids = attach_forest(above, node.children, rest).0;
    lemma_taken_by(above, node.data, paths);
    lemma_attach_forest(above, node.children, rest);
    lemma_leaves_items(mine);
    lemma_items_of_concat(kids, leaves(mine));
    assert(grown.children == kids + leaves(mine));
    lemma_bag_node(root, items_of(kids), mine, left, items_of(node.children), rest, paths);
    assert forall|i: int| 0 <= i < left.len() implies paths.contains(#[trigger] left[i])
        && forall|k: int| 0 <= k < node.items().len() ==> !owned(
            above,
            #[trigger] node.items()[k],
            left[i],
        ) by {
        assert(rest.contains(left[i]));
        let j = choose|j: int| 0 <= j < rest.len() && rest[j] == left[i];
        assert(paths.contains(rest[j]) && !owned(above, node.data, rest[j]));
        assert forall|k: int| 0 <= k < node.items().len() implies !owned(
            above,
            #[trigger] node.items()[k],
            left[i],
        ) by {
            if k > 0 {
                assert(node.items()[k] == items_of(node.children)[k - 1]);
            }
        }
    }
    if well_nested(above, node) {
        assert(all_nested(above, node.children));
        assert forall|i: int| 0 <= i < grown.children.len() implies owned(
            above,
            grown.data,
            (#[trigger] grown.children[i]).data,
        ) && well_nested(above, grown.children[i]) by {
            if i < kids.len() {
                assert(grown.children[i] == kids[i]);
                assert(kids[i].data == node.children[i].data);
            } else {
                assert(grown.children[i] == TreeView::leaf(mine[i - kids.len()]));
            }
        }
    }
}

/// A pass over a forest keeps the roots and the nesting of its trees, and
/// moves contours from the list into them without losing or doubling one.
/// What it leaves stood in the list and stands directly below no node of
/// the forest.
pub proof fn lemma_attach_forest(
    above: Seq<Option<usize>>,
    forest: Seq<TreeView<usize>>,
    paths: Seq<usize>,
)
    ensures
        attach_forest(above, forest, paths).0.len() == forest.len(),
        forall|i: int|
            0 <= i < forest.len() ==> (#[trigger] attach_forest(above, forest, paths).0[i]).data
                == forest[i].data,
        all_nested(above, forest) ==> all_nested(above, attach_forest(above, forest, paths).0),
        items_of(attach_forest(above, forest, paths).0).to_multiset().add(
            attach_forest(above, forest, paths).1.to_multiset(),
        ) == items_of(forest).to_multiset().add(paths.to_multiset()),
        forall|i: int|
            0 <= i < attach_forest(above, forest, paths).1.len() ==> paths.contains(
                #[trigger] attach_forest(above, forest, paths).1[i],
            ) && forall|k: int|
                0 <= k < items_of(forest).len() ==> !owned(
                    above,
                    #[trigger] items_of(forest)[k],
                    attach_forest(above, forest, paths).1[i],
                ),
    decreases forest, 0nat,
{
    let grown = attach_forest(above, forest, paths).0;
    let left = attach_forest(above, forest, paths).1;
    if forest.len() > 0 {
        let first = attach_tree(above, forest.first(), paths).0;
        let rest = attach_tree(above, forest.first(), paths).1;
        let tail = forest.drop_first();
        let others = attach_forest(above, tail, rest).0;
        lemma_attach_tree(above, forest.first(), paths);
        lemma_attach_forest(above, tail, rest);
        assert(grown == seq![first] + others);
        assert(grown.first() == first);
        assert(grown.drop_first() =~= others);
        assert forall|i: int| 0 <= i < forest.len() implies (#[trigger] grown[i]).data
            == forest[i].data by {
            if i > 0 {
                assert(grown[i] == others[i - 1]);
                assert(tail[i - 1] == forest[i]);
            }
        }
        lemma_bag_chain(
            first.items(),
            items_of(others),
            left,
            forest.first().items(),
            items_of(tail),
            paths,
            rest,
        );
        let head_items = forest.first().items();
        assert(items_of(forest) == head_items + items_of(tail));
        assert forall|i: int| 0 <= i < left.len() implies paths.contains(#[trigger] left[i])
            && forall|k: int| 0 <= k < items_of(forest).len() ==> !owned(
                above,
                #[trigger] items_of(forest)[k],
                left[i],
            ) by {
            assert(rest.contains(left[i]));
            let j = choose|j: int| 0 <= j < rest.len() && rest[j] == left[i];
            assert(paths.contains(rest[j]));
            assert forall|k: int| 0 <= k < items_of(forest).len() implies !owned(
                above,
                #[trigger] items_of(forest)[k],
                left[i],
            ) by {
                if k < head_items.len() {
                    assert(items_of(forest)[k] == head_items[k]);
                } else {
                    assert(items_of(forest)[k] == items_of(tail)[k - head_items.len()]);
                }
            }
        }
        if all_nested(above, forest) {
            assert(well_nested(above, forest.first()));
            assert(all_nested(above, tail)) by {
                assert forall|i: int| 0 <= i < tail.len() implies well_nested(
                    above,
                    #[trigger] tail[i],
                ) by {
                    assert(tail[i] == forest[i + 1]);
                }
            }
            assert forall|i: int| 0 <= i < grown.len() implies well_nested(
                above,
                #[trigger] grown[i],
            ) by {
                if i > 0 {
                    assert(grown[i] == others[i - 1]);
                }
            }
        }
    } else {
        assert(items_of(grown).to_multiset().add(left.to_multiset()) =~= items_of(
            forest,
        ).to_multiset().add(paths.to_multiset()));
        assert forall|i: int| 0 <= i < left.len() implies paths.contains(#[trigger] left[i]) by {
            assert(paths[i] == left[i]);
        }
    }
}

proof fn lemma_settle(above: Seq<Option<usize>>, forest: Seq<TreeView<usize>>, paths: Seq<usize>)
    ensures
        settle(above, forest, paths).0.len() == forest.len(),
        forall|i: int|
            0 <= i < forest.len() ==> (#[trigger] settle(above, forest, paths).0[i]).data
                == forest[i].data,
        all_nested(above, forest) ==> all_nested(above, settle(above, forest, paths).0),
        items_of(settle(above, forest, paths).0).to_multiset().add(
            settle(above, forest, paths).1.to_multiset(),
        ) == items_of(forest).to_multiset().add(paths.to_multiset()),
    decreases paths.len(),
{
    if paths.len() > 0 {
        lemma_attach_forest(above, forest, paths);
        let grown = attach_forest(above, forest, paths).0;
        let left = attach_forest(above, forest, paths).1;
        if left.len() < paths.len() {
            lemma_settle(above, grown, left);
        }
    }
}

proof fn lemma_roots_and_others(rel: Seq<Vec<Nesting>>, count: nat, upto: nat)
    requires
        upto <= usize::MAX,
    ensures
        roots(rel, count, upto).to_multiset().add(others(rel, count, upto).to_multiset())
            == all_contours(upto).to_multiset(),
        forall|i: int|
            0 <= i < roots(rel, count, upto).len() ==> is_root(
                rel,
                count,
                #[trigger] roots(rel, count, upto)[i],
            ) && roots(rel, count, upto)[i] < upto,
        forall|i: int|
            0 <= i < others(rel, count, upto).len() ==> !is_root(
                rel,
                count,
                #[trigger] others(rel, count, upto)[i],
            ) && others(rel, count, upto)[i] < upto,
        forall|c: usize|
            c < upto && is_root(rel, count, c) ==> #[trigger] roots(rel, count, upto).contains(c),
        forall|c: usize|
            c < upto && !is_root(rel, count, c) ==> #[trigger] others(rel, count, upto).contains(
                c,
            ),
    decreases upto,
{
    if upto > 0 {
        let before = (upto - 1) as nat;
        let last = (upto - 1) as usize;
        lemma_roots_and_others(rel, count, before);
        to_multiset_build(roots(rel, count, before), last);
        to_multiset_build(others(rel, count, before), last);
        to_multiset_build(all_contours(before), last);
        assert(all_contours(before).push(last) =~= all_contours(upto));
        assert(roots(rel, count, upto).to_multiset().add(others(rel, count, upto).to_multiset())
            =~= all_contours(upto).to_multiset());
        let r = roots(rel, count, upto);
        let o = others(rel, count, upto);
        assert forall|c: usize| c < upto && is_root(rel, count, c) implies #[trigger] r.contains(
            c,
        ) by {
            if c == last {
                assert(r[r.len() - 1] == c);
            } else {
                let rb = roots(rel, count, before);
                assert(rb.contains(c));
                let j = choose|j: int| 0 <= j < rb.len() && rb[j] == c;
                assert(r[j] == c);
            }
        }
        assert forall|c: usize| c < upto && !is_root(rel, count, c) implies #[trigger] o.contains(
            c,
        ) by {
            if c == last {
                assert(o[o.len() - 1] == c);
            } else {
                let ob = others(rel, count, before);
                assert(ob.contains(c));
                let j = choose|j: int| 0 <= j < ob.len() && ob[j] == c;
                assert(o[j] == c);
            }
        }
    } else {
        assert(all_contours(upto) =~= Seq::<usize>::empty());
        assert(roots(rel, count, upto).to_multiset().add(others(rel, count, upto).to_multiset())
            =~= all_contours(upto).to_multiset());
    }
}

/// A contour stands on the top level exactly when no other contour
/// encloses it.
pub proof fn lemma_root_is_unenclosed(rel: Seq<Vec<Nesting>>, count: nat, c: usize)
    requires
        count <= usize::MAX,
    ensures
        is_root(rel, count, c) <==> forall|p: usize|
            p < count && p != c ==> !#[trigger] encloses(rel, p, c),
{
    lemma_enclosers_zero(rel, c, count);
}

proof fn lemma_enclosers_zero(rel: Seq<Vec<Nesting>>, c: usize, upto: nat)
    requires
        upto <= usize::MAX,
    ensures
        enclosers(rel, c, upto) == 0 <==> forall|p: usize|
            p < upto && p != c ==> !#[trigger] encloses(rel, p, c),
    decreases upto,
{
    if upto > 0 {
        lemma_enclosers_zero(rel, c, (upto - 1) as nat);
        let last = (upto - 1) as usize;
        if enclosers(rel, c, upto) == 0 {
            assert forall|p: usize| p < upto && p != c implies !#[trigger] encloses(rel, p, c) by {
                if p == last {
                }
            }
        } else {
            if enclosers(rel, c, (upto - 1) as nat) == 0 {
                assert(last != c && encloses(rel, last, c));
            }
        }
    }
}

/// What the search for the contour directly above `c` finds is eligible,
/// and no eligible contour has more enclosers.
pub proof fn lemma_innermost(rel: Seq<Vec<Nesting>>, count: nat, c: usize, upto: nat)
    requires
        upto <= usize::MAX,
    ensures
        match innermost(rel, count, c, upto) {
            Some(p) => {
                &&& p < upto
                &&& eligible(rel, count, p, c)
                &&& forall|q: usize|
                    q < upto && #[trigger] eligible(rel, count, q, c) ==> enclosers(rel, q, count)
                        <= enclosers(rel, p, count)
            },
            None => forall|q: usize| q < upto ==> !#[trigger] eligible(rel, count, q, c),
        },
    decreases upto,
{
    if upto > 0 {
        lemma_innermost(rel, count, c, (upto - 1) as nat);
    }
}

/// In a table that orders the contours strictly, fewer contours enclose a
/// contour than enclose what it encloses.
pub proof fn lemma_enclosers_grow(rel: Seq<Vec<Nesting>>, count: nat, p: usize, q: usize, upto: nat)
    requires
        strict_order(rel, count),
        p < count,
        q < count,
        encloses(rel, p, q),
        upto <= count <= usize::MAX,
    ensures
        enclosers(rel, p, upto) <= enclosers(rel, q, upto),
        p < upto ==> enclosers(rel, p, upto) < enclosers(rel, q, upto),
    decreases upto,
{
    if upto > 0 {
        lemma_enclosers_grow(rel, count, p, q, (upto - 1) as nat);
        let a = (upto - 1) as usize;
        if a != p && encloses(rel, a, p) {
            assert(encloses(rel, a, q));
            if a == q {
                assert(encloses(rel, p, p));
            }
        }
        if a == p {
            assert(!encloses(rel, p, p));
            if p == q {
            }
        }
    }
}

/// In every tree of a composition each child stands directly below its
/// parent: the parent encloses it, fewer contours enclose the parent, and
/// of the contours of which that holds none has more enclosers than the
/// parent.
pub proof fn lemma_composition_is_nested(rel: Seq<Vec<Nesting>>, count: nat)
    ensures
        all_nested(parents(rel, count), composition(rel, count).0),
{
    let start = leaves(roots(rel, count, count));
    let above = parents(rel, count);
    assert(all_nested(above, start)) by {
        assert forall|i: int| 0 <= i < start.len() implies well_nested(above, #[trigger] start[i]) by {
            assert(start[i].children.len() == 0);
        }
    }
    lemma_settle(above, start, others(rel, count, count));
}

/// The contour directly above a contour is the innermost one that
/// encloses it: in a table that orders the contours strictly, no contour
/// lies between the two.
pub proof fn lemma_parent_is_innermost(rel: Seq<Vec<Nesting>>, count: nat, p: usize, c: usize)
    requires
        count <= usize::MAX,
        owned(parents(rel, count), p, c),
    ensures
        p < count,
        p != c,
        encloses(rel, p, c),
        strict_order(rel, count) ==> forall|q: usize|
            q < count ==> !(#[trigger] encloses(rel, p, q) && encloses(rel, q, c)),
{
    lemma_innermost(rel, count, c, count);
    if strict_order(rel, count) {
        assert forall|q: usize| q < count implies !(#[trigger] encloses(rel, p, q) && encloses(
            rel,
            q,
            c,
        )) by {
            if encloses(rel, p, q) && encloses(rel, q, c) {
                lemma_enclosers_grow(rel, count, p, q, count);
                lemma_enclosers_grow(rel, count, q, c, count);
                if q == c {
                    assert(encloses(rel, c, c));
                }
                assert(eligible(rel, count, q, c));
            }
        }
    }
}

/// In a table that orders the contours strictly, two contours that stand
/// directly below the same contour do not enclose one another.
pub proof fn lemma_siblings_lie_apart(
    rel: Seq<Vec<Nesting>>,
    count: nat,
    p: usize,
    first: usize,
    second: usize,
)
    requires
        count <= usize::MAX,
        strict_order(rel, count),
        owned(parents(rel, count), p, first),
        owned(parents(rel, count), p, second),
    ensures
        !encloses(rel, first, second),
{
    lemma_parent_is_innermost(rel, count, p, first);
    lemma_parent_is_innermost(rel, count, p, second);
}

/// A composition holds every contour exactly once: in one of its trees,
/// or among the unplaced.
pub proof fn lemma_composition_holds_each_once(rel: Seq<Vec<Nesting>>, count: nat)
    requires
        count <= usize::MAX,
    ensures
        (items_of(composition(rel, count).0) + composition(rel, count).1).to_multiset()
            == all_contours(count).to_multiset(),
{
    let first = roots(rel, count, count);
    let rest = others(rel, count, count);
    lemma_roots_and_others(rel, count, count);
    lemma_leaves_items(first);
    lemma_settle(parents(rel, count), leaves(first), rest);
    lemma_multiset_commutative(items_of(composition(rel, count).0), composition(rel, count).1);
}

/// The places that a composition names, in its trees and among the
/// unplaced, are all different and all below the count of contours.
pub proof fn lemma_composition_places(rel: Seq<Vec<Nesting>>, count: nat)
    requires
        count <= usize::MAX,
    ensures
        (items_of(composition(rel, count).0) + composition(rel, count).1).no_duplicates(),
        forall|k: int|
            0 <= k < (items_of(composition(rel, count).0) + composition(rel, count).1).len() ==> (
            #[trigger] (items_of(composition(rel, count).0) + composition(rel, count).1)[k])
                < count,
{
    let named = items_of(composition(rel, count).0) + composition(rel, count).1;
    lemma_composition_holds_each_once(rel, count);
    lemma_permutation(named, count);
}

/// A list with the contours `0` to `count - 1` as its bag names each of
/// them once and nothing else.
proof fn lemma_permutation(named: Seq<usize>, count: nat)
    requires
        count <= usize::MAX,
        named.to_multiset() == all_contours(count).to_multiset(),
    ensures
        named.no_duplicates(),
        forall|k: int| 0 <= k < named.len() ==> (#[trigger] named[k]) < count,
        forall|c: usize| c < count ==> #[trigger] named.contains(c),
{
    let all = all_contours(count);
    assert(all.no_duplicates());
    all.lemma_multiset_has_no_duplicates();
    named.lemma_multiset_has_no_duplicates_conv();
    assert forall|k: int| 0 <= k < named.len() implies (#[trigger] named[k]) < count by {
        assert(named.contains(named[k]));
        assert(named.to_multiset().count(named[k]) > 0);
        assert(all.contains(named[k]));
        let j = choose|j: int| 0 <= j < all.len() && all[j] == named[k];
        assert(all[j] == j as usize);
    }
    assert forall|c: usize| c < count implies #[trigger] named.contains(c) by {
        assert(all[c as int] == c);
        assert(all.contains(c));
        assert(all.to_multiset().count(c) > 0);
    }
}

/// The roots of a composition are the contours that no other contour
/// encloses, in the order of the table.
pub proof fn lemma_composition_roots(rel: Seq<Vec<Nesting>>, count: nat)
    requires
        count <= usize::MAX,
    ensures
        composition(rel, count).0.len() == roots(rel, count, count).len(),
        forall|i: int|
            0 <= i < composition(rel, count).0.len() ==> (#[trigger] composition(
                rel,
                count,
            ).0[i]).data == roots(rel, count, count)[i],
        forall|i: int|
            0 <= i < composition(rel, count).0.len() ==> is_root(
                rel,
                count,
                (#[trigger] composition(rel, count).0[i]).data,
            ),
        forall|c: usize|
            c < count && is_root(rel, count, c) ==> #[trigger] roots(rel, count, count).contains(c),
{
    let first = roots(rel, count, count);
    lemma_roots_and_others(rel, count, count);
    lemma_settle(parents(rel, count), leaves(first), others(rel, count, count));
    assert forall|i: int| 0 <= i < composition(rel, count).0.len() implies is_root(
        rel,
        count,
        (#[trigger] composition(rel, count).0[i]).data,
    ) by {
        assert(leaves(first)[i].data == first[i]);
        assert(is_root(rel, count, first[i]));
    }
}

/// A single contour makes a single region of one node: nothing is left
/// over.
pub proof fn lemma_single_contour(rel: Seq<Vec<Nesting>>)
    ensures
        composition(rel, 1) == (seq![TreeView::leaf(0usize)], Seq::<usize>::empty()),
{
    reveal_with_fuel(roots, 2);
    reveal_with_fuel(others, 2);
    reveal_with_fuel(enclosers, 2);
    assert(is_root(rel, 1, 0usize));
    assert(roots(rel, 1, 1) =~= seq![0usize]);
    assert(others(rel, 1, 1) =~= Seq::<usize>::empty());
    assert(leaves(seq![0usize]) =~= seq![TreeView::leaf(0usize)]);
}

/// Whether every contour of `paths` has a contour directly above it that
/// is placed already or is still to be placed.
pub open spec fn supported(above: Seq<Option<usize>>, placed: Seq<usize>, paths: Seq<usize>) -> bool {
    forall|i: int|
        0 <= i < paths.len() ==> (#[trigger] paths[i]) < above.len() && above[paths[i] as int]
            is Some && (placed.contains(above[paths[i] as int]->0) || paths.contains(
            above[paths[i] as int]->0,
        ))
}

/// A place of `paths` whose contour has the fewest enclosers.
proof fn lemma_least(rel: Seq<Vec<Nesting>>, count: nat, paths: Seq<usize>) -> (m: int)
    requires
        paths.len() > 0,
    ensures
        0 <= m < paths.len(),
        forall|i: int|
            0 <= i < paths.len() ==> enclosers(rel, paths[m], count) <= enclosers(
                rel,
                #[trigger] paths[i],
                count,
            ),
    decreases paths.len(),
{
    if paths.len() == 1 {
        0
    } else {
        let front = paths.drop_last();
        let m = lemma_least(rel, count, front);
        let last = paths.len() - 1;
        assert forall|i: int| 0 <= i < front.len() implies front[i] == paths[i] by {}
        if enclosers(rel, paths[last], count) < enclosers(rel, paths[m], count) {
            assert forall|i: int| 0 <= i < paths.len() implies enclosers(rel, paths[last], count)
                <= enclosers(rel, #[trigger] paths[i], count) by {
                if i < last {
                    assert(front[i] == paths[i]);
                }
            }
            last
        } else {
            assert forall|i: int| 0 <= i < paths.len() implies enclosers(rel, paths[m], count)
                <= enclosers(rel, #[trigger] paths[i], count) by {
                if i < last {
                    assert(front[i] == paths[i]);
                }
            }
            m
        }
    }
}

/// Where every contour still to be placed has the contour directly above
/// it placed or still to be placed, the passes place them all.
proof fn lemma_settle_places_all(
    rel: Seq<Vec<Nesting>>,
    count: nat,
    forest: Seq<TreeView<usize>>,
    paths: Seq<usize>,
)
    requires
        count <= usize::MAX,
        supported(parents(rel, count), items_of(forest), paths),
        (items_of(forest) + paths).to_multiset() == all_contours(count).to_multiset(),
    ensures
        settle(parents(rel, count), forest, paths).1.len() == 0,
    decreases paths.len(),
{
    let above = parents(rel, count);
    if paths.len() > 0 {
        let placed = items_of(forest);
        let grown = attach_forest(above, forest, paths).0;
        let left = attach_forest(above, forest, paths).1;
        let more = items_of(grown);
        lemma_attach_forest(above, forest, paths);
        lemma_multiset_commutative(placed, paths);
        lemma_multiset_commutative(more, left);
        lemma_permutation(placed + paths, count);
        lemma_permutation(more + left, count);
        // The contour with the fewest enclosers has its parent placed.
        let m = lemma_least(rel, count, paths);
        let c = paths[m];
        let p = above[c as int]->0;
        lemma_innermost(rel, count, c, count);
        assert(owned(above, p, c));
        if paths.contains(p) {
            let j = choose|j: int| 0 <= j < paths.len() && paths[j] == p;
            assert(enclosers(rel, paths[m], count) <= enclosers(rel, paths[j], count));
        }
        assert(placed.contains(p));
        let k = choose|k: int| 0 <= k < placed.len() && placed[k] == p;
        if left.contains(c) {
            let i = choose|i: int| 0 <= i < left.len() && left[i] == c;
            assert(!owned(above, placed[k], left[i]));
        }
        // So the pass leaves fewer than it met.
        assert(paths.no_duplicates() && left.no_duplicates()) by {
            let both = placed + paths;
            assert forall|a: int, b: int|
                0 <= a < paths.len() && 0 <= b < paths.len() && a != b implies paths[a]
                != paths[b] by {
                assert(both[placed.len() + a] == paths[a] && both[placed.len() + b] == paths[b]);
            }
            let two = more + left;
            assert forall|a: int, b: int|
                0 <= a < left.len() && 0 <= b < left.len() && a != b implies left[a]
                != left[b] by {
                assert(two[more.len() + a] == left[a] && two[more.len() + b] == left[b]);
            }
        }
        paths.unique_seq_to_set();
        left.unique_seq_to_set();
        assert(left.to_set().subset_of(paths.to_set().remove(c))) by {
            assert forall|v: usize| left.to_set().contains(v) implies paths.to_set().remove(
                c,
            ).contains(v) by {
                let i = choose|i: int| 0 <= i < left.len() && left[i] == v;
                assert(paths.contains(left[i]));
            }
        }
        assert(paths.to_set().contains(c));
        vstd::set_lib::lemma_len_subset(left.to_set(), paths.to_set().remove(c));
        assert(left.len() < paths.len());
        // And what it leaves is supported by what it placed.
        assert(supported(above, more, left)) by {
            assert forall|i: int| 0 <= i < left.len() implies (#[trigger] left[i]) < above.len()
                && above[left[i] as int] is Some && (more.contains(above[left[i] as int]->0)
                || left.contains(above[left[i] as int]->0)) by {
                let v = left[i];
                assert(paths.contains(v));
                let j = choose|j: int| 0 <= j < paths.len() && paths[j] == v;
                let q = above[v as int]->0;
                assert(owned(above, q, v));
                if placed.contains(q) {
                    let a = choose|a: int| 0 <= a < placed.len() && placed[a] == q;
                    assert(!owned(above, placed[a], left[i]));
                }
                assert(paths.contains(q));
                let b = choose|b: int| 0 <= b < paths.len() && paths[b] == q;
                assert((placed + paths)[placed.len() + b] == q);
                assert(q < count);
                assert((more + left).contains(q));
                let d = choose|d: int| 0 <= d < (more + left).len() && (more + left)[d] == q;
                if d < more.len() {
                    assert(more[d] == q);
                } else {
                    assert(left[d - more.len()] == q);
                }
            }
        }
        lemma_settle_places_all(rel, count, grown, left);
    }
}

/// A table that orders the contours strictly leaves no contour unplaced.
pub proof fn lemma_strict_order_places_all(rel: Seq<Vec<Nesting>>, count: nat)
    requires
        count <= usize::MAX,
        strict_order(rel, count),
    ensures
        composition(rel, count).1.len() == 0,
{
    let above = parents(rel, count);
    let first = roots(rel, count, count);
    let rest = others(rel, count, count);
    lemma_roots_and_others(rel, count, count);
    lemma_leaves_items(first);
    lemma_multiset_commutative(first, rest);
    assert(supported(above, first, rest)) by {
        assert forall|i: int| 0 <= i < rest.len() implies (#[trigger] rest[i]) < above.len()
            && above[rest[i] as int] is Some && (first.contains(above[rest[i] as int]->0)
            || rest.contains(above[rest[i] as int]->0)) by {
            let c = rest[i];
            lemma_enclosers_zero(rel, c, count);
            let q = choose|q: usize| q < count && q != c && encloses(rel, q, c);
            lemma_enclosers_grow(rel, count, q, c, count);
            assert(eligible(rel, count, q, c));
            lemma_innermost(rel, count, c, count);
            let p = above[c as int]->0;
            assert(p < count);
            if is_root(rel, count, p) {
                assert(first.contains(p));
            } else {
                assert(rest.contains(p));
            }
        }
    }
    lemma_settle_places_all(rel, count, leaves(first), rest);
}

} // verus!
