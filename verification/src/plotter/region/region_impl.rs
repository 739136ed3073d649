//! A filled region: its outermost contour and the contours nested in it.

use super::super::tree::{forest_size, lemma_forest_size_at, lemma_forest_view, Tree, TreeView};
use crate::parser::commands::Polarity;
use vstd::prelude::*;

verus! {

/// A filled region. The root of `paths` is the outermost contour; each
/// level below it has the polarity of the level above switched.
pub struct Region<P> {
    pub starting_polarity: Polarity,
    pub paths: Tree<P>,
}

/// The contours of `tree` in pre-order, each with its polarity: the root
/// has `polarity`, and each level below has that of the level above
/// switched.
pub open spec fn layers<P>(tree: TreeView<P>, polarity: Polarity) -> Seq<(Polarity, P)>
    decreases tree, 1nat,
{
    seq![(polarity, tree.data)] + layers_of(tree.children, polarity.spec_switch())
}

/// The contours of the trees of `forest`, tree by tree, each tree as
/// [`layers`] gives it with `polarity` at its root.
pub open spec fn layers_of<P>(forest: Seq<TreeView<P>>, polarity: Polarity) -> Seq<(Polarity, P)>
    decreases forest, 0nat,
{
    if forest.len() == 0 {
        Seq::empty()
    } else {
        layers_of(forest.drop_last(), polarity) + layers(forest.last(), polarity)
    }
}

/// Appends the contours of `tree` with their polarities to `out`.
fn flatten<P>(tree: Tree<P>, polarity: Polarity, out: &mut Vec<(Polarity, P)>)
    ensures
        final(out)@ == old(out)@ + layers(tree@, polarity),
    decreases tree.size(),
{
    let ghost shapes = tree@.children;
    let ghost start = out@;
    let Tree { data, children } = tree;
    out.push((polarity, data));
    let below = polarity.switch();
    proof {
        lemma_forest_view(children@);
        assert(shapes.take(0) =~= Seq::<TreeView<P>>::empty());
        assert(out@ =~= start + seq![(polarity, data)] + layers_of(shapes.take(0), below));
    }
    for child in it: children
        invariant
            it.seq() == children@,
            shapes.len() == children@.len(),
            forall|i: int| 0 <= i < children@.len() ==> #[trigger] shapes[i] == (*children@[i])@,
            forest_size(children@) < tree.size(),
            out@ == start + seq![(polarity, data)] + layers_of(
                shapes.take(it.index() as int),
                below,
            ),
    {
        let ghost at = it.index() as int;
        let ghost before = out@;
        proof {
            lemma_forest_size_at(children@, at);
            assert(shapes.take(at + 1).drop_last() =~= shapes.take(at));
            assert(shapes.take(at + 1).last() == shapes[at]);
        }
        flatten(*child, below, out);
        proof {
            assert(out@ =~= start + seq![(polarity, data)] + layers_of(shapes.take(at + 1), below));
        }
    }
    proof {
        assert(shapes.take(shapes.len() as int) =~= shapes);
        assert(out@ =~= start + layers(tree@, polarity));
    }
}

impl<P> Region<P> {
    /// Walks the region from its root down: gives its contours in
    /// pre-order, each with the polarity in which it is to be filled. The
    /// root has the starting polarity; every level below has the polarity
    /// of the level above switched.
    pub fn into_layers(self) -> (contours: Vec<(Polarity, P)>)
        ensures
            contours@ == layers(self.paths@, self.starting_polarity),
    {
        let mut contours: Vec<(Polarity, P)> = Vec::new();
        let Region { starting_polarity, paths } = self;
        flatten(paths, starting_polarity, &mut contours);
        proof {
            assert(Seq::<(Polarity, P)>::empty() + layers(paths@, starting_polarity) =~= layers(
                paths@,
                starting_polarity,
            ));
        }
        contours
    }

    pub fn new(starting_polarity: Polarity, paths: Tree<P>) -> (region: Region<P>)
        ensures
            region.starting_polarity == starting_polarity,
            region.paths == paths,
    {
        Region { starting_polarity, paths }
    }

    /// The polarity of the contours `depth` levels below the root.
    pub open spec fn spec_polarity_at(&self, depth: nat) -> Polarity {
        self.starting_polarity.at_depth(depth)
    }

    /// The polarity of the contours `depth` levels below the root: that of
    /// the root for an even depth, the other one for an odd depth.
    pub fn polarity_at(&self, depth: usize) -> (polarity: Polarity)
        ensures
            polarity == self.spec_polarity_at(depth as nat),
    {
        proof {
            self.starting_polarity.lemma_at_depth_parity(depth as nat);
        }
        if depth % 2 == 0 {
            self.starting_polarity
        } else {
            self.starting_polarity.switch()
        }
    }
}

} // verus!
