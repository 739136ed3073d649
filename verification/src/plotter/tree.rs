//! An ownership tree: every node owns the ordered forest of its children.

use vstd::prelude::*;

verus! {

/// An ordered collection of subtrees.
pub type Forest<T> = Vec<Box<Tree<T>>>;

/// A node together with the subtrees it owns.
pub struct Tree<T> {
    pub data: T,
    pub children: Forest<T>,
}

/// A tree as a value of mathematics: a payload and the sequence of the
/// subtrees below it.
pub struct TreeView<T> {
    pub data: T,
    pub children: Seq<TreeView<T>>,
}

/// The tree `tree` as a value of mathematics.
pub open spec fn tree_view<T>(tree: Tree<T>) -> TreeView<T>
    decreases tree, 1nat,
{
    TreeView { data: tree.data, children: forest_view(tree.children@) }
}

/// The trees of `forest` as values of mathematics, in order.
pub open spec fn forest_view<T>(forest: Seq<Box<Tree<T>>>) -> Seq<TreeView<T>>
    decreases forest, 0nat,
{
    if forest.len() == 0 {
        Seq::empty()
    } else {
        forest_view(forest.drop_last()).push(tree_view(*forest.last()))
    }
}

impl<T> View for Tree<T> {
    type V = TreeView<T>;

    open spec fn view(&self) -> TreeView<T> {
        tree_view(*self)
    }
}

impl<T> TreeView<T> {
    /// A tree of one node.
    pub open spec fn leaf(data: T) -> TreeView<T> {
        TreeView { data, children: Seq::empty() }
    }

    /// The payloads of the tree in pre-order: the root first, then each
    /// subtree from first to last.
    pub open spec fn items(self) -> Seq<T>
        decreases self, 1nat,
    {
        seq![self.data] + items_of(self.children)
    }
}

/// The payloads of the trees of `forest`, each tree in pre-order, the
/// trees from first to last.
pub open spec fn items_of<T>(forest: Seq<TreeView<T>>) -> Seq<T>
    decreases forest, 0nat,
{
    if forest.len() == 0 {
        Seq::empty()
    } else {
        forest.first().items() + items_of(forest.drop_first())
    }
}

/// The view of a forest has a tree for each tree, in the same place.
pub proof fn lemma_forest_view<T>(forest: Seq<Box<Tree<T>>>)
    ensures
        forest_view(forest).len() == forest.len(),
        forall|i: int| 0 <= i < forest.len() ==> #[trigger] forest_view(forest)[i] == tree_view(
            *forest[i],
        ),
    decreases forest.len(),
{
    if forest.len() > 0 {
        lemma_forest_view(forest.drop_last());
        assert forall|i: int| 0 <= i < forest.len() implies #[trigger] forest_view(forest)[i]
            == tree_view(*forest[i]) by {
            if i < forest.len() - 1 {
                assert(forest.drop_last()[i] == forest[i]);
            }
        }
    }
}

/// The view of two forests joined is their views joined.
pub proof fn lemma_forest_view_concat<T>(a: Seq<Box<Tree<T>>>, b: Seq<Box<Tree<T>>>)
    ensures
        forest_view(a + b) == forest_view(a) + forest_view(b),
{
    lemma_forest_view(a);
    lemma_forest_view(b);
    lemma_forest_view(a + b);
    assert(forest_view(a + b) =~= forest_view(a) + forest_view(b));
}

/// A tree has at least as many nodes as any tree of its forest, and one
/// more than they all have together.
pub proof fn lemma_forest_size_at<T>(forest: Seq<Box<Tree<T>>>, i: int)
    requires
        0 <= i < forest.len(),
    ensures
        forest[i].size() <= forest_size(forest),
        forest_size(forest[i].children@) < forest_size(forest),
    decreases forest.len(),
{
    if i < forest.len() - 1 {
        lemma_forest_size_at(forest.drop_last(), i);
        assert(forest.drop_last()[i] == forest[i]);
    }
}

/// Number of nodes in all the trees of `forest`.
pub open spec fn forest_size<T>(forest: Seq<Box<Tree<T>>>) -> nat
    decreases forest, 0nat,
{
    if forest.len() == 0 {
        0
    } else {
        forest_size(forest.drop_last()) + forest.last().size()
    }
}

impl<T> Tree<T> {
    /// Whether the node owns no subtree.
    pub open spec fn spec_is_leaf(&self) -> bool {
        self.children@.len() == 0
    }

    /// Number of nodes of the tree, the root included.
    pub open spec fn size(&self) -> nat
        decreases *self, 1nat,
    {
        1 + forest_size(self.children@)
    }

    /// A tree of one node.
    pub fn new(data: T) -> (tree: Tree<T>)
        ensures
            tree.data == data,
            tree.children@ == Seq::<Box<Tree<T>>>::empty(),
            tree@ == TreeView::leaf(data),
    {
        Tree { children: Vec::new(), data }
    }

    #[verifier::when_used_as_spec(spec_is_leaf)]
    pub fn is_leaf(&self) -> (leaf: bool)
        ensures
            leaf == self.spec_is_leaf(),
    {
        self.children.is_empty()
    }

    /// Appends a new leaf holding `item` as the last child.
    pub fn push(&mut self, item: T)
        ensures
            final(self).data == old(self).data,
            final(self).children@.len() == old(self).children@.len() + 1,
            final(self).children@.drop_last() == old(self).children@,
            final(self).children@.last().data == item,
            final(self).children@.last().spec_is_leaf(),
            final(self)@ == (TreeView {
                data: old(self).data,
                children: old(self)@.children.push(TreeView::leaf(item)),
            }),
    {
        let leaf = Box::new(Tree::new(item));
        self.children.push(leaf);
        assert(self.children@.drop_last() =~= old(self).children@);
    }

    /// Appends the trees of `sub_forest`, in their order, after the children
    /// already there.
    pub fn extend(&mut self, sub_forest: Forest<T>)
        ensures
            final(self).data == old(self).data,
            final(self).children@ == old(self).children@ + sub_forest@,
            final(self)@ == (TreeView {
                data: old(self).data,
                children: old(self)@.children + forest_view(sub_forest@),
            }),
    {
        let mut rest = sub_forest;
        self.children.append(&mut rest);
        proof {
            lemma_forest_view(old(self).children@);
            lemma_forest_view(sub_forest@);
            lemma_forest_view(self.children@);
            assert(forest_view(self.children@) =~= forest_view(old(self).children@) + forest_view(
                sub_forest@,
            ));
        }
    }

    /// Hands out the children for in-place change; the payload stays.
    pub fn forest_mut(&mut self) -> (forest: &mut Forest<T>)
        ensures
            *forest == old(self).children,
            final(self).children == *final(forest),
            final(self).data == old(self).data,
    {
        &mut self.children
    }

    /// Gives up the root and hands over the children.
    pub fn into_forest(self) -> (forest: Forest<T>)
        ensures
            forest == self.children,
    {
        self.children
    }

    /// Appends the whole tree `child` as the last child.
    pub fn graft(&mut self, child: Tree<T>)
        ensures
            final(self).data == old(self).data,
            final(self).children@ == old(self).children@.push(Box::new(child)),
            final(self)@ == (TreeView {
                data: old(self).data,
                children: old(self)@.children.push(child@),
            }),
    {
        self.children.push(Box::new(child));
        assert(self.children@.drop_last() =~= old(self).children@);
    }

    /// A tree with the payload of `self` and `child` as its only subtree; the
    /// subtrees `self` had are dropped.
    pub fn over(self, child: Tree<T>) -> (tree: Tree<T>)
        ensures
            tree.data == self.data,
            tree.children@ == seq![Box::new(child)],
            tree@ == (TreeView { data: self.data, children: seq![child@] }),
    {
        let mut out = Tree::new(self.data);
        out.graft(child);
        proof {
            assert(out@.children =~= seq![child@]);
        }
        out
    }

    /// The tree as a forest of one tree.
    pub fn alone(self) -> (forest: Forest<T>)
        ensures
            forest@ == seq![Box::new(self)],
            forest_view(forest@) == seq![self@],
    {
        let mut forest: Forest<T> = Vec::new();
        forest.push(Box::new(self));
        proof {
            lemma_forest_view(forest@);
            assert(forest_view(forest@) =~= seq![self@]);
        }
        forest
    }
}

/// A tree of one node: shorthand for [`Tree::new`].
pub fn tr<T>(item: T) -> (tree: Tree<T>)
    ensures
        tree.data == item,
        tree.children@ == Seq::<Box<Tree<T>>>::empty(),
        tree@ == TreeView::leaf(item),
{
    Tree::new(item)
}

} // verus!
