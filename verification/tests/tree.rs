use gerber_plotter::parser::Polarity;
use gerber_plotter::plotter::region::Region;
use gerber_plotter::plotter::{tr, Forest, Tree};

#[test]
fn new_tree_is_a_leaf() {
    let tree = Tree::new(7);
    assert!(tree.is_leaf());
    assert_eq!(tree.data, 7);
}

#[test]
fn push_appends_a_leaf() {
    let mut tree = tr("root");
    tree.push("a");
    tree.push("b");
    assert!(!tree.is_leaf());
    assert_eq!(tree.children.len(), 2);
    assert_eq!(tree.children[0].data, "a");
    assert_eq!(tree.children[1].data, "b");
    assert!(tree.children[1].is_leaf());
}

#[test]
fn extend_keeps_the_order() {
    let mut tree = tr(0);
    tree.push(1);
    let more: Forest<i32> = vec![Box::new(tr(2)), Box::new(tr(3))];
    tree.extend(more);
    let data: Vec<i32> = tree.children.iter().map(|c| c.data).collect();
    assert_eq!(data, vec![1, 2, 3]);
}

#[test]
fn forest_mut_changes_the_children_in_place() {
    let mut tree = tr(0);
    tree.push(1);
    tree.push(2);
    tree.forest_mut().remove(0);
    tree.forest_mut().push(Box::new(tr(9)));
    let data: Vec<i32> = tree.into_forest().into_iter().map(|c| c.data).collect();
    assert_eq!(data, vec![2, 9]);
}

#[test]
fn graft_and_over_build_nested_trees() {
    let nested = tr("outer").over(tr("inner"));
    assert_eq!(nested.data, "outer");
    assert_eq!(nested.children.len(), 1);
    assert_eq!(nested.children[0].data, "inner");

    let mut tree = tr(1);
    let mut sub = tr(2);
    sub.push(3);
    tree.graft(sub);
    assert_eq!(tree.children[0].children[0].data, 3);
}

#[test]
fn polarity_alternates_with_depth() {
    assert_eq!(Polarity::Dark.switch(), Polarity::Clear);
    assert_eq!(Polarity::Clear.switch(), Polarity::Dark);
    let region = Region::new(Polarity::Dark, tr(0));
    assert_eq!(region.polarity_at(0), Polarity::Dark);
    assert_eq!(region.polarity_at(1), Polarity::Clear);
    assert_eq!(region.polarity_at(2), Polarity::Dark);
    assert_eq!(region.polarity_at(7), Polarity::Clear);
}

#[test]
fn the_walk_gives_each_contour_its_polarity() {
    let mut inner = tr("b");
    inner.push("c");
    let mut root = tr("a");
    root.graft(inner);
    root.push("d");
    let region = Region::new(Polarity::Dark, root);
    assert_eq!(
        region.into_layers(),
        vec![
            (Polarity::Dark, "a"),
            (Polarity::Clear, "b"),
            (Polarity::Dark, "c"),
            (Polarity::Clear, "d"),
        ]
    );
    assert_eq!(Region::new(Polarity::Clear, tr(1)).into_layers(), vec![(Polarity::Clear, 1)]);
}
