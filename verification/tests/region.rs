use gerber_plotter::parser::Polarity;
use gerber_plotter::plotter::region::compose::{
    arrange, attach_leafs, count_enclosers, is_enclosing,
};
use gerber_plotter::plotter::region::contours::{
    cutout_from_element, encloses_area, find_element_with_start,
    find_fist_point_with_two_plus_sources, remove_unlocked_and_zero_square_conturs,
    split_by_locked_countours, Split,
};
use gerber_plotter::plotter::region::crossings::{split_primitives_by_intersections, Found};
use gerber_plotter::plotter::region::edge::is_locked;
use gerber_plotter::plotter::region::nesting;
use gerber_plotter::plotter::region::nesting::probe_point;
use gerber_plotter::plotter::region::{
    compare_path, compose_regions, find_intersection_and_elements, split_region_paths,
    Composition, Crossing, Edge, Nesting, Probe,
};
use gerber_plotter::plotter::{tr, Forest, Tree};

type P = (f32, f32);

/// A straight element of an outline, or a full circle through its start
/// around a centre.
#[derive(Debug, Clone, Copy, PartialEq)]
enum Shape {
    Line(P, P),
    Circle(P, P),
}

impl Shape {
    fn from(&self) -> P {
        match self {
            Shape::Line(from, _) => *from,
            Shape::Circle(at, _) => *at,
        }
    }

    fn to(&self) -> P {
        match self {
            Shape::Line(_, to) => *to,
            Shape::Circle(at, _) => *at,
        }
    }
}

/// A line given by its end first and its start second.
fn line(to: P, from: P) -> Shape {
    Shape::Line(from, to)
}

fn label(p: P) -> u64 {
    ((p.0.to_bits() as u64) << 32) | p.1.to_bits() as u64
}

fn edges(shapes: &[Shape]) -> Vec<Edge<Shape>> {
    shapes
        .iter()
        .map(|s| Edge {
            from: label(s.from()),
            to: label(s.to()),
            curved: matches!(s, Shape::Circle(..)),
            shape: *s,
        })
        .collect()
}

fn kross(a: P, b: P) -> f32 {
    a.0 * b.1 - b.0 * a.1
}

/// Where two segments cross strictly inside both.
fn cross(main: (P, P), other: (P, P)) -> Option<P> {
    let d1 = (main.1 .0 - main.0 .0, main.1 .1 - main.0 .1);
    let d2 = (other.1 .0 - other.0 .0, other.1 .1 - other.0 .1);
    let d = (other.0 .0 - main.0 .0, other.0 .1 - main.0 .1);
    let dir_kross = kross(d1, d2);
    if dir_kross.abs() <= f32::EPSILON {
        return None;
    }
    let s = kross(d, d2) / dir_kross;
    let t = kross(d, d1) / dir_kross;
    if s > 0.0 && s < 1.0 && t > 0.0 && t < 1.0 {
        Some((main.0 .0 + s * d1.0, main.0 .1 + s * d1.1))
    } else {
        None
    }
}

fn near(a: P, b: P) -> bool {
    ((a.0 - b.0).powi(2) + (a.1 - b.1).powi(2)).sqrt() <= f32::EPSILON
}

fn meeting(a: &Shape, b: &Shape) -> Option<P> {
    match (a, b) {
        (Shape::Line(af, at), Shape::Line(bf, bt)) => cross((*bf, *bt), (*af, *at)),
        _ => None,
    }
}

fn table(shapes: &[Shape]) -> Vec<Vec<Crossing>> {
    shapes
        .iter()
        .map(|a| {
            shapes
                .iter()
                .map(|b| match meeting(a, b) {
                    None => Crossing::Apart,
                    Some(p) => Crossing::Meets {
                        first_at_end: near(a.from(), p) || near(a.to(), p),
                        second_at_end: near(b.from(), p) || near(b.to(), p),
                    },
                })
                .collect()
        })
        .collect()
}

/// Splits the outline at its crossings until none is left.
fn split_all(mut shapes: Vec<Shape>) -> Vec<Shape> {
    while let Some(Found { first, second, indexes }) = find_intersection_and_elements(&table(&shapes))
    {
        let point = meeting(&shapes[first], &shapes[second]).unwrap();
        for index in indexes.into_iter().rev() {
            let (from, to) = (shapes[index].from(), shapes[index].to());
            shapes = split_primitives_by_intersections(
                shapes,
                index,
                Shape::Line(from, point),
                Shape::Line(point, to),
            );
        }
    }
    shapes
}

fn triangle() -> Vec<Shape> {
    vec![
        line((5.0, 0.0), (-5.0, 10.0)),
        line((0.0, 0.0), (5.0, 0.0)),
        line((5.0, 5.0), (0.0, 0.0)),
    ]
}

fn tri_tri() -> Vec<Shape> {
    vec![
        line((4.0, 1.0), (0.0, 10.0)),
        line((1.0, 4.0), (4.0, 1.0)),
        line((10.0, 0.0), (1.0, 4.0)),
        line((0.0, 0.0), (10.0, 0.0)),
        line((0.0, 10.0), (0.0, 0.0)),
    ]
}

fn tri_circle() -> Vec<Shape> {
    vec![
        line((10.0, 0.0), (0.0, 0.0)),
        line((10.0, 10.0), (10.0, 0.0)),
        line((0.0, 10.0), (10.0, 10.0)),
        line((0.0, 5.0), (0.0, 10.0)),
        line((2.0, 5.0), (0.0, 5.0)),
        Shape::Circle((2.0, 5.0), (5.0, 5.0)),
        line((0.0, 5.0), (2.0, 5.0)),
        line((0.0, 0.0), (0.0, 5.0)),
    ]
}

/// The table of a nest of contours: each encloses all that come after it.
fn nest(n: usize) -> Vec<Vec<Nesting>> {
    (0..n)
        .map(|i| {
            (0..n)
                .map(|j| {
                    if i < j {
                        compare_path(&vec![false], &vec![true, false])
                    } else if i > j {
                        compare_path(&vec![false, true], &vec![false])
                    } else {
                        compare_path(&vec![], &vec![])
                    }
                })
                .collect()
        })
        .collect()
}

#[test]
fn find_intersection_and_elements_test() {
    let shapes = triangle();
    if let Some(Found { first, second, indexes }) = find_intersection_and_elements(&table(&shapes)) {
        assert_eq!(indexes[0], 0);
        assert_eq!(indexes[1], 2);
        let ve = meeting(&shapes[first], &shapes[second]).unwrap();
        assert_eq!(near(ve, (2.5, 2.5)), true);
    } else {
        panic!("Cannot find intersection");
    }
}

#[test]
fn split_all_primitives_by_intersections() {
    let new_path = split_all(triangle());
    assert_eq!(new_path.len(), 5);
}

#[test]
fn splitting_a_split_outline_changes_nothing() {
    let once = split_all(tri_tri());
    assert_eq!(once.len(), 7);
    assert_eq!(find_intersection_and_elements(&table(&once)), None);
    let twice = split_all(once.clone());
    assert_eq!(twice, once);
}

#[test]
fn get_first_found_locked_contour() {
    let path = edges(&split_all(triangle()));
    let (rest, new_path) =
        gerber_plotter::plotter::region::contours::get_first_found_locked_contour(path);
    if let Some(path) = new_path {
        assert_eq!(path.len(), 3);
        assert_eq!(rest.unwrap().len(), 2);
    } else {
        panic!("Path is not parsed {:?}", rest);
    }
}

#[test]
fn get_first_found_locked_contour_full_arc() {
    let shapes = vec![line((0.0, -5.0), (0.0, -6.0)), Shape::Circle((0.0, -5.0), (0.0, 0.0))];
    let path = edges(&split_all(shapes));
    let (rest, new_path) =
        gerber_plotter::plotter::region::contours::get_first_found_locked_contour(path);
    if let Some(path) = new_path {
        assert_eq!(path.len(), 1);
        assert_eq!(rest.unwrap().len(), 1);
    } else {
        panic!("Path is not splitted {:?}", rest);
    }
}

#[test]
fn split_by_locked_countours_full_arc() {
    let shapes = vec![line((0.0, -5.0), (0.0, -6.0)), Shape::Circle((0.0, -5.0), (0.0, 0.0))];
    let paths = split_by_locked_countours(edges(&shapes)).contours;
    assert_eq!(paths.len(), 1);
    assert_eq!(paths[0].len(), 1);
    assert!(paths[0][0].curved);
}

#[test]
fn split_by_locked_countours_triangle() {
    let paths = split_by_locked_countours(edges(&split_all(triangle()))).contours;
    assert_eq!(paths.len(), 1);
}

#[test]
fn test_path_clearing_tri() {
    let contours = split_region_paths(edges(&split_all(triangle()))).contours;
    assert!(contours.len() == 1);
    let table = nest(contours.len());
    let Composition { mut regions, unplaced } = compose_regions(contours, &table);

    assert!(regions.len() == 1);
    assert!(unplaced.is_empty());
    let region = regions.remove(0);
    assert_eq!(region.starting_polarity, Polarity::Dark);
    assert!(region.paths.is_leaf());
    assert!(region.paths.data.len() == 3);
    let shapes: Vec<Shape> = region.paths.data.iter().map(|e| e.shape).collect();
    assert_eq!(
        shapes,
        vec![
            Shape::Line((2.5, 2.5), (5.0, 0.0)),
            Shape::Line((5.0, 0.0), (0.0, 0.0)),
            Shape::Line((0.0, 0.0), (2.5, 2.5)),
        ]
    );
}

#[test]
fn test_path_clearing_tri_tri() {
    let contours = split_region_paths(edges(&split_all(tri_tri()))).contours;
    assert_eq!(contours.len(), 2);
    let table = nest(contours.len());
    let Composition { mut regions, unplaced } = compose_regions(contours, &table);

    assert_eq!(regions.len(), 1);
    assert!(unplaced.is_empty());
    let region = regions.remove(0);
    assert!(region.paths.data.len() == 4);
    let mut iter = region.paths.into_forest().into_iter();
    let child = iter.next().unwrap();
    assert!(child.data.len() == 3);
    assert!(child.is_leaf());
    assert!(iter.next().is_none());
}

#[test]
fn test_path_clearing_tri_circle() {
    let contours = split_region_paths(edges(&split_all(tri_circle()))).contours;
    assert_eq!(contours.len(), 2);
    let table = nest(contours.len());
    let Composition { mut regions, unplaced } = compose_regions(contours, &table);

    assert_eq!(regions.len(), 1);
    assert!(unplaced.is_empty());
    let region = regions.remove(0);
    assert!(region.paths.data.len() == 5);
    let mut iter = region.paths.into_forest().into_iter();
    let child = iter.next().unwrap();
    assert!(child.data.len() == 1);
    assert!(child.data[0].curved);
    assert!(iter.next().is_none());
}

#[test]
fn for_loop() {
    let mut a = 0;
    'outer: for i in 1..5 {
        for j in 1..7 {
            if i >= 3 && j >= 4 {
                a = i * j;
                break 'outer;
            }
        }
    }

    assert_eq!(a, 12);
}

fn e(id: usize, from: u64, to: u64) -> Edge<usize> {
    Edge { from, to, curved: false, shape: id }
}

#[test]
fn a_simple_closed_path_is_its_own_single_contour() {
    let square = vec![e(0, 1, 2), e(1, 2, 3), e(2, 3, 4), e(3, 4, 1)];
    assert!(is_locked(&square));
    assert_eq!(find_fist_point_with_two_plus_sources(&square), None);
    assert_eq!(
        split_by_locked_countours(square.clone()),
        Split { contours: vec![square.clone()], dropped: vec![] }
    );
    assert_eq!(
        split_region_paths(square.clone()),
        Split { contours: vec![square.clone()], dropped: vec![] }
    );
    let Composition { regions, unplaced } = compose_regions(vec![square.clone()], &nest(1));
    assert_eq!(regions.len(), 1);
    assert_eq!(regions[0].paths.data, square);
    assert!(regions[0].paths.is_leaf());
    assert!(unplaced.is_empty());
}

#[test]
fn an_open_path_has_no_contour() {
    let open = vec![e(0, 1, 2), e(1, 2, 3)];
    assert!(!is_locked(&open));
    assert_eq!(
        split_by_locked_countours(open.clone()),
        Split { contours: vec![], dropped: vec![open] }
    );
    assert_eq!(
        split_by_locked_countours(Vec::<Edge<usize>>::new()),
        Split { contours: vec![], dropped: vec![] }
    );
    assert!(!is_locked(&Vec::<Edge<usize>>::new()));
}

#[test]
fn the_walk_takes_the_first_element_that_goes_on() {
    // Two loops through the point 1: 1-2-1 and 1-3-4-1.
    let path = vec![e(0, 1, 2), e(1, 2, 1), e(2, 1, 3), e(3, 3, 4), e(4, 4, 1)];
    assert_eq!(find_fist_point_with_two_plus_sources(&path), Some((1, 4)));
    assert_eq!(find_element_with_start(&path, 1), Some(0));
    assert_eq!(find_element_with_start(&path, 3), Some(3));
    assert_eq!(find_element_with_start(&path, 9), None);
    let (rest, contour) = cutout_from_element(path.clone(), 1);
    assert_eq!(contour, Some(vec![e(0, 1, 2), e(1, 2, 1)]));
    assert_eq!(rest, Some(vec![e(2, 1, 3), e(3, 3, 4), e(4, 4, 1)]));
    assert_eq!(
        split_by_locked_countours(path),
        Split {
            contours: vec![vec![e(2, 1, 3), e(3, 3, 4), e(4, 4, 1)], vec![e(0, 1, 2), e(1, 2, 1)]],
            dropped: vec![],
        }
    );
}

#[test]
fn contours_without_area_are_dropped() {
    let dot = vec![e(0, 5, 5)];
    let stub = vec![e(0, 5, 6)];
    let there_and_back = vec![e(0, 1, 2), e(1, 2, 1)];
    let lens = vec![e(0, 1, 2), Edge { from: 2, to: 1, curved: true, shape: 1 }];
    let two_open = vec![e(0, 1, 2), e(1, 2, 3)];
    let triangle = vec![e(0, 1, 2), e(1, 2, 3), e(2, 3, 1)];
    assert!(encloses_area(&dot));
    assert!(!encloses_area(&stub));
    assert!(!encloses_area(&there_and_back));
    assert!(encloses_area(&lens));
    assert!(!encloses_area(&two_open));
    assert!(encloses_area(&triangle));
    assert_eq!(
        remove_unlocked_and_zero_square_conturs(vec![
            dot.clone(),
            stub.clone(),
            there_and_back.clone(),
            lens.clone(),
            two_open.clone(),
            triangle.clone()
        ]),
        (vec![dot, lens, triangle], vec![stub, there_and_back, two_open])
    );
}

#[test]
fn compare_path_prefers_within() {
    assert_eq!(compare_path(&vec![false, true], &vec![true]), Nesting::Within);
    assert_eq!(compare_path(&vec![false, false], &vec![false, true]), Nesting::Encloses);
    assert_eq!(compare_path(&vec![false], &vec![]), Nesting::Apart);
}

#[test]
fn probe_point_avoids_the_contour() {
    assert_eq!(probe_point(true, true), Probe::Centre);
    assert_eq!(probe_point(true, false), Probe::End);
    assert_eq!(probe_point(false, true), Probe::Start);
    assert_eq!(probe_point(false, false), Probe::Start);
}

#[test]
fn is_point_inside() {
    // A ray from (1, 1) in a square of side 4 leaves it once.
    assert_eq!(nesting::is_point_inside(&vec![label((4.0, 4.0))]), true);
    // Through a corner it meets two elements at one place.
    assert_eq!(nesting::is_point_inside(&vec![7, 7]), true);
    assert_eq!(nesting::is_point_inside(&vec![]), false);
    assert_eq!(nesting::is_point_inside(&vec![1, 2]), false);
    assert_eq!(nesting::is_point_inside(&vec![1, 2, 1, 3, 2]), true);
}

/// Composes as many contours as the table has rows, each named by a
/// letter.
fn compose(table: &Vec<Vec<Nesting>>) -> Composition<char> {
    let names: Vec<char> = ('a'..='z').take(table.len()).collect();
    compose_regions(names, table)
}

fn shape_of(tree: &Tree<char>) -> String {
    let kids: Vec<String> = tree.children.iter().map(|c| shape_of(c)).collect();
    if kids.is_empty() {
        format!("{}", tree.data)
    } else {
        format!("{}({})", tree.data, kids.join(" "))
    }
}

fn rel(rows: &[&str]) -> Vec<Vec<Nesting>> {
    rows.iter()
        .map(|row| {
            row.chars()
                .map(|c| match c {
                    '>' => Nesting::Encloses,
                    '<' => Nesting::Within,
                    _ => Nesting::Apart,
                })
                .collect()
        })
        .collect()
}

#[test]
fn nested_contours_lie_one_level_deeper_each() {
    // a encloses b and c, b encloses c.
    let Composition { regions, unplaced } = compose(&nest(3));
    let shapes: Vec<String> = regions.iter().map(|r| shape_of(&r.paths)).collect();
    assert_eq!(shapes, vec!["a(b(c))"]);
    assert!(unplaced.is_empty());
    assert!(regions.iter().all(|r| r.starting_polarity == Polarity::Dark));
}

#[test]
fn the_roots_are_the_contours_that_nothing_encloses() {
    // a encloses c, b lies apart from both.
    let table = rel(&["==>", "===", "<=="]);
    let Composition { regions, unplaced } = compose(&table);
    let shapes: Vec<String> = regions.iter().map(|r| shape_of(&r.paths)).collect();
    assert_eq!(shapes, vec!["a(c)", "b"]);
    assert!(unplaced.is_empty());

    // b and c lie in a; e lies in d, f lies in e and so in d.
    let table = rel(&["=>>===", "<=====", "<=====", "====>>", "===<=>", "===<<="]);
    let Composition { regions, unplaced } = compose(&table);
    let shapes: Vec<String> = regions.iter().map(|r| shape_of(&r.paths)).collect();
    assert_eq!(shapes, vec!["a(b c)", "d(e(f))"]);
    assert!(unplaced.is_empty());

    // The order in the list does not matter: the innermost comes first here.
    let table = rel(&["=<<", ">=<", ">>="]);
    let Composition { regions, unplaced } = compose(&table);
    let shapes: Vec<String> = regions.iter().map(|r| shape_of(&r.paths)).collect();
    assert_eq!(shapes, vec!["c(b(a))"]);
    assert!(unplaced.is_empty());
}

#[test]
fn what_no_contour_can_stand_above_is_handed_back() {
    let table = rel(&["=<", ">="]);
    let Composition { regions, unplaced } = compose(&table);
    let shapes: Vec<String> = regions.iter().map(|r| shape_of(&r.paths)).collect();
    assert_eq!(shapes, vec!["b(a)"]);
    assert!(unplaced.is_empty());

    // That b lies within a does not make a enclose b.
    let table = rel(&["==", "<="]);
    let Composition { regions, unplaced } = compose(&table);
    let shapes: Vec<String> = regions.iter().map(|r| shape_of(&r.paths)).collect();
    assert_eq!(shapes, vec!["a", "b"]);
    assert!(unplaced.is_empty());

    // Two contours that enclose each other are ordered by no one; c lies in
    // a and goes with it.
    let table = rel(&["=>>", ">==", "==="]);
    let Composition { regions, unplaced } = compose(&table);
    assert!(regions.is_empty());
    assert_eq!(unplaced, vec!['a', 'b', 'c']);

    let Composition { regions, unplaced } = compose_regions(Vec::<char>::new(), &vec![]);
    assert!(regions.is_empty());
    assert!(unplaced.is_empty());

    // A table smaller than the list reads as "apart" where it has no cell.
    let Composition { regions, unplaced } = compose_regions(vec!['x', 'y'], &vec![]);
    let shapes: Vec<String> = regions.iter().map(|r| shape_of(&r.paths)).collect();
    assert_eq!(shapes, vec!["x", "y"]);
    assert!(unplaced.is_empty());
}

fn places_of(tree: &Tree<usize>) -> String {
    let kids: Vec<String> = tree.children.iter().map(|c| places_of(c)).collect();
    if kids.is_empty() {
        format!("{}", tree.data)
    } else {
        format!("{}({})", tree.data, kids.join(" "))
    }
}

#[test]
fn one_pass_gives_each_node_what_stands_directly_below_it() {
    let above = vec![None, None, Some(1), Some(0), Some(2)];
    let forest: Forest<usize> = vec![Box::new(tr(1)), Box::new(tr(0))];
    let (grown, left) = attach_leafs(&above, forest, vec![2, 3, 4]);
    let shapes: Vec<String> = grown.iter().map(|t| places_of(t)).collect();
    assert_eq!(shapes, vec!["1(2)", "0(3)"]);
    assert_eq!(left, vec![4]);
    let (grown, left) = attach_leafs(&above, grown, left);
    let shapes: Vec<String> = grown.iter().map(|t| places_of(t)).collect();
    assert_eq!(shapes, vec!["1(2(4))", "0(3)"]);
    assert!(left.is_empty());

    // 0 encloses 2 and 3, 1 encloses 2: of two that enclose 2 alike, the
    // first stands above it.
    let table = rel(&["==>>", "==>=", "<<==", "<==="]);
    assert!(is_enclosing(&table, 0, 2));
    assert!(!is_enclosing(&table, 2, 0));
    assert!(!is_enclosing(&table, 9, 0));
    assert_eq!(count_enclosers(&table, 2, 4), 2);
    assert_eq!(count_enclosers(&table, 3, 4), 1);
    assert_eq!(count_enclosers(&table, 0, 4), 0);
    let (trees, unplaced) = arrange(&table, 4);
    let shapes: Vec<String> = trees.iter().map(|t| places_of(t)).collect();
    assert_eq!(shapes, vec!["0(2 3)", "1"]);
    assert!(unplaced.is_empty());
}

#[test]
fn the_first_crossing_off_an_end_is_found() {
    let apart = Crossing::Apart;
    let ends = Crossing::Meets { first_at_end: true, second_at_end: true };
    let second = Crossing::Meets { first_at_end: true, second_at_end: false };
    let first = Crossing::Meets { first_at_end: false, second_at_end: true };
    let both = Crossing::Meets { first_at_end: false, second_at_end: false };
    // Neighbours are not looked at, whatever the table says of them.
    let table = vec![
        vec![apart, both, apart, ends],
        vec![apart, apart, both, second],
        vec![apart, apart, apart, both],
        vec![apart, apart, apart, apart],
    ];
    assert_eq!(
        find_intersection_and_elements(&table),
        Some(Found { first: 1, second: 3, indexes: vec![3] })
    );
    let table = vec![vec![apart, apart, first], vec![apart; 3], vec![apart; 3]];
    assert_eq!(
        find_intersection_and_elements(&table),
        Some(Found { first: 0, second: 2, indexes: vec![0] })
    );
    let table = vec![vec![apart, apart, ends], vec![apart; 3], vec![apart; 3]];
    assert_eq!(find_intersection_and_elements(&table), None);
    assert_eq!(find_intersection_and_elements(&vec![]), None);
    assert_eq!(
        split_primitives_by_intersections(vec!['a', 'b', 'c'], 1, 'x', 'y'),
        vec!['a', 'x', 'y', 'c']
    );
}

#[test]
fn what_is_dropped_is_accounted_for() {
    // The crossed triangle: its two ends close no contour.
    let split = split_region_paths(edges(&split_all(triangle())));
    assert_eq!(split.contours.len(), 1);
    assert_eq!(split.dropped.len(), 1);
    let ends: Vec<Shape> = split.dropped[0].iter().map(|e| e.shape).collect();
    assert_eq!(
        ends,
        vec![Shape::Line((-5.0, 10.0), (2.5, 2.5)), Shape::Line((2.5, 2.5), (5.0, 5.0))]
    );
    // The notch: the way to the circle and back encloses nothing.
    let split = split_region_paths(edges(&split_all(tri_circle())));
    assert_eq!(split.contours.len(), 2);
    assert_eq!(split.dropped.len(), 1);
    assert_eq!(split.dropped[0].len(), 2);
    let kept: usize = split.contours.iter().map(|c| c.len()).sum();
    assert_eq!(kept + 2, 8);
}
