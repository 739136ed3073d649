//! Splitting an outline where it crosses itself.

use vstd::prelude::*;

verus! {

/// How two elements of an outline meet.
#[derive(Debug, Clone, Copy, PartialEq, Eq, Structural)]
pub enum Crossing {
    /// They have no point in common.
    Apart,
    /// They meet in a point, which is or is not an end of each.
    Meets { first_at_end: bool, second_at_end: bool },
}

impl Crossing {
    /// Whether an element has to be split: the two meet in a point that
    /// is not an end of both.
    pub open spec fn needs_split(self) -> bool {
        self matches Crossing::Meets { first_at_end, second_at_end } && !(first_at_end
            && second_at_end)
    }
}

/// How the elements at `i` and `j` meet by the table; apart where the
/// table has no such cell.
pub open spec fn cell(table: Seq<Vec<Crossing>>, i: int, j: int) -> Crossing {
    if 0 <= i < table.len() && 0 <= j < table[i]@.len() {
        table[i]@[j]
    } else {
        Crossing::Apart
    }
}

/// Whether the pair `(a, b)` comes before the pair `(i, j)` when the
/// pairs are gone through by their first place, then by their second.
pub open spec fn before(a: int, b: int, i: int, j: int) -> bool {
    a < i || (a == i && b < j)
}

/// Whether `(a, b)` is a pair that is looked at: two places of an outline
/// of `n` elements with at least one place between them. Neighbours share
/// an end and are left out.
pub open spec fn looked_at(a: int, b: int, n: int) -> bool {
    0 <= a && a + 2 <= b < n
}

/// The places to split for a crossing of the elements at `i` and `j`:
/// each element for which the crossing is not an end.
pub open spec fn targets(crossing: Crossing, i: usize, j: usize) -> Seq<usize> {
    match crossing {
        Crossing::Meets { first_at_end: false, second_at_end: false } => seq![i, j],
        Crossing::Meets { first_at_end: false, second_at_end: true } => seq![i],
        Crossing::Meets { first_at_end: true, second_at_end: false } => seq![j],
        _ => Seq::empty(),
    }
}

/// Whether the outline is split at all its crossings: no two elements
/// that are looked at meet in a point that is not an end of both.
pub open spec fn settled(table: Seq<Vec<Crossing>>) -> bool {
    forall|a: int, b: int|
        looked_at(a, b, table.len() as int) ==> !(#[trigger] cell(table, a, b)).needs_split()
}

/// What the search for a crossing found: the places of the two elements
/// that cross, and which of them have to be split there.
#[derive(Debug, PartialEq, Eq)]
pub struct Found {
    pub first: usize,
    pub second: usize,
    pub indexes: Vec<usize>,
}

fn read(table: &Vec<Vec<Crossing>>, i: usize, j: usize) -> (crossing: Crossing)
    ensures
        crossing == cell(table@, i as int, j as int),
{
    if i < table.len() {
        let row = &table[i];
        if j < row.len() {
            return row[j];
        }
    }
    Crossing::Apart
}

/// Looks for the first crossing at which an element has to be split. The
/// table has a row for each element of the outline, and in it a cell for
/// each element. The pairs are gone through by their first place, then by
/// their second. An outline that is split at all its crossings is left
/// alone: nothing is found, however often it is searched.
pub fn find_intersection_and_elements(table: &Vec<Vec<Crossing>>) -> (found: Option<Found>)
    ensures
        found is None <==> settled(table@),
        match found {
            Some(at) => {
                &&& looked_at(at.first as int, at.second as int, table@.len() as int)
                &&& cell(table@, at.first as int, at.second as int).needs_split()
                &&& at.indexes@ == targets(
                    cell(table@, at.first as int, at.second as int),
                    at.first,
                    at.second,
                )
                &&& forall|a: int, b: int|
                    looked_at(a, b, table@.len() as int) && before(
                        a,
                        b,
                        at.first as int,
                        at.second as int,
                    ) ==> !(#[trigger] cell(table@, a, b)).needs_split()
            },
            None => true,
        },
{
    let n = table.len();
    let mut i: usize = 0;
    while i < n
        invariant
            i <= n == table@.len(),
            forall|a: int, b: int|
                looked_at(a, b, n as int) && a < i ==> !(#[trigger] cell(table@, a, b)).needs_split(),
        decreases n - i,
    {
        if n - i >= 2 {
            let mut j: usize = i + 2;
            while j < n
                invariant
                    i + 2 <= j <= n == table@.len(),
                    forall|a: int, b: int|
                        looked_at(a, b, n as int) && before(a, b, i as int, j as int) ==> !(
                        #[trigger] cell(table@, a, b)).needs_split(),
                decreases n - j,
            {
                let crossing = read(table, i, j);
                let mut indexes: Vec<usize> = Vec::new();
                match crossing {
                    Crossing::Meets { first_at_end, second_at_end } => {
                        if !first_at_end {
                            indexes.push(i);
                        }
                        if !second_at_end {
                            indexes.push(j);
                        }
                    },
                    Crossing::Apart => {},
                }
                proof {
                    assert(indexes@ =~= targets(crossing, i, j));
                }
                if !indexes.is_empty() {
                    return Some(Found { first: i, second: j, indexes });
                }
                j += 1;
            }
        }
        i += 1;
    }
    None
}

/// Puts the two halves of the element at `index` in its place.
pub fn split_primitives_by_intersections<T>(
    elements: Vec<T>,
    index: usize,
    first_half: T,
    second_half: T,
) -> (split: Vec<T>)
    requires
        index < elements@.len(),
    ensures
        split@ == elements@.take(index as int) + seq![first_half, second_half] + elements@.skip(
            index + 1,
        ),
{
    let mut split = elements;
    let _ = split.remove(index);
    split.insert(index, second_half);
    split.insert(index, first_half);
    proof {
        assert(split@ =~= elements@.take(index as int) + seq![first_half, second_half]
            + elements@.skip(index + 1));
    }
    split
}

} // verus!
