//! How two contours lie to each other, and the small decisions by which
//! that is found out.

use vstd::prelude::*;

verus! {

/// How a first contour lies to a second.
#[derive(Debug, Clone, Copy, PartialEq, Eq, Structural)]
pub enum Nesting {
    /// The first lies within the second.
    Within,
    /// The first encloses the second.
    Encloses,
    /// Neither lies within the other.
    Apart,
}

/// The point of an element that is tested against a contour.
#[derive(Debug, Clone, Copy, PartialEq, Eq, Structural)]
pub enum Probe {
    Start,
    End,
    Centre,
}

/// The point of an element by which it is tested against a contour: one
/// that does not lie on the contour itself, as far as there is one. Where
/// both ends lie on it, the centre is tested; where the start alone does,
/// the end; else the start.
pub fn probe_point(start_on_path: bool, end_on_path: bool) -> (probe: Probe)
    ensures
        probe == if start_on_path && end_on_path {
            Probe::Centre
        } else if start_on_path {
            Probe::End
        } else {
            Probe::Start
        },
{
    if start_on_path && end_on_path {
        Probe::Centre
    } else if start_on_path {
        Probe::End
    } else {
        Probe::Start
    }
}

/// Whether one of `flags` is set.
pub open spec fn any(flags: Seq<bool>) -> bool {
    exists|i: int| 0 <= i < flags.len() && flags[i]
}

fn some_set(flags: &Vec<bool>) -> (found: bool)
    ensures
        found == any(flags@),
{
    let mut i: usize = 0;
    while i < flags.len()
        invariant
            i <= flags@.len(),
            forall|k: int| 0 <= k < i ==> !flags@[k],
        decreases flags@.len() - i,
    {
        if flags[i] {
            return true;
        }
        i += 1;
    }
    false
}

/// How a first contour lies to a second. `first_inside` says of each
/// element of the first whether its probe point lies inside the second;
/// `second_inside` the same the other way round. The first lies within
/// the second as soon as one of its elements does; where both hold, that
/// decides.
pub fn compare_path(first_inside: &Vec<bool>, second_inside: &Vec<bool>) -> (nesting: Nesting)
    ensures
        nesting == if any(first_inside@) {
            Nesting::Within
        } else if any(second_inside@) {
            Nesting::Encloses
        } else {
            Nesting::Apart
        },
{
    if some_set(first_inside) {
        Nesting::Within
    } else if some_set(second_inside) {
        Nesting::Encloses
    } else {
        Nesting::Apart
    }
}

/// Whether a point lies inside a contour, from the places where a ray
/// from the point meets the contour: it does if the ray meets it at an
/// odd count of different places. `hits` names the place of each meeting;
/// meetings at one place have one name.
pub fn is_point_inside(hits: &Vec<u64>) -> (inside: bool)
    ensures
        inside == (hits@.to_set().len() % 2 == 1),
{
    let mut places: Vec<u64> = Vec::new();
    let mut i: usize = 0;
    proof {
        assert(hits@.take(0).to_set() =~= places@.to_set());
    }
    while i < hits.len()
        invariant
            i <= hits@.len(),
            places@.no_duplicates(),
            places@.to_set() == hits@.take(i as int).to_set(),
        decreases hits@.len() - i,
    {
        let hit = hits[i];
        let mut seen = false;
        let mut k: usize = 0;
        while k < places.len()
            invariant
                k <= places@.len(),
                seen == exists|m: int| 0 <= m < k && places@[m] == hit,
            decreases places@.len() - k,
        {
            if places[k] == hit {
                seen = true;
            }
            k += 1;
        }
        proof {
            let old_hits = hits@.take(i as int);
            let new_hits = hits@.take(i + 1);
            assert(new_hits =~= old_hits.push(hit));
            assert(new_hits.to_set() =~= old_hits.to_set().insert(hit)) by {
                assert forall|v: u64| new_hits.to_set().contains(v) <==> old_hits.to_set().insert(
                    hit,
                ).contains(v) by {
                    if new_hits.contains(v) {
                        let m = choose|m: int| 0 <= m < new_hits.len() && new_hits[m] == v;
                        if m < old_hits.len() {
                            assert(old_hits[m] == v);
                        }
                    }
                    if old_hits.contains(v) {
                        let m = choose|m: int| 0 <= m < old_hits.len() && old_hits[m] == v;
                        assert(new_hits[m] == v);
                    }
                    if v == hit {
                        assert(new_hits[i as int] == v);
                    }
                }
            }
            if seen {
                assert(places@.contains(hit));
                assert(places@.to_set().insert(hit) =~= places@.to_set());
            } else {
                assert(!places@.contains(hit));
                let grown = places@.push(hit);
                assert(grown.no_duplicates());
                assert(grown.to_set() =~= places@.to_set().insert(hit)) by {
                    assert forall|v: u64| grown.to_set().contains(v) <==> places@.to_set().insert(
                        hit,
                    ).contains(v) by {
                        if grown.contains(v) {
                            let m = choose|m: int| 0 <= m < grown.len() && grown[m] == v;
                            if m < places@.len() {
                                assert(places@[m] == v);
                            }
                        }
                        if places@.contains(v) {
                            let m = choose|m: int| 0 <= m < places@.len() && places@[m] == v;
                            assert(grown[m] == v);
                        }
                        if v == hit {
                            assert(grown[places@.len() as int] == v);
                        }
                    }
                }
            }
        }
        if !seen {
            places.push(hit);
        }
        i += 1;
    }
    proof {
        assert(hits@.take(hits@.len() as int) =~= hits@);
        places@.unique_seq_to_set();
    }
    places.len() % 2 == 1
}

} // verus!
