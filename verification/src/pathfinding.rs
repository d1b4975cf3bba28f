//! Paths found by the search: reading the route back from the tiles each
//! tile was reached from.
use vstd::prelude::*;
use std::collections::HashMap;

verus! {

/// A route from a start tile toward a destination.
pub struct NavPath {
    /// Tile indices in forward order: steps[0] is the first tile to enter,
    /// steps[last] is the destination (or the closest reachable tile when
    /// success is false). The start tile is not included.
    pub steps: Vec<usize>,
    /// True if the exact destination was reached within the search budget.
    pub success: bool,
}

/// The tiles met walking back from `cur` along `parents` toward `start`, at
/// most `fuel` of them: each tile is taken when it has a parent; the walk
/// stops after a tile whose parent is `start` or itself, or before a tile
/// without a parent.
pub open spec fn walk_back(parents: Map<usize, usize>, start: usize, cur: usize, fuel: nat) -> Seq<usize>
    decreases fuel,
{
    if fuel == 0 || !parents.dom().contains(cur) {
        Seq::empty()
    } else {
        let p = parents[cur];
        if p == start || p == cur {
            seq![cur]
        } else {
            seq![cur] + walk_back(parents, start, p, (fuel - 1) as nat)
        }
    }
}

/// The walk back from `cur` stops within `fuel` tiles.
pub open spec fn walk_ends(parents: Map<usize, usize>, start: usize, cur: usize, fuel: nat) -> bool
    decreases fuel,
{
    fuel > 0 && (!parents.dom().contains(cur) || parents[cur] == start || parents[cur] == cur || walk_ends(
        parents,
        start,
        parents[cur],
        (fuel - 1) as nat,
    ))
}

/// More fuel changes nothing once the walk stops.
pub proof fn lemma_walk_fuel(parents: Map<usize, usize>, start: usize, cur: usize, f: nat, g: nat)
    requires
        walk_ends(parents, start, cur, f),
        f <= g,
    ensures
        walk_ends(parents, start, cur, g),
        walk_back(parents, start, cur, f) == walk_back(parents, start, cur, g),
    decreases f,
{
    if parents.dom().contains(cur) && parents[cur] != start && parents[cur] != cur {
        lemma_walk_fuel(parents, start, parents[cur], (f - 1) as nat, (g - 1) as nat);
    }
}

/// Reads the route to `target` back from `parents` (each reached tile's
/// predecessor), in forward order without the start tile.
pub fn build_path(parents: &HashMap<usize, usize>, start: usize, target: usize, success: bool) -> (r: NavPath)
    requires
        exists|f: nat| walk_ends(parents@, start, target, f),
    ensures
        r.success == success,
        forall|f: nat| walk_ends(parents@, start, target, f) ==> r.steps@ == walk_back(parents@, start, target, f).reverse(),
{
    broadcast use vstd::std_specs::hash::group_hash_axioms;

    let ghost pm = parents@;
    let ghost f0: nat = choose|f: nat| walk_ends(pm, start, target, f);
    let mut steps: Vec<usize> = Vec::new();
    let mut current = target;
    let ghost mut fuel: nat = f0;
    loop
        invariant_except_break
            pm == parents@,
            walk_ends(pm, start, current, fuel),
            fuel <= f0,
            steps@ + walk_back(pm, start, current, fuel) == walk_back(pm, start, target, f0),
        ensures
            steps@ == walk_back(pm, start, target, f0),
        decreases fuel,
    {
        let parent = match parents.get(&current) {
            Some(p) => *p,
            None => {
                proof {
                    assert(steps@ =~= walk_back(pm, start, target, f0));
                }
                break;
            },
        };
        proof {
            assert(pm.dom().contains(current) && pm[current] == parent);
        }
        if parent == start {
            steps.push(current);
            proof {
                assert(steps@ =~= walk_back(pm, start, target, f0));
            }
            break;
        }
        steps.push(current);
        if parent == current {
            proof {
                assert(steps@ =~= walk_back(pm, start, target, f0));
            }
            break;
        }
        proof {
            assert(steps@ + walk_back(pm, start, parent, (fuel - 1) as nat) =~= walk_back(pm, start, target, f0));
            fuel = (fuel - 1) as nat;
        }
        current = parent;
    }
    let mut rev: Vec<usize> = Vec::new();
    let mut i: usize = steps.len();
    while i > 0
        invariant
            i <= steps@.len(),
            rev@ == steps@.subrange(i as int, steps@.len() as int).reverse(),
        decreases i,
    {
        i = i - 1;
        rev.push(steps[i]);
        assert(rev@ =~= steps@.subrange(i as int, steps@.len() as int).reverse());
    }
    proof {
        assert(steps@.subrange(0, steps@.len() as int) =~= steps@);
    }
    let ghost forward = steps@;
    let steps = rev;
    proof {
        assert forall|f: nat| walk_ends(pm, start, target, f) implies steps@ == walk_back(pm, start, target, f).reverse() by {
            if f <= f0 {
                lemma_walk_fuel(pm, start, target, f, f0);
            } else {
                lemma_walk_fuel(pm, start, target, f0, f);
            }
        }
    }
    NavPath { steps, success }
}

} // verus!
