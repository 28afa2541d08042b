use crate::game::board::TileState;
use vstd::prelude::*;

verus! {

/// The neighbour counts at which a dead cell comes alive and at which a live
/// cell stays alive.
#[derive(Debug, PartialEq, Eq)]
pub struct Rule {
    pub birth: Vec<usize>,
    pub survive: Vec<usize>,
}

impl Rule {
    /// Whether a dead cell with `neighbors` live neighbours comes alive.
    pub open spec fn births(&self, neighbors: nat) -> bool {
        exists|i: int| 0 <= i < self.birth@.len() && self.birth@[i] == neighbors
    }

    /// Whether a live cell with `neighbors` live neighbours stays alive.
    pub open spec fn survives(&self, neighbors: nat) -> bool {
        exists|i: int| 0 <= i < self.survive@.len() && self.survive@[i] == neighbors
    }

    /// The state after one generation of a cell now in state `tile` that has
    /// `neighbors` live neighbours.
    pub open spec fn next(&self, tile: TileState, neighbors: nat) -> TileState {
        match tile {
            TileState::Alive => if self.survives(neighbors) {
                TileState::Alive
            } else {
                TileState::Dead
            },
            TileState::Dead => if self.births(neighbors) {
                TileState::Alive
            } else {
                TileState::Dead
            },
        }
    }

    /// Whether the two rules list the same counts.
    pub open spec fn same_as(&self, other: &Rule) -> bool {
        self.birth@ == other.birth@ && self.survive@ == other.survive@
    }

    /// Whether this is the classic rule: birth at three, survival at two or three.
    pub open spec fn is_classic(&self) -> bool {
        &&& self.birth@ == seq![3usize]
        &&& self.survive@ == seq![2usize, 3usize]
    }
}

impl Clone for Rule {
    fn clone(&self) -> (copy: Rule)
        ensures
            copy.birth@ == self.birth@,
            copy.survive@ == self.survive@,
    {
        Rule { birth: self.birth.clone(), survive: self.survive.clone() }
    }
}

impl Default for Rule {
    fn default() -> (rule: Rule)
        ensures
            rule.is_classic(),
    {
        let mut birth: Vec<usize> = Vec::new();
        birth.push(3);
        let mut survive: Vec<usize> = Vec::new();
        survive.push(2);
        survive.push(3);
        proof {
            assert(birth@ =~= seq![3usize]);
            assert(survive@ =~= seq![2usize, 3usize]);
        }
        Rule { birth, survive }
    }
}

/// Whether `counts` lists `wanted`.
pub fn lists_count(counts: &Vec<usize>, wanted: usize) -> (found: bool)
    ensures
        found <==> exists|i: int| 0 <= i < counts@.len() && counts@[i] == wanted,
{
    let mut k: usize = 0;
    while k < counts.len()
        invariant
            k <= counts.len(),
            forall|i: int| 0 <= i < k ==> counts@[i] != wanted,
        decreases counts.len() - k,
    {
        if counts[k] == wanted {
            return true;
        }
        k += 1;
    }
    false
}

} // verus!
