use vstd::prelude::*;

verus! {

/// The state of one grid cell.
///
/// A cell is either `Dead` or `Alive`; neighbor counting sums the `weight`
/// of the eight adjacent cells, so a cell contributes 1 when alive and 0
/// when dead.
#[derive(Clone, Copy, Debug, PartialEq, Eq, Structural)]
pub enum Cell {
    Dead,
    Alive,
}

impl Cell {
    /// Contribution of this cell to a neighbor count: 1 if alive, 0 if dead.
    pub open spec fn weight(self) -> int {
        if self is Alive {
            1
        } else {
            0
        }
    }

    /// The opposite state.
    pub open spec fn flipped(self) -> Cell {
        if self is Alive {
            Cell::Dead
        } else {
            Cell::Alive
        }
    }

    /// Flips this cell between `Alive` and `Dead`.
    pub fn toggle(&mut self)
        ensures
            *final(self) == old(self).flipped(),
    {
        *self = match *self {
            Cell::Dead => Cell::Alive,
            Cell::Alive => Cell::Dead,
        };
    }
}

/// The Life transition rule: the next state of a cell from its current
/// state and its live-neighbor count.
///
/// An alive cell survives exactly with two or three live neighbors; a dead
/// cell is born exactly with three.
pub open spec fn next_cell(c: Cell, n: int) -> Cell {
    match c {
        Cell::Alive => if 2 <= n <= 3 {
            Cell::Alive
        } else {
            Cell::Dead
        },
        Cell::Dead => if n == 3 {
            Cell::Alive
        } else {
            Cell::Dead
        },
    }
}

/// The transition rule, case by case: underpopulation, stability,
/// overpopulation, birth, and staying dead, over the whole state-and-count
/// space.
pub proof fn lemma_rule_table(c: Cell, n: int)
    requires
        0 <= n <= 8,
    ensures
        c is Alive && n < 2 ==> next_cell(c, n) is Dead,
        c is Alive && (n == 2 || n == 3) ==> next_cell(c, n) is Alive,
        c is Alive && n > 3 ==> next_cell(c, n) is Dead,
        c is Dead && n == 3 ==> next_cell(c, n) is Alive,
        c is Dead && n != 3 ==> next_cell(c, n) is Dead,
{
}

} // verus!
