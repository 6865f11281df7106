use vstd::prelude::*;

use crate::direction::{Direction, small};

verus! {

/// The number of ranks and the number of files of the board.
pub const BOARD_LENGTH: isize = 8;

/// A square of the board (or a place off it): a rank and a file.
#[derive(PartialEq, Eq, Structural, Debug, Hash, Clone, Copy)]
pub struct Position {
    pub rank: isize,
    pub file: isize,
}

impl Position {
    /// Both coordinates lie in `small`.
    pub open spec fn is_small(self) -> bool {
        small(self.rank as int) && small(self.file as int)
    }

    /// The square lies on the board.
    pub open spec fn in_bounds(self) -> bool {
        0 <= self.rank < BOARD_LENGTH && 0 <= self.file < BOARD_LENGTH
    }

    /// The step `d` from this square stays within the range of `isize`.
    pub open spec fn can_add(self, d: Direction) -> bool {
        &&& isize::MIN <= self.rank + d.drank <= isize::MAX
        &&& isize::MIN <= self.file + d.dfile <= isize::MAX
    }

    /// The square reached from this one by the step `d`.
    pub open spec fn plus(self, d: Direction) -> Position {
        Position { rank: (self.rank + d.drank) as isize, file: (self.file + d.dfile) as isize }
    }

    /// The square reached from this one by `k` steps `d`.
    pub open spec fn plus_times(self, d: Direction, k: int) -> Position {
        Position {
            rank: (self.rank + k * d.drank) as isize,
            file: (self.file + k * d.dfile) as isize,
        }
    }

    /// The key under which move maps store this square.
    pub open spec fn key(self) -> (isize, isize) {
        (self.rank, self.file)
    }

    /// One more step after `k` steps.
    pub proof fn lemma_plus_times_next(self, d: Direction, k: int)
        requires
            self.is_small(),
            d.is_small(),
            -16 <= k <= 16,
        ensures
            self.plus_times(d, k).plus(d) == self.plus_times(d, k + 1),
            self.plus_times(d, 0) == self,
            self.plus_times(d, 1) == self.plus(d),
    {
        assert((k + 1) * d.drank == k * d.drank + d.drank) by (nonlinear_arith);
        assert((k + 1) * d.dfile == k * d.dfile + d.dfile) by (nonlinear_arith);
        assert(-16 * 1024 <= k * d.drank <= 16 * 1024) by (nonlinear_arith)
            requires
                -16 <= k <= 16,
                -1024 <= d.drank <= 1024;
        assert(-16 * 1024 <= k * d.dfile <= 16 * 1024) by (nonlinear_arith)
            requires
                -16 <= k <= 16,
                -1024 <= d.dfile <= 1024;
    }

    /// The step from `self` to `other` leads from `self` to `other`.
    pub proof fn lemma_plus_difference(self, other: Position)
        requires
            self.is_small(),
            other.is_small(),
        ensures
            self.plus(Direction { drank: (other.rank - self.rank) as isize, dfile: (other.file - self.file) as isize }) == other,
    {
    }

    pub fn new(rank: isize, file: isize) -> (p: Self)
        ensures
            p.rank == rank,
            p.file == file,
    {
        Position { rank, file }
    }

    pub fn to_key(&self) -> (k: (isize, isize))
        ensures
            k == self.key(),
    {
        (self.rank, self.file)
    }

    pub fn add(self, other: Direction) -> (p: Self)
        requires
            self.can_add(other),
        ensures
            p == self.plus(other),
    {
        Position::new(self.rank + other.drank, self.file + other.dfile)
    }

    /// The step that leads from `other` to `self`.
    pub fn sub(self, other: Self) -> (d: Direction)
        requires
            isize::MIN <= self.rank - other.rank <= isize::MAX,
            isize::MIN <= self.file - other.file <= isize::MAX,
        ensures
            d.drank == self.rank - other.rank,
            d.dfile == self.file - other.file,
    {
        Direction::new(self.rank - other.rank, self.file - other.file)
    }

    pub fn add_assign(&mut self, other: Direction)
        requires
            old(self).can_add(other),
        ensures
            *final(self) == old(self).plus(other),
    {
        self.rank = self.rank + other.drank;
        self.file = self.file + other.dfile;
    }
}

} // verus!
