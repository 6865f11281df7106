use vstd::prelude::*;

verus! {

/// A step on the board: a change of rank and a change of file.
#[derive(PartialEq, Eq, Structural, Debug, Hash, Clone, Copy)]
pub struct Direction {
    pub drank: isize,
    pub dfile: isize,
}

/// The sign of an integer: -1, 0 or 1.
pub open spec fn sign(x: int) -> int {
    if x > 0 {
        1
    } else if x < 0 {
        -1
    } else {
        0
    }
}

/// A bound on coordinates that keeps every sum and product of this crate inside `isize`.
pub open spec fn small(x: int) -> bool {
    -1024 <= x <= 1024
}

impl Direction {
    /// Both components lie in `small`.
    pub open spec fn is_small(self) -> bool {
        small(self.drank as int) && small(self.dfile as int)
    }

    /// A unit step: each component is -1, 0 or 1, and not both are 0.
    pub open spec fn is_unit(self) -> bool {
        &&& -1 <= self.drank <= 1
        &&& -1 <= self.dfile <= 1
        &&& (self.drank != 0 || self.dfile != 0)
    }

    pub fn new(drank: isize, dfile: isize) -> (d: Self)
        ensures
            d.drank == drank,
            d.dfile == dfile,
    {
        Direction { drank, dfile }
    }

    /// The direction with each component replaced by its sign.
    pub fn normalize(&self) -> (d: Self)
        ensures
            d.drank == sign(self.drank as int),
            d.dfile == sign(self.dfile as int),
    {
        let r: isize = if self.drank > 0 {
            1
        } else if self.drank < 0 {
            -1
        } else {
            0
        };
        let f: isize = if self.dfile > 0 {
            1
        } else if self.dfile < 0 {
            -1
        } else {
            0
        };
        Direction::new(r, f)
    }

    pub fn add(self, other: Self) -> (d: Self)
        requires
            isize::MIN <= self.drank + other.drank <= isize::MAX,
            isize::MIN <= self.dfile + other.dfile <= isize::MAX,
        ensures
            d.drank == self.drank + other.drank,
            d.dfile == self.dfile + other.dfile,
    {
        Direction::new(self.drank + other.drank, self.dfile + other.dfile)
    }

    pub fn sub(self, other: Self) -> (d: Self)
        requires
            isize::MIN <= self.drank - other.drank <= isize::MAX,
            isize::MIN <= self.dfile - other.dfile <= isize::MAX,
        ensures
            d.drank == self.drank - other.drank,
            d.dfile == self.dfile - other.dfile,
    {
        Direction::new(self.drank - other.drank, self.dfile - other.dfile)
    }

    pub fn mul(self, other: isize) -> (d: Self)
        requires
            isize::MIN <= self.drank * other <= isize::MAX,
            isize::MIN <= self.dfile * other <= isize::MAX,
        ensures
            d.drank == self.drank * other,
            d.dfile == self.dfile * other,
    {
        Direction::new(self.drank * other, self.dfile * other)
    }

    /// One rank up.
    pub fn north() -> (d: Self)
        ensures
            d == (Direction { drank: 1, dfile: 0 }),
    {
        Direction::new(1, 0)
    }

    /// One rank down.
    pub fn south() -> (d: Self)
        ensures
            d == (Direction { drank: -1isize, dfile: 0 }),
    {
        Direction::new(-1, 0)
    }

    pub open spec fn spec_orthogonal() -> Seq<Direction> {
        seq![
            Direction { drank: 1, dfile: 0 },
            Direction { drank: -1isize, dfile: 0 },
            Direction { drank: 0, dfile: 1 },
            Direction { drank: 0, dfile: -1isize },
        ]
    }

    pub open spec fn spec_diagonal() -> Seq<Direction> {
        seq![
            Direction { drank: 1, dfile: 1 },
            Direction { drank: 1, dfile: -1isize },
            Direction { drank: -1isize, dfile: 1 },
            Direction { drank: -1isize, dfile: -1isize },
        ]
    }

    pub open spec fn spec_monarch() -> Seq<Direction> {
        Self::spec_orthogonal() + Self::spec_diagonal()
    }

    pub open spec fn spec_knight() -> Seq<Direction> {
        seq![
            Direction { drank: 2, dfile: 1 },
            Direction { drank: 2, dfile: -1isize },
            Direction { drank: -2isize, dfile: 1 },
            Direction { drank: -2isize, dfile: -1isize },
            Direction { drank: 1, dfile: 2 },
            Direction { drank: -1isize, dfile: 2 },
            Direction { drank: 1, dfile: -2isize },
            Direction { drank: -1isize, dfile: -2isize },
        ]
    }

    /// The four rook steps: north, south, east, west.
    pub fn orthogonal() -> (v: Vec<Direction>)
        ensures
            v@ == Self::spec_orthogonal(),
    {
        let v = vec![
            Direction::new(1, 0),
            Direction::new(-1, 0),
            Direction::new(0, 1),
            Direction::new(0, -1),
        ];
        assert(v@ =~= Self::spec_orthogonal());
        v
    }

    /// The four bishop steps: north-east, north-west, south-east, south-west.
    pub fn diagonal() -> (v: Vec<Direction>)
        ensures
            v@ == Self::spec_diagonal(),
    {
        let v = vec![
            Direction::new(1, 1),
            Direction::new(1, -1),
            Direction::new(-1, 1),
            Direction::new(-1, -1),
        ];
        assert(v@ =~= Self::spec_diagonal());
        v
    }

    /// The eight king steps: the orthogonal ones, then the diagonal ones.
    pub fn monarch() -> (v: Vec<Direction>)
        ensures
            v@ == Self::spec_monarch(),
    {
        let v = vec![
            Direction::new(1, 0),
            Direction::new(-1, 0),
            Direction::new(0, 1),
            Direction::new(0, -1),
            Direction::new(1, 1),
            Direction::new(1, -1),
            Direction::new(-1, 1),
            Direction::new(-1, -1),
        ];
        assert(v@ =~= Self::spec_monarch());
        v
    }

    /// The eight knight jumps.
    pub fn knight() -> (v: Vec<Direction>)
        ensures
            v@ == Self::spec_knight(),
    {
        let v = vec![
            Direction::new(2, 1),
            Direction::new(2, -1),
            Direction::new(-2, 1),
            Direction::new(-2, -1),
            Direction::new(1, 2),
            Direction::new(-1, 2),
            Direction::new(1, -2),
            Direction::new(-1, -2),
        ];
        assert(v@ =~= Self::spec_knight());
        v
    }
}

} // verus!
