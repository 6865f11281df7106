use vstd::prelude::*;

use crate::position::Position;

verus! {

/// Which rule a marker serves.
#[derive(PartialEq, Eq, Structural, Debug, Clone, Copy)]
pub enum MarkerKind {
    /// Left behind a pawn's double step: capturing here takes the pawn.
    EnPassant,
    /// Left on the squares a castling king leaves and crosses: capturing here takes the king.
    Castle,
}

/// A square from which a piece can be captured though it stands elsewhere.
#[derive(PartialEq, Eq, Structural, Debug, Clone, Copy)]
pub struct Marker {
    pub kind: MarkerKind,
    pub position: Position,
    /// The piece that a capture on the marker takes.
    pub target: u64,
}

impl Marker {
    /// The piece that a capture on the marker takes.
    pub fn get_entity(&self) -> (e: u64)
        ensures
            e == self.target,
    {
        self.target
    }
}

/// The markers of the move before the last (`past`), of the last move
/// (`current`: the ones that count), and of the move being made (`future`).
pub struct MarkerBoard {
    pub past: Vec<Marker>,
    pub current: Vec<Marker>,
    pub future: Vec<Marker>,
}

impl MarkerBoard {
    pub fn new() -> (b: Self)
        ensures
            b.past@.len() == 0,
            b.current@.len() == 0,
            b.future@.len() == 0,
    {
        MarkerBoard { past: Vec::new(), current: Vec::new(), future: Vec::new() }
    }

    /// Adds a marker of the move being made.
    pub fn insert(&mut self, marker: Marker)
        ensures
            final(self).past@ == old(self).past@,
            final(self).current@ == old(self).current@,
            final(self).future@ == old(self).future@.push(marker),
    {
        self.future.push(marker);
    }

    /// The move is made: its markers become the current ones.
    pub fn advance_move(&mut self)
        ensures
            final(self).past@ == old(self).current@,
            final(self).current@ == old(self).future@,
            final(self).future@.len() == 0,
    {
        let mut future: Vec<Marker> = Vec::new();
        std::mem::swap(&mut future, &mut self.future);
        std::mem::swap(&mut self.current, &mut future);
        self.past = future;
    }

    /// The last move is taken back: the markers before it are current again.
    pub fn restore_previous(&mut self)
        ensures
            final(self).past@.len() == 0,
            final(self).current@ == old(self).past@,
            final(self).future@.len() == 0,
    {
        let mut past: Vec<Marker> = Vec::new();
        std::mem::swap(&mut past, &mut self.past);
        self.current = past;
        self.future.clear();
    }
}

impl MarkerBoard {
    /// The markers to show: the current ones while markers are shown, else none.
    pub fn visible_markers(&self, state: MarkerVisibilityState) -> (r: Vec<Marker>)
        ensures
            r@ == (if state.0 { self.current@ } else { Seq::empty() }),
    {
        let mut r: Vec<Marker> = Vec::new();
        if state.0 {
            let mut i: usize = 0;
            while i < self.current.len()
                invariant
                    i <= self.current@.len(),
                    r@ == self.current@.subrange(0, i as int),
                decreases self.current@.len() - i,
            {
                r.push(self.current[i]);
                i = i + 1;
                assert(r@ =~= self.current@.subrange(0, i as int));
            }
            assert(self.current@.subrange(0, i as int) =~= self.current@);
        } else {
            assert(r@ =~= Seq::<Marker>::empty());
        }
        r
    }
}

/// Whether the markers are shown.
#[derive(PartialEq, Eq, Structural, Debug, Clone, Copy)]
pub struct MarkerVisibilityState(pub bool);

impl MarkerVisibilityState {
    pub fn toggled(&self) -> (s: Self)
        ensures
            s.0 == !self.0,
    {
        MarkerVisibilityState(!self.0)
    }
}

} // verus!
