use vstd::prelude::*;

use crate::game::Game;
use crate::move_generator::pawn_cands;
use crate::moves::{insert_all, lemma_insert_all_none, lemma_insert_all_one, Move, MoveType, Moves, NormalMove};
use crate::direction::Direction;
use crate::pieces::{step_ok, DoublePawnMoveGenerator};
use crate::position::Position;

verus! {

/// One and two steps `d` from `position` stay within the range of `isize`.
pub open spec fn double_step_fits(position: Position, d: Direction) -> bool {
    &&& isize::MIN <= 2 * d.drank <= isize::MAX
    &&& isize::MIN <= 2 * d.dfile <= isize::MAX
    &&& position.can_add(d)
    &&& position.can_add(Direction { drank: (2 * d.drank) as isize, dfile: (2 * d.dfile) as isize })
}

/// A step of a generator, taken once or twice from a square of the board, fits.
pub proof fn lemma_double_step_fits(position: Position, d: Direction)
    requires
        position.in_bounds(),
        step_ok(d),
    ensures
        double_step_fits(position, d),
{
}

impl Game {
    /// Offers the pawn `i` its double step along `move_gen`'s direction, when it
    /// has not moved and both squares ahead are empty.
    pub fn generate_pawn_moves(&self, i: usize, move_gen: DoublePawnMoveGenerator, moves: &mut Moves)
        requires
            self.wf(),
            i < self@.states.len(),
            double_step_fits(self@.states[i as int].position, move_gen.0),
        ensures
            final(moves)@ == insert_all(old(moves)@, pawn_cands(self@, i as int, move_gen.0)),
            final(moves).black_circles == old(moves).black_circles,
            final(moves).move_indicator == old(moves).move_indicator,
            final(moves).capture_indicator == old(moves).capture_indicator,
    {
        let DoublePawnMoveGenerator(direction) = move_gen;
        let state = self.pieces.states[i];
        let position = state.position;
        assert(position.in_bounds());
        let pos = position.add(direction.mul(2));
        assert(pos == position.plus_times(direction, 2));
        let ghost m0 = moves@;
        if state.has_moved || !self.board.is_empty(position.add(direction)) || !self.board.is_empty(pos) {
            proof {
                lemma_insert_all_none(m0);
            }
            return;
        }
        let mv = Move { capture: None, move_type: MoveType::DoublePawn(NormalMove::new(position, pos)) };
        proof {
            lemma_insert_all_one(m0, (pos, mv));
        }
        moves.insert(pos, mv);
    }
}

} // verus!
