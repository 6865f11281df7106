use vstd::prelude::*;

use crate::board::board_at;
use crate::game::Game;
use crate::legality::{castle_target_ok, castle_targets_ok};
use crate::move_generator::{castle_cand, castle_cands_upto, slide_end, toward};
use crate::moves::{insert_all, lemma_insert_all_concat, lemma_insert_all_none, lemma_insert_all_one, Move, MoveType, Moves, NormalMove};
use crate::position::Position;
use crate::sliding_moves::{lemma_slide_leaves, lemma_slide_small};

verus! {

impl Game {
    /// The castling that the piece `j` offers the king `i`, if any: when `j` is
    /// a castle piece of the king's color and the first piece the king sees in
    /// its direction, the king goes two steps towards it and the castle piece to
    /// the square the king crosses.
    fn castle_candidate(&self, i: usize, j: usize) -> (r: Option<(Position, Move)>)
        requires
            self.wf(),
            i < self@.states.len(),
            j < self@.states.len(),
            !self@.states[i as int].captured,
        ensures
            r matches Some(c) ==> castle_cand(self@, i as int, j as int) == seq![c],
            r is None ==> castle_cand(self@, i as int, j as int) =~= Seq::<(Position, Move)>::empty(),
    {
        let ghost v = self@;
        let king = self.pieces.states[i];
        let position = king.position;
        let color = king.color;
        assert(position.in_bounds());
        let bottom = self.pieces.states[j];
        if self.pieces.rules[j].castle_bottom && bottom.color == color {
            let bottom_position = bottom.position;
            assert(bottom_position.in_bounds());
            let dir = bottom_position.sub(position).normalize();
            assert(dir == toward(position, bottom_position));
            let mut pos = position.add(dir);
            let ghost mut k: int = 1;
            proof {
                position.lemma_plus_times_next(dir, 0);
            }
            while self.board.is_empty(pos)
                invariant
                    self.wf(),
                    v == self@,
                    position.in_bounds(),
                    !king.captured,
                    i < v.states.len(),
                    king == v.states[i as int],
                    position == king.position,
                    dir == toward(position, bottom_position),
                    1 <= k <= 8,
                    pos == position.plus_times(dir, k),
                    slide_end(v.board, v.empty, pos, dir, (9 - k) as nat) == slide_end(v.board, v.empty, position.plus(dir), dir, 8),
                decreases 8 - k,
            {
                proof {
                    if dir.drank == 0 && dir.dfile == 0 {
                        position.lemma_plus_times_next(dir, k);
                        assert(pos == position);
                        assert(board_at(v.board, position) == king.id);
                        assert(false);
                    }
                    lemma_slide_leaves(position, dir);
                    lemma_slide_small(position, dir, k);
                    position.lemma_plus_times_next(dir, k);
                }
                pos.add_assign(dir);
                proof {
                    k = k + 1;
                }
            }
            assert(slide_end(v.board, v.empty, pos, dir, (9 - k) as nat) == pos);
            if self.board.is_in_bounds(pos) && self.board.index(pos) == bottom.id {
                let to = position.add(dir.mul(2));
                assert(to == position.plus_times(dir, 2));
                let mv = Move {
                    capture: None,
                    move_type: MoveType::Castle(NormalMove::new(position, to), NormalMove::new(bottom_position, position.add(dir))),
                };
                assert(castle_cand(v, i as int, j as int) == seq![(to, mv)]);
                Some((to, mv))
            } else {
                None
            }
        } else {
            None
        }
    }

    /// Offers the king `i` a castling with each castle piece of its color that
    /// is the first piece it sees in that piece's direction: the king goes two
    /// steps towards it, the castle piece to the square the king crosses.
    pub fn generate_castling_moves(&self, i: usize, moves: &mut Moves)
        requires
            self.wf(),
            i < self@.states.len(),
            !self@.states[i as int].captured,
        ensures
            final(moves)@ == insert_all(old(moves)@, castle_cands_upto(self@, i as int, self@.states.len() as int)),
            final(moves).black_circles == old(moves).black_circles,
            final(moves).move_indicator == old(moves).move_indicator,
            final(moves).capture_indicator == old(moves).capture_indicator,
    {
        let ghost v = self@;
        let ghost m0 = moves@;
        let mut j: usize = 0;
        while j < self.pieces.states.len()
            invariant
                self.wf(),
                v == self@,
                i < v.states.len(),
                !v.states[i as int].captured,
                j <= v.states.len(),
                moves@ == insert_all(m0, castle_cands_upto(v, i as int, j as int)),
                moves.black_circles == old(moves).black_circles,
                moves.move_indicator == old(moves).move_indicator,
                moves.capture_indicator == old(moves).capture_indicator,
            decreases v.states.len() - j,
        {
            let ghost mi = moves@;
            assert(castle_cands_upto(v, i as int, j + 1) == castle_cands_upto(v, i as int, j as int) + castle_cand(v, i as int, j as int));
            proof {
                lemma_insert_all_concat(m0, castle_cands_upto(v, i as int, j as int), castle_cand(v, i as int, j as int));
            }
            match self.castle_candidate(i, j) {
                Some((to, mv)) => {
                    proof {
                        lemma_insert_all_one(mi, (to, mv));
                    }
                    moves.insert(to, mv);
                },
                None => {
                    proof {
                        let p = v.states[i as int].position;
                        lemma_insert_all_none(mi);
                    }
                },
            }
            j = j + 1;
        }
    }

    /// Whether every castling the king `i` is offered ends on the board.
    pub fn castlings_stay_on_board(&self, i: usize) -> (r: bool)
        requires
            self.wf(),
            i < self@.states.len(),
            !self@.states[i as int].captured,
        ensures
            r == castle_targets_ok(self@, i as int),
    {
        let mut j: usize = 0;
        while j < self.pieces.states.len()
            invariant
                self.wf(),
                i < self@.states.len(),
                !self@.states[i as int].captured,
                j <= self@.states.len(),
                forall|jj: int| 0 <= jj < j ==> #[trigger] castle_target_ok(self@, i as int, jj),
            decreases self@.states.len() - j,
        {
            if let Some((to, _)) = self.castle_candidate(i, j) {
                if !self.board.is_in_bounds(to) {
                    assert(!castle_target_ok(self@, i as int, j as int));
                    return false;
                }
            }
            j = j + 1;
        }
        true
    }
}

} // verus!
