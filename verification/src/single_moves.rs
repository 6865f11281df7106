use vstd::prelude::*;

use crate::board::Board;
use crate::move_generator::{
    key_pos, marker_at_cands, marker_cands, marker_map_contents, marker_map_get, single_cands, step_cands,
    MarkerMap,
};
use crate::moves::{insert_all, lemma_insert_all_concat, lemma_insert_all_none, lemma_insert_all_one, Move, MoveType, Moves, NormalMove};
use crate::pieces::{steps_ok, PieceColor, Pieces, SingleMoveGenerator};
use crate::direction::Direction;
use crate::position::Position;

verus! {

/// Each step from `position` stays within the range of `isize`.
pub open spec fn steps_fit(position: Position, dirs: Seq<Direction>) -> bool {
    forall|i: int| 0 <= i < dirs.len() ==> position.can_add(#[trigger] dirs[i])
}

/// The steps of a generator, from a square of the board, fit.
pub proof fn lemma_steps_fit(position: Position, dirs: Seq<Direction>)
    requires
        position.in_bounds(),
        steps_ok(dirs),
    ensures
        steps_fit(position, dirs),
{
    assert forall|i: int| 0 <= i < dirs.len() implies position.can_add(#[trigger] dirs[i]) by {
        assert(crate::pieces::step_ok(dirs[i]));
    }
}

impl SingleMoveGenerator {
    /// Offers, for each direction in turn, a move to the empty square one step
    /// away (when `allow_moves`) and a capture of the enemy there (when `allow_captures`).
    pub fn generate(&self, moves: &mut Moves, board: &Board, pieces: &Pieces, position: Position, color: PieceColor, allow_moves: bool, allow_captures: bool)
        requires
            board.wf(),
            pieces.wf(),
            steps_fit(position, self.0@),
        ensures
            final(moves)@ == insert_all(old(moves)@, single_cands(board@, board.empty_piece, pieces.states@, position, color, self.0@, allow_moves, allow_captures)),
            final(moves).black_circles == old(moves).black_circles,
            final(moves).move_indicator == old(moves).move_indicator,
            final(moves).capture_indicator == old(moves).capture_indicator,
    {
        let ghost m0 = moves@;
        let ghost b = board@;
        let ghost e = board.empty_piece;
        let ghost s = pieces.states@;
        let mut idx: usize = 0;
        while idx < self.0.len()
            invariant
                board.wf(),
                pieces.wf(),
                steps_fit(position, self.0@),
                b == board@,
                e == board.empty_piece,
                s == pieces.states@,
                idx <= self.0@.len(),
                moves@ == insert_all(m0, single_cands(b, e, s, position, color, self.0@.subrange(0, idx as int), allow_moves, allow_captures)),
                moves.black_circles == old(moves).black_circles,
                moves.move_indicator == old(moves).move_indicator,
                moves.capture_indicator == old(moves).capture_indicator,
            decreases self.0@.len() - idx,
        {
            let dir = self.0[idx];
            assert(position.can_add(self.0@[idx as int]));
            let ghost pre = self.0@.subrange(0, idx as int);
            let ghost sc = step_cands(b, e, s, position, color, dir, allow_moves, allow_captures);
            assert(self.0@.subrange(0, idx + 1).drop_last() =~= pre);
            assert(single_cands(b, e, s, position, color, self.0@.subrange(0, idx + 1), allow_moves, allow_captures)
                == single_cands(b, e, s, position, color, pre, allow_moves, allow_captures) + sc);
            proof {
                lemma_insert_all_concat(m0, single_cands(b, e, s, position, color, pre, allow_moves, allow_captures), sc);
            }
            let ghost mi = moves@;
            let pos = position.add(dir);
            let ghost c1: Seq<(Position, Move)> = if allow_moves && crate::board::board_is_empty(b, e, pos) {
                seq![(pos, crate::move_generator::step_move(position, pos))]
            } else {
                Seq::empty()
            };
            let ghost c2: Seq<(Position, Move)> = if allow_captures && crate::board::board_is_enemy(b, s, pos, color) {
                seq![(pos, crate::move_generator::step_capture(position, pos, pos))]
            } else {
                Seq::empty()
            };
            assert(sc == c1 + c2);
            proof {
                lemma_insert_all_concat(mi, c1, c2);
            }
            if allow_moves && board.is_empty(pos) {
                let mv = Move { capture: None, move_type: MoveType::Normal(NormalMove::new(position, pos)) };
                proof {
                    lemma_insert_all_one(mi, (pos, mv));
                }
                moves.insert(pos, mv);
            } else {
                proof {
                    lemma_insert_all_none(mi);
                }
            }
            let ghost mj = moves@;
            assert(mj == insert_all(mi, c1));
            if allow_captures && board.is_enemy(pos, color, pieces) {
                let mv = Move { capture: Some(pos), move_type: MoveType::Normal(NormalMove::new(position, pos)) };
                proof {
                    lemma_insert_all_one(mj, (pos, mv));
                }
                moves.insert(pos, mv);
            } else {
                proof {
                    lemma_insert_all_none(mj);
                }
            }
            idx = idx + 1;
        }
        assert(self.0@.subrange(0, idx as int) =~= self.0@);
    }

    /// Offers, for each direction in turn, a capture of the piece that the
    /// marker one step away stands for, when that piece is an enemy.
    pub fn generate_marker_captures(&self, moves: &mut Moves, board: &Board, pieces: &Pieces, position: Position, color: PieceColor, marker_to_piece: &MarkerMap)
        requires
            board.wf(),
            pieces.wf(),
            steps_fit(position, self.0@),
        ensures
            final(moves)@ == insert_all(old(moves)@, marker_cands(board@, pieces.states@, position, color, self.0@, marker_map_contents(*marker_to_piece))),
            final(moves).black_circles == old(moves).black_circles,
            final(moves).move_indicator == old(moves).move_indicator,
            final(moves).capture_indicator == old(moves).capture_indicator,
    {
        let ghost m0 = moves@;
        let ghost b = board@;
        let ghost s = pieces.states@;
        let ghost mm = marker_map_contents(*marker_to_piece);
        let mut idx: usize = 0;
        while idx < self.0.len()
            invariant
                board.wf(),
                pieces.wf(),
                steps_fit(position, self.0@),
                b == board@,
                s == pieces.states@,
                mm == marker_map_contents(*marker_to_piece),
                idx <= self.0@.len(),
                moves@ == insert_all(m0, marker_cands(b, s, position, color, self.0@.subrange(0, idx as int), mm)),
                moves.black_circles == old(moves).black_circles,
                moves.move_indicator == old(moves).move_indicator,
                moves.capture_indicator == old(moves).capture_indicator,
            decreases self.0@.len() - idx,
        {
            let dir = self.0[idx];
            assert(position.can_add(self.0@[idx as int]));
            let ghost pre = self.0@.subrange(0, idx as int);
            let pos = position.add(dir);
            let ghost sc = marker_at_cands(b, s, position, color, pos, mm);
            assert(self.0@.subrange(0, idx + 1).drop_last() =~= pre);
            assert(marker_cands(b, s, position, color, self.0@.subrange(0, idx + 1), mm)
                == marker_cands(b, s, position, color, pre, mm) + sc);
            proof {
                lemma_insert_all_concat(m0, marker_cands(b, s, position, color, pre, mm), sc);
            }
            let ghost mi = moves@;
            match marker_map_get(marker_to_piece, pos.to_key()) {
                Some(k) => {
                    let piece_pos = Position::new(k.0, k.1);
                    assert(piece_pos == key_pos(mm[pos.key()]));
                    if board.is_enemy(piece_pos, color, pieces) {
                        let mv = Move { capture: Some(piece_pos), move_type: MoveType::Normal(NormalMove::new(position, pos)) };
                        proof {
                            lemma_insert_all_one(mi, (pos, mv));
                        }
                        moves.insert(pos, mv);
                    } else {
                        proof {
                            lemma_insert_all_none(mi);
                        }
                    }
                },
                None => {
                    proof {
                        lemma_insert_all_none(mi);
                    }
                },
            }
            idx = idx + 1;
        }
        assert(self.0@.subrange(0, idx as int) =~= self.0@);
    }
}

} // verus!
