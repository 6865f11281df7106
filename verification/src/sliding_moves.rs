use vstd::prelude::*;

use crate::board::{board_is_empty, board_is_enemy, Board};
use crate::direction::Direction;
use crate::move_generator::{
    key_pos, marker_at_cands, marker_map_contents, marker_map_get, ray_cands, ray_marker_cands,
    sliding_cands, sliding_marker_cands, step_capture, step_move, MarkerMap,
};
use crate::moves::{insert_all, lemma_insert_all_concat, lemma_insert_all_none, lemma_insert_all_one, Move, MoveType, Moves, NormalMove};
use crate::pieces::{steps_ok, PieceColor, Pieces, SlidingMoveGenerator};
use crate::position::Position;

verus! {

/// Eight unit steps from a square of the board leave the board.
pub proof fn lemma_slide_leaves(pos: Position, d: Direction)
    requires
        pos.in_bounds(),
        d.is_unit(),
    ensures
        !pos.plus_times(d, 8).in_bounds(),
{
}

/// Up to eight unit steps from a square of the board stay small.
pub proof fn lemma_slide_small(pos: Position, d: Direction, k: int)
    requires
        pos.in_bounds(),
        d.is_unit(),
        0 <= k <= 8,
    ensures
        pos.plus_times(d, k).is_small(),
        -8 <= k * d.drank <= 8,
        -8 <= k * d.dfile <= 8,
{
    assert(-8 <= k * d.drank <= 8) by (nonlinear_arith)
        requires
            -1 <= d.drank <= 1,
            0 <= k <= 8;
    assert(-8 <= k * d.dfile <= 8) by (nonlinear_arith)
        requires
            -1 <= d.dfile <= 1,
            0 <= k <= 8;
}

/// A slide step that, from any square of the board, stays within the range of `isize`.
pub open spec fn slide_fits(d: Direction) -> bool {
    &&& d.drank <= isize::MAX - 7
    &&& d.dfile <= isize::MAX - 7
}

/// Each slide moves, or starts on an occupied square, where a slide that
/// stands still stops at once.
pub open spec fn slides_end(board: Seq<u64>, empty: u64, position: Position, dirs: Seq<Direction>) -> bool {
    forall|i: int| 0 <= i < dirs.len() ==>
        ((#[trigger] dirs[i]).drank != 0 || dirs[i].dfile != 0 || !board_is_empty(board, empty, position))
}

/// Every slide step fits, and so does its first step from `position`.
pub open spec fn slides_fit(position: Position, dirs: Seq<Direction>) -> bool {
    forall|i: int| 0 <= i < dirs.len() ==> slide_fits(#[trigger] dirs[i]) && position.can_add(dirs[i])
}

/// The steps of a piece's slides fit, from a square of the board.
pub proof fn lemma_slides_fit(position: Position, dirs: Seq<Direction>)
    requires
        position.in_bounds(),
        steps_ok(dirs),
    ensures
        slides_fit(position, dirs),
{
    assert forall|i: int| 0 <= i < dirs.len() implies slide_fits(#[trigger] dirs[i]) && position.can_add(dirs[i]) by {
        assert(crate::pieces::step_ok(dirs[i]));
    }
}

/// Along a step that is not zero, at most eight squares from a square of the
/// board on lie on the board.
pub proof fn lemma_slide_count(first: Position, pos: Position, d: Direction, k: int)
    requires
        first.in_bounds(),
        pos.in_bounds(),
        d.drank != 0 || d.dfile != 0,
        k >= 1,
        pos.rank == first.rank + (k - 1) * d.drank,
        pos.file == first.file + (k - 1) * d.dfile,
    ensures
        k <= 8,
{
    if d.drank != 0 {
        assert(k <= 8) by (nonlinear_arith)
            requires
                0 <= first.rank < 8,
                0 <= pos.rank < 8,
                d.drank != 0,
                k >= 1,
                pos.rank == first.rank + (k - 1) * d.drank;
    } else {
        assert(k <= 8) by (nonlinear_arith)
            requires
                0 <= first.file < 8,
                0 <= pos.file < 8,
                d.dfile != 0,
                k >= 1,
                pos.file == first.file + (k - 1) * d.dfile;
    }
}

/// One more step of a slide.
pub proof fn lemma_slide_next(a: int, d: int, k: int)
    by (nonlinear_arith)
    ensures
        a + (k - 1) * d + d == a + k * d,
{
}

impl SlidingMoveGenerator {
    /// Offers, for each direction in turn, a move to each empty square of the
    /// slide (when `allow_moves`) and a capture of the enemy that ends it (when `allow_captures`).
    pub fn generate(&self, moves: &mut Moves, board: &Board, pieces: &Pieces, position: Position, color: PieceColor, allow_moves: bool, allow_captures: bool)
        requires
            board.wf(),
            pieces.wf(),
            slides_fit(position, self.0@),
            slides_end(board@, board.empty_piece, position, self.0@),
        ensures
            final(moves)@ == insert_all(old(moves)@, sliding_cands(board@, board.empty_piece, pieces.states@, position, color, self.0@, allow_moves, allow_captures)),
            final(moves).black_circles == old(moves).black_circles,
            final(moves).move_indicator == old(moves).move_indicator,
            final(moves).capture_indicator == old(moves).capture_indicator,
    {
        let ghost m0 = moves@;
        let ghost b = board@;
        let ghost e = board.empty_piece;
        let ghost s = pieces.states@;
        let mut idx: usize = 0;
        while idx < self.0.len()
            invariant
                board.wf(),
                pieces.wf(),
                slides_fit(position, self.0@),
                slides_end(b, e, position, self.0@),
                b == board@,
                e == board.empty_piece,
                s == pieces.states@,
                idx <= self.0@.len(),
                moves@ == insert_all(m0, sliding_cands(b, e, s, position, color, self.0@.subrange(0, idx as int), allow_moves, allow_captures)),
                moves.black_circles == old(moves).black_circles,
                moves.move_indicator == old(moves).move_indicator,
                moves.capture_indicator == old(moves).capture_indicator,
            decreases self.0@.len() - idx,
        {
            let dir = self.0[idx];
            assert(slide_fits(self.0@[idx as int]) && position.can_add(self.0@[idx as int]));
            assert(dir.drank != 0 || dir.dfile != 0 || !board_is_empty(b, e, position));
            let ghost pre = self.0@.subrange(0, idx as int);
            let ghost rc = ray_cands(b, e, s, position, color, dir, position.plus(dir), 8, allow_moves, allow_captures);
            assert(self.0@.subrange(0, idx + 1).drop_last() =~= pre);
            assert(sliding_cands(b, e, s, position, color, self.0@.subrange(0, idx + 1), allow_moves, allow_captures)
                == sliding_cands(b, e, s, position, color, pre, allow_moves, allow_captures) + rc);
            proof {
                lemma_insert_all_concat(m0, sliding_cands(b, e, s, position, color, pre, allow_moves, allow_captures), rc);
            }
            let ghost target = insert_all(moves@, rc);
            let mut pos = position.add(dir);
            let ghost first = pos;
            let ghost mut k: int = 1;
            while board.is_empty(pos)
                invariant
                    board.wf(),
                    pieces.wf(),
                    slide_fits(dir),
                    dir.drank != 0 || dir.dfile != 0 || !board_is_empty(b, e, position),
                    first == position.plus(dir),
                    position.can_add(dir),
                    k >= 2 ==> dir.drank != 0 || dir.dfile != 0,
                    b == board@,
                    e == board.empty_piece,
                    s == pieces.states@,
                    1 <= k <= 9,
                    pos.rank == first.rank + (k - 1) * dir.drank,
                    pos.file == first.file + (k - 1) * dir.dfile,
                    k >= 2 ==> first.in_bounds(),
                    insert_all(moves@, ray_cands(b, e, s, position, color, dir, pos, (9 - k) as nat, allow_moves, allow_captures)) == target,
                    moves.black_circles == old(moves).black_circles,
                    moves.move_indicator == old(moves).move_indicator,
                    moves.capture_indicator == old(moves).capture_indicator,
                decreases 9 - k,
            {
                proof {
                    if dir.drank == 0 && dir.dfile == 0 {
                        assert((k - 1) * dir.drank == 0 && (k - 1) * dir.dfile == 0) by (nonlinear_arith)
                            requires
                                dir.drank == 0,
                                dir.dfile == 0;
                        assert(pos == position);
                        assert(false);
                    }
                    if k >= 2 {
                        lemma_slide_count(first, pos, dir, k);
                    }
                    lemma_slide_next(first.rank as int, dir.drank as int, k);
                    lemma_slide_next(first.file as int, dir.dfile as int, k);
                }
                let ghost mi = moves@;
                let ghost head: Seq<(Position, Move)> = if allow_moves { seq![(pos, step_move(position, pos))] } else { Seq::empty() };
                let ghost rest = ray_cands(b, e, s, position, color, dir, pos.plus(dir), (8 - k) as nat, allow_moves, allow_captures);
                assert(ray_cands(b, e, s, position, color, dir, pos, (9 - k) as nat, allow_moves, allow_captures) == head + rest);
                proof {
                    lemma_insert_all_concat(mi, head, rest);
                }
                if allow_moves {
                    let mv = Move { capture: None, move_type: MoveType::Normal(NormalMove::new(position, pos)) };
                    proof {
                        lemma_insert_all_one(mi, (pos, mv));
                    }
                    moves.insert(pos, mv);
                } else {
                    proof {
                        lemma_insert_all_none(mi);
                    }
                }
                pos.add_assign(dir);
                proof {
                    k = k + 1;
                }
            }
            let ghost mi = moves@;
            proof {
                if k == 9 && pos.in_bounds() {
                    lemma_slide_count(first, pos, dir, k);
                }
            }
            assert(ray_cands(b, e, s, position, color, dir, pos, (9 - k) as nat, allow_moves, allow_captures)
                == if allow_captures && board_is_enemy(b, s, pos, color) { seq![(pos, step_capture(position, pos, pos))] } else { Seq::<(Position, Move)>::empty() });
            if allow_captures && board.is_enemy(pos, color, pieces) {
                let mv = Move { capture: Some(pos), move_type: MoveType::Normal(NormalMove::new(position, pos)) };
                proof {
                    lemma_insert_all_one(mi, (pos, mv));
                }
                moves.insert(pos, mv);
            } else {
                proof {
                    lemma_insert_all_none(mi);
                }
            }
            idx = idx + 1;
        }
        assert(self.0@.subrange(0, idx as int) =~= self.0@);
    }

    /// Offers, for each direction in turn, a capture of the piece that each
    /// marker on an empty square of the slide stands for, when that piece is an enemy.
    pub fn generate_marker_captures(&self, moves: &mut Moves, board: &Board, pieces: &Pieces, position: Position, color: PieceColor, marker_to_piece: &MarkerMap)
        requires
            board.wf(),
            pieces.wf(),
            slides_fit(position, self.0@),
            slides_end(board@, board.empty_piece, position, self.0@),
        ensures
            final(moves)@ == insert_all(old(moves)@, sliding_marker_cands(board@, board.empty_piece, pieces.states@, position, color, self.0@, marker_map_contents(*marker_to_piece))),
            final(moves).black_circles == old(moves).black_circles,
            final(moves).move_indicator == old(moves).move_indicator,
            final(moves).capture_indicator == old(moves).capture_indicator,
    {
        let ghost m0 = moves@;
        let ghost b = board@;
        let ghost e = board.empty_piece;
        let ghost s = pieces.states@;
        let ghost mm = marker_map_contents(*marker_to_piece);
        let mut idx: usize = 0;
        while idx < self.0.len()
            invariant
                board.wf(),
                pieces.wf(),
                slides_fit(position, self.0@),
                slides_end(b, e, position, self.0@),
                b == board@,
                e == board.empty_piece,
                s == pieces.states@,
                mm == marker_map_contents(*marker_to_piece),
                idx <= self.0@.len(),
                moves@ == insert_all(m0, sliding_marker_cands(b, e, s, position, color, self.0@.subrange(0, idx as int), mm)),
                moves.black_circles == old(moves).black_circles,
                moves.move_indicator == old(moves).move_indicator,
                moves.capture_indicator == old(moves).capture_indicator,
            decreases self.0@.len() - idx,
        {
            let dir = self.0[idx];
            assert(slide_fits(self.0@[idx as int]) && position.can_add(self.0@[idx as int]));
            assert(dir.drank != 0 || dir.dfile != 0 || !board_is_empty(b, e, position));
            let ghost pre = self.0@.subrange(0, idx as int);
            let ghost rc = ray_marker_cands(b, e, s, position, color, dir, position.plus(dir), 8, mm);
            assert(self.0@.subrange(0, idx + 1).drop_last() =~= pre);
            assert(sliding_marker_cands(b, e, s, position, color, self.0@.subrange(0, idx + 1), mm)
                == sliding_marker_cands(b, e, s, position, color, pre, mm) + rc);
            proof {
                lemma_insert_all_concat(m0, sliding_marker_cands(b, e, s, position, color, pre, mm), rc);
            }
            let ghost target = insert_all(moves@, rc);
            let mut pos = position.add(dir);
            let ghost first = pos;
            let ghost mut k: int = 1;
            while board.is_empty(pos)
                invariant
                    board.wf(),
                    pieces.wf(),
                    slide_fits(dir),
                    dir.drank != 0 || dir.dfile != 0 || !board_is_empty(b, e, position),
                    first == position.plus(dir),
                    position.can_add(dir),
                    k >= 2 ==> dir.drank != 0 || dir.dfile != 0,
                    b == board@,
                    e == board.empty_piece,
                    s == pieces.states@,
                    mm == marker_map_contents(*marker_to_piece),
                    1 <= k <= 9,
                    pos.rank == first.rank + (k - 1) * dir.drank,
                    pos.file == first.file + (k - 1) * dir.dfile,
                    k >= 2 ==> first.in_bounds(),
                    insert_all(moves@, ray_marker_cands(b, e, s, position, color, dir, pos, (9 - k) as nat, mm)) == target,
                    moves.black_circles == old(moves).black_circles,
                    moves.move_indicator == old(moves).move_indicator,
                    moves.capture_indicator == old(moves).capture_indicator,
                decreases 9 - k,
            {
                proof {
                    if dir.drank == 0 && dir.dfile == 0 {
                        assert((k - 1) * dir.drank == 0 && (k - 1) * dir.dfile == 0) by (nonlinear_arith)
                            requires
                                dir.drank == 0,
                                dir.dfile == 0;
                        assert(pos == position);
                        assert(false);
                    }
                    if k >= 2 {
                        lemma_slide_count(first, pos, dir, k);
                    }
                    lemma_slide_next(first.rank as int, dir.drank as int, k);
                    lemma_slide_next(first.file as int, dir.dfile as int, k);
                }
                let ghost mi = moves@;
                let ghost head = marker_at_cands(b, s, position, color, pos, mm);
                let ghost rest = ray_marker_cands(b, e, s, position, color, dir, pos.plus(dir), (8 - k) as nat, mm);
                assert(ray_marker_cands(b, e, s, position, color, dir, pos, (9 - k) as nat, mm) == head + rest);
                proof {
                    lemma_insert_all_concat(mi, head, rest);
                }
                match marker_map_get(marker_to_piece, pos.to_key()) {
                    Some(key) => {
                        let piece_pos = Position::new(key.0, key.1);
                        assert(piece_pos == key_pos(mm[pos.key()]));
                        if board.is_enemy(piece_pos, color, pieces) {
                            let mv = Move { capture: Some(piece_pos), move_type: MoveType::Normal(NormalMove::new(position, pos)) };
                            proof {
                                lemma_insert_all_one(mi, (pos, mv));
                            }
                            moves.insert(pos, mv);
                        } else {
                            proof {
                                lemma_insert_all_none(mi);
                            }
                        }
                    },
                    None => {
                        proof {
                            lemma_insert_all_none(mi);
                        }
                    },
                }
                pos.add_assign(dir);
                proof {
                    k = k + 1;
                }
            }
            assert(ray_marker_cands(b, e, s, position, color, dir, pos, (9 - k) as nat, mm) =~= Seq::<(Position, Move)>::empty());
            proof {
                lemma_insert_all_none(moves@);
            }
            idx = idx + 1;
        }
        assert(self.0@.subrange(0, idx as int) =~= self.0@);
    }
}

} // verus!
