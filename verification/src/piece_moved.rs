use vstd::prelude::*;

use crate::board::{board_at, lemma_square_injective};
use crate::direction::{sign, Direction};
use crate::game::{
    at, board_sync, do_move_spec, lemma_do_move_effect, lemma_do_move_records, lemma_do_move_wf,
    lemma_boards_equal, lemma_restore_all_concat, lemma_restore_undoes_do_move, markers_in_bounds, restore_all, view_wf,
    Game, GameView,
};
use crate::markers::{Marker, MarkerKind};
use crate::moves::{Move, MoveType, NormalMove, PieceMovedEvent};
use crate::pieces::index_of;
use crate::position::Position;

verus! {

/// The square between two squares (rounding towards the first rank and file).
pub open spec fn midpoint(a: Position, b: Position) -> Position {
    Position { rank: ((a.rank + b.rank) / 2) as isize, file: ((a.file + b.file) / 2) as isize }
}

/// The unit step a castling king takes.
pub open spec fn castle_dir(k: NormalMove) -> Direction {
    Direction { drank: sign(k.to.rank - k.from.rank) as isize, dfile: sign(k.to.file - k.from.file) as isize }
}

/// The number of unit steps a castling king takes: the larger of its rank
/// and file distances.
pub open spec fn castle_steps(k: NormalMove) -> int {
    let dr = if k.to.rank >= k.from.rank { k.to.rank - k.from.rank } else { k.from.rank - k.to.rank };
    let df = if k.to.file >= k.from.file { k.to.file - k.from.file } else { k.from.file - k.to.file };
    if dr >= df {
        dr
    } else {
        df
    }
}

/// A castling king moves along a rank, a file or a diagonal (or stays): its
/// move is a whole number of unit steps.
pub open spec fn castle_shape(k: NormalMove) -> bool {
    k.to == k.from.plus_times(castle_dir(k), castle_steps(k))
}

/// The castle markers of the king's move: on each square it leaves or crosses.
pub open spec fn castle_markers(k: NormalMove, king: u64) -> Seq<Marker> {
    Seq::new(
        castle_steps(k) as nat,
        |i: int| Marker { kind: MarkerKind::Castle, position: k.from.plus_times(castle_dir(k), i), target: king },
    )
}

/// `v` with the markers added to those of the move being made.
pub open spec fn add_future(v: GameView, ms: Seq<Marker>) -> GameView {
    GameView { future: v.future + ms, ..v }
}

/// The piece on `from` moves as `nm` says.
pub open spec fn normal_spec(v: GameView, nm: NormalMove, capture: Option<Position>, is_real: bool) -> GameView {
    do_move_spec(v, at(v, nm.from), nm.from, nm.to, capture, is_real)
}

/// The marker that a pawn's double step leaves.
pub open spec fn en_passant_marker(v: GameView, nm: NormalMove) -> Marker {
    Marker { kind: MarkerKind::EnPassant, position: midpoint(nm.from, nm.to), target: at(v, nm.from) }
}

/// The state before the markers move on.
pub open spec fn moved_spec(v: GameView, m: Move, is_real: bool) -> GameView {
    match m.move_type {
        MoveType::Normal(nm) => normal_spec(v, nm, m.capture, is_real),
        MoveType::DoublePawn(nm) => normal_spec(add_future(v, seq![en_passant_marker(v, nm)]), nm, m.capture, is_real),
        MoveType::Castle(k, r) => {
            let v1 = normal_spec(add_future(v, castle_markers(k, at(v, k.from))), k, m.capture, is_real);
            normal_spec(v1, r, m.capture, is_real)
        },
    }
}

/// The markers of the move being made become the current ones.
pub open spec fn advance_spec(v: GameView) -> GameView {
    GameView { past: v.current, current: v.future, future: Seq::empty(), ..v }
}

/// The state after the move `m`: its markers are placed, its pieces move, and,
/// when `advance_move` holds, its markers become the current ones.
pub open spec fn apply_move_spec(v: GameView, m: Move, is_real: bool, advance_move: bool) -> GameView {
    let w = moved_spec(v, m, is_real);
    if advance_move {
        advance_spec(w)
    } else {
        w
    }
}

/// The pieces whose moves are shown: each with its start and end square; none
/// for a move that is not real.
pub open spec fn animations_spec(v: GameView, m: Move, is_real: bool) -> Seq<(u64, Position, Position)> {
    if !is_real {
        Seq::empty()
    } else {
        match m.move_type {
            MoveType::Normal(nm) => seq![(at(v, nm.from), nm.from, nm.to)],
            MoveType::DoublePawn(nm) => seq![(at(v, nm.from), nm.from, nm.to)],
            MoveType::Castle(k, r) => {
                let v1 = normal_spec(add_future(v, castle_markers(k, at(v, k.from))), k, m.capture, is_real);
                seq![(at(v, k.from), k.from, k.to), (at(v1, r.from), r.from, r.to)]
            },
        }
    }
}

/// The capture square lies on the board and is not the square the piece leaves.
pub open spec fn capture_ok(capture: Option<Position>, from: Position) -> bool {
    capture matches Some(c) ==> c.in_bounds() && c != from
}

/// One piece's step can be made in `v`: both squares on the board, a piece on the first.
pub open spec fn step_ok(v: GameView, nm: NormalMove, capture: Option<Position>) -> bool {
    &&& nm.from.in_bounds()
    &&& nm.to.in_bounds()
    &&& at(v, nm.from) != v.empty
    &&& capture_ok(capture, nm.from)
}

/// The move can be made in `v` (else making it would fail).
pub open spec fn move_ok(v: GameView, m: Move) -> bool {
    match m.move_type {
        MoveType::Normal(nm) => step_ok(v, nm, m.capture),
        MoveType::DoublePawn(nm) => step_ok(v, nm, m.capture),
        MoveType::Castle(k, r) => {
            let v1 = normal_spec(add_future(v, castle_markers(k, at(v, k.from))), k, m.capture, false);
            &&& step_ok(v, k, m.capture)
            &&& castle_shape(k)
            &&& step_ok(v1, r, m.capture)
        },
    }
}

/// Between two integers of a range, a multiple of a step of -1, 0 or 1 stays in the range.
pub proof fn lemma_between_coord(a: int, d: int, k: int, j: int)
    by (nonlinear_arith)
    requires
        0 <= a < 8,
        0 <= a + k * d < 8,
        -1 <= d <= 1,
        0 <= j <= k,
    ensures
        0 <= a + j * d < 8,
{
}

/// Two squares on the board, and the square between them along a line, lie on the board.
pub proof fn lemma_between_in_bounds(a: Position, d: Direction, k: int, j: int)
    requires
        a.in_bounds(),
        a.plus_times(d, k).in_bounds(),
        -1 <= d.drank <= 1,
        -1 <= d.dfile <= 1,
        0 <= j <= k,
        k <= 8,
    ensures
        a.plus_times(d, j).in_bounds(),
{
    assert(-8 <= k * d.drank <= 8) by (nonlinear_arith)
        requires
            -1 <= d.drank <= 1,
            0 <= k <= 8;
    assert(-8 <= k * d.dfile <= 8) by (nonlinear_arith)
        requires
            -1 <= d.dfile <= 1,
            0 <= k <= 8;
    assert(-8 <= j * d.drank <= 8) by (nonlinear_arith)
        requires
            -1 <= d.drank <= 1,
            0 <= j <= 8;
    assert(-8 <= j * d.dfile <= 8) by (nonlinear_arith)
        requires
            -1 <= d.dfile <= 1,
            0 <= j <= 8;
    lemma_between_coord(a.rank as int, d.drank as int, k, j);
    lemma_between_coord(a.file as int, d.dfile as int, k, j);
}

/// Adding markers that lie on the board keeps the state consistent.
pub proof fn lemma_add_future_wf(v: GameView, ms: Seq<Marker>)
    requires
        view_wf(v),
        markers_in_bounds(ms),
    ensures
        view_wf(add_future(v, ms)),
{
    let w = add_future(v, ms);
    assert forall|i: int| 0 <= i < w.future.len() implies (#[trigger] w.future[i]).position.in_bounds() by {
        if i < v.future.len() {
            assert(w.future[i] == v.future[i]);
        } else {
            assert(w.future[i] == ms[i - v.future.len()]);
        }
    }
}

/// The castle markers lie on the board.
pub proof fn lemma_castle_markers_in_bounds(k: NormalMove, king: u64)
    requires
        k.from.in_bounds(),
        k.to.in_bounds(),
        castle_shape(k),
    ensures
        markers_in_bounds(castle_markers(k, king)),
{
    let ms = castle_markers(k, king);
    assert forall|i: int| 0 <= i < ms.len() implies (#[trigger] ms[i]).position.in_bounds() by {
        lemma_between_in_bounds(k.from, castle_dir(k), castle_steps(k), i);
    }
}

/// A move that can be made keeps the state consistent.
pub proof fn lemma_apply_move_wf(v: GameView, m: Move, is_real: bool, advance_move: bool)
    requires
        view_wf(v),
        move_ok(v, m),
    ensures
        view_wf(apply_move_spec(v, m, is_real, advance_move)),
        apply_move_spec(v, m, is_real, advance_move).rules == v.rules,
        apply_move_spec(v, m, is_real, advance_move).empty == v.empty,
        moved_spec(v, m, is_real).current == v.current,
        moved_spec(v, m, is_real).past == v.past,
{
    match m.move_type {
        MoveType::Normal(nm) => {
            lemma_do_move_wf(v, at(v, nm.from), nm.from, nm.to, m.capture, is_real);
            lemma_do_move_records(v, at(v, nm.from), nm.from, nm.to, m.capture, is_real);
        },
        MoveType::DoublePawn(nm) => {
            let mk = en_passant_marker(v, nm);
            assert(midpoint(nm.from, nm.to).in_bounds());
            lemma_add_future_wf(v, seq![mk]);
            let v0 = add_future(v, seq![mk]);
            lemma_do_move_wf(v0, at(v0, nm.from), nm.from, nm.to, m.capture, is_real);
            lemma_do_move_records(v0, at(v0, nm.from), nm.from, nm.to, m.capture, is_real);
        },
        MoveType::Castle(k, r) => {
            let ms = castle_markers(k, at(v, k.from));
            lemma_castle_markers_in_bounds(k, at(v, k.from));
            lemma_add_future_wf(v, ms);
            let v0 = add_future(v, ms);
            lemma_do_move_wf(v0, at(v0, k.from), k.from, k.to, m.capture, is_real);
            lemma_do_move_records(v0, at(v0, k.from), k.from, k.to, m.capture, is_real);
            let v1 = normal_spec(v0, k, m.capture, is_real);
            let v1f = normal_spec(v0, k, m.capture, false);
            // the real and the simulated king move leave the same board
            lemma_do_move_effect(v0, at(v0, k.from), k.from, k.to, m.capture, is_real);
            lemma_do_move_effect(v0, at(v0, k.from), k.from, k.to, m.capture, false);
            lemma_boards_equal(v1.board, v1f.board);
            assert(at(v1, r.from) == at(v1f, r.from));
            lemma_do_move_wf(v1, at(v1, r.from), r.from, r.to, m.capture, is_real);
            lemma_do_move_records(v1, at(v1, r.from), r.from, r.to, m.capture, is_real);
        },
    }
    let w = moved_spec(v, m, is_real);
    if advance_move {
        assert(view_wf(advance_spec(w)));
    }
}

/// Undoing what a move that is not real recorded puts the board and the piece
/// states back as they were.
pub proof fn lemma_restore_undoes_apply(v: GameView, m: Move, advance_move: bool)
    requires
        view_wf(v),
        move_ok(v, m),
    ensures
        ({
            let w = apply_move_spec(v, m, false, advance_move);
            &&& w.changes.len() >= v.changes.len()
            &&& w.changes.subrange(0, v.changes.len() as int) == v.changes
            &&& restore_all((w.board, w.states), w.changes.skip(v.changes.len() as int)) == (v.board, v.states)
        }),
{
    let n = v.changes.len() as int;
    match m.move_type {
        MoveType::Normal(nm) => {
            lemma_restore_undoes_do_move(v, at(v, nm.from), nm.from, nm.to, m.capture);
        },
        MoveType::DoublePawn(nm) => {
            let v0 = add_future(v, seq![en_passant_marker(v, nm)]);
            lemma_restore_undoes_do_move(v0, at(v0, nm.from), nm.from, nm.to, m.capture);
        },
        MoveType::Castle(k, r) => {
            let ms = castle_markers(k, at(v, k.from));
            lemma_castle_markers_in_bounds(k, at(v, k.from));
            lemma_add_future_wf(v, ms);
            let v0 = add_future(v, ms);
            lemma_restore_undoes_do_move(v0, at(v0, k.from), k.from, k.to, m.capture);
            lemma_do_move_wf(v0, at(v0, k.from), k.from, k.to, m.capture, false);
            let v1 = normal_spec(v0, k, m.capture, false);
            lemma_restore_undoes_do_move(v1, at(v1, r.from), r.from, r.to, m.capture);
            let w = normal_spec(v1, r, m.capture, false);
            let n1 = v1.changes.len() as int;
            let d1 = v1.changes.skip(n);
            let d2 = w.changes.skip(n1);
            assert(v1.changes.subrange(0, n) == v.changes);
            assert(w.changes.subrange(0, n1) == v1.changes);
            assert(w.changes.skip(n) =~= d1 + d2);
            assert(w.changes.subrange(0, n) =~= v.changes);
            lemma_restore_all_concat((w.board, w.states), d1, d2);
        },
    }
}

/// A real move marks the piece it moves (for a castling, the king) as having
/// moved, and is shown.
pub proof fn lemma_real_move_marks_mover(v: GameView, m: Move, advance_move: bool)
    requires
        view_wf(v),
        move_ok(v, m),
    ensures
        ({
            let w = apply_move_spec(v, m, true, advance_move);
            let from = match m.move_type {
                MoveType::Normal(nm) => nm.from,
                MoveType::DoublePawn(nm) => nm.from,
                MoveType::Castle(k, r) => k.from,
            };
            &&& w.states[index_of(v.states, at(v, from))].has_moved
            &&& animations_spec(v, m, true).len() > 0
            &&& animations_spec(v, m, true)[0] == (at(v, from), from, match m.move_type {
                MoveType::Normal(nm) => nm.to,
                MoveType::DoublePawn(nm) => nm.to,
                MoveType::Castle(k, r) => k.to,
            })
        }),
{
    match m.move_type {
        MoveType::Normal(nm) => {
            lemma_do_move_effect(v, at(v, nm.from), nm.from, nm.to, m.capture, true);
        },
        MoveType::DoublePawn(nm) => {
            let v0 = add_future(v, seq![en_passant_marker(v, nm)]);
            lemma_do_move_effect(v0, at(v0, nm.from), nm.from, nm.to, m.capture, true);
        },
        MoveType::Castle(k, r) => {
            let ms = castle_markers(k, at(v, k.from));
            lemma_castle_markers_in_bounds(k, at(v, k.from));
            lemma_add_future_wf(v, ms);
            let v0 = add_future(v, ms);
            lemma_do_move_effect(v0, at(v0, k.from), k.from, k.to, m.capture, true);
            lemma_do_move_wf(v0, at(v0, k.from), k.from, k.to, m.capture, true);
            let v1 = normal_spec(v0, k, m.capture, true);
            lemma_do_move_effect(v0, at(v0, k.from), k.from, k.to, m.capture, false);
            let v1f = normal_spec(v0, k, m.capture, false);
            lemma_boards_equal(v1.board, v1f.board);
            assert(at(v1, r.from) == at(v1f, r.from));
            lemma_do_move_effect(v1, at(v1, r.from), r.from, r.to, m.capture, true);
        },
    }
}

/// A move that is only tried marks no piece as having moved and is not shown;
/// the pieces keep their ids and colors.
pub proof fn lemma_tried_move_marks_nothing(v: GameView, m: Move, advance_move: bool)
    requires
        view_wf(v),
        move_ok(v, m),
    ensures
        apply_move_spec(v, m, false, advance_move).states.len() == v.states.len(),
        forall|j: int| 0 <= j < v.states.len() ==> {
            &&& (#[trigger] apply_move_spec(v, m, false, advance_move).states[j]).has_moved == v.states[j].has_moved
            &&& apply_move_spec(v, m, false, advance_move).states[j].id == v.states[j].id
            &&& apply_move_spec(v, m, false, advance_move).states[j].color == v.states[j].color
        },
        animations_spec(v, m, false).len() == 0,
{
    match m.move_type {
        MoveType::Normal(nm) => {
            lemma_do_move_effect(v, at(v, nm.from), nm.from, nm.to, m.capture, false);
        },
        MoveType::DoublePawn(nm) => {
            let v0 = add_future(v, seq![en_passant_marker(v, nm)]);
            lemma_do_move_effect(v0, at(v0, nm.from), nm.from, nm.to, m.capture, false);
        },
        MoveType::Castle(k, r) => {
            let ms = castle_markers(k, at(v, k.from));
            lemma_castle_markers_in_bounds(k, at(v, k.from));
            lemma_add_future_wf(v, ms);
            let v0 = add_future(v, ms);
            lemma_do_move_effect(v0, at(v0, k.from), k.from, k.to, m.capture, false);
            lemma_do_move_wf(v0, at(v0, k.from), k.from, k.to, m.capture, false);
            let v1 = normal_spec(v0, k, m.capture, false);
            lemma_do_move_effect(v1, at(v1, r.from), r.from, r.to, m.capture, false);
        },
    }
}

impl Game {
    /// The piece on `nm.from` moves to `nm.to`; a real move is recorded for animation.
    fn normal_move(&mut self, nm: NormalMove, capture: Option<Position>, is_real: bool, animations: &mut Vec<(u64, Position, Position)>)
        requires
            old(self).wf(),
            step_ok(old(self)@, nm, capture),
        ensures
            final(self)@ == normal_spec(old(self)@, nm, capture, is_real),
            final(self).wf(),
            final(animations)@ == if is_real {
                old(animations)@.push((at(old(self)@, nm.from), nm.from, nm.to))
            } else {
                old(animations)@
            },
    {
        let piece = self.board.index(nm.from);
        self.do_move(piece, nm.from, nm.to, capture, is_real);
        if is_real {
            animations.push((piece, nm.from, nm.to));
        }
    }

    /// Makes the event's move: places its markers, moves its pieces, and, when
    /// `advance_move` holds, makes its markers the current ones. Returns the
    /// pieces whose moves are to be shown, with their start and end squares.
    pub fn on_piece_moved(&mut self, event: PieceMovedEvent) -> (animations: Vec<(u64, Position, Position)>)
        requires
            old(self).wf(),
            move_ok(old(self)@, event.mmove),
        ensures
            final(self)@ == apply_move_spec(old(self)@, event.mmove, event.is_real, event.advance_move),
            final(self).wf(),
            animations@ == animations_spec(old(self)@, event.mmove, event.is_real),
    {
        let mmove = event.mmove;
        let is_real = event.is_real;
        let advance_move = event.advance_move;
        let ghost v = self@;
        let mut animations: Vec<(u64, Position, Position)> = Vec::new();
        match mmove.move_type {
            MoveType::Normal(nm) => {
                self.normal_move(nm, mmove.capture, is_real, &mut animations);
                assert(animations@ =~= animations_spec(v, mmove, is_real));
            },
            MoveType::DoublePawn(nm) => {
                let from = nm.from;
                let to = nm.to;
                let rank = ((from.rank + to.rank) as usize / 2) as isize;
                let file = ((from.file + to.file) as usize / 2) as isize;
                let target = self.board.index(from);
                let marker = Marker { kind: MarkerKind::EnPassant, position: Position::new(rank, file), target };
                assert(marker == en_passant_marker(v, nm));
                proof {
                    lemma_add_future_wf(v, seq![marker]);
                }
                self.marker_board.insert(marker);
                assert(self.marker_board.future@ =~= v.future + seq![marker]);
                assert(self@ == add_future(v, seq![marker]));
                self.normal_move(nm, mmove.capture, is_real, &mut animations);
                assert(animations@ =~= animations_spec(v, mmove, is_real));
            },
            MoveType::Castle(king_move, rook_move) => {
                let king = self.board.index(king_move.from);
                let dir = king_move.to.sub(king_move.from).normalize();
                let ghost ms = castle_markers(king_move, king);
                let ghost steps = castle_steps(king_move);
                proof {
                    lemma_castle_markers_in_bounds(king_move, king);
                    lemma_add_future_wf(v, ms);
                }
                let mut pos = king_move.from;
                let ghost mut n: int = 0;
                while pos != king_move.to
                    invariant
                        self.board == old(self).board,
                        self.board_changes == old(self).board_changes,
                        self.pieces == old(self).pieces,
                        self.marker_board.past@ == v.past,
                        self.marker_board.current@ == v.current,
                        self.marker_board.future@ == v.future + ms.take(n),
                        0 <= n <= steps,
                        pos == king_move.from.plus_times(dir, n),
                        castle_shape(king_move),
                        king_move.from.in_bounds(),
                        king_move.to.in_bounds(),
                        dir == castle_dir(king_move),
                        ms == castle_markers(king_move, king),
                        steps == castle_steps(king_move),
                    decreases steps - n,
                {
                    proof {
                        king_move.from.lemma_plus_times_next(dir, n);
                        king_move.from.lemma_plus_times_next(dir, 1);
                        if n >= steps {
                            assert(pos == king_move.to);
                        }
                        lemma_between_in_bounds(king_move.from, dir, steps, n);
                    }
                    let marker = Marker { kind: MarkerKind::Castle, position: pos, target: king };
                    assert(marker == ms[n]);
                    self.marker_board.insert(marker);
                    assert(ms.take(n + 1) =~= ms.take(n).push(marker));
                    proof {
                        king_move.from.lemma_plus_times_next(dir, n);
                    }
                    pos.add_assign(dir);
                    proof {
                        n = n + 1;
                    }
                }
                proof {
                    king_move.from.lemma_plus_times_next(dir, 0);
                    king_move.from.lemma_plus_times_next(dir, 1);
                    if n < steps {
                        assert(dir.is_unit());
                        crate::legality::lemma_unit_steps_distinct(king_move.from, dir, n, steps);
                        assert(pos != king_move.to);
                    }
                    assert(ms.take(n) =~= ms);
                }
                assert(self@ == add_future(v, ms));
                self.normal_move(king_move, mmove.capture, is_real, &mut animations);
                proof {
                    let v0 = add_future(v, ms);
                    lemma_do_move_effect(v0, at(v0, king_move.from), king_move.from, king_move.to, mmove.capture, is_real);
                    lemma_do_move_effect(v0, at(v0, king_move.from), king_move.from, king_move.to, mmove.capture, false);
                }
                self.normal_move(rook_move, mmove.capture, is_real, &mut animations);
                assert(animations@ =~= animations_spec(v, mmove, is_real));
            },
        }
        assert(self@ == moved_spec(v, mmove, is_real));
        if advance_move {
            self.marker_board.advance_move();
            assert(self.marker_board.future@ =~= Seq::<Marker>::empty());
        }
        proof {
            lemma_apply_move_wf(v, mmove, is_real, advance_move);
        }
        animations
    }
}


impl Game {
    /// Whether one piece's step can be made: both squares on the board, a piece
    /// on the first, and a capture square on the board that is not the first.
    fn step_is_possible(&self, nm: NormalMove, capture: Option<Position>) -> (r: bool)
        requires
            self.wf(),
        ensures
            r == step_ok(self@, nm, capture),
    {
        let capture_fits = match capture {
            Some(c) => self.board.is_in_bounds(c) && c != nm.from,
            None => true,
        };
        self.board.is_in_bounds(nm.from) && self.board.is_in_bounds(nm.to)
            && self.board.index(nm.from) != self.board.empty_piece && capture_fits
    }

    /// Whether the move can be made: every square it names lies on the board, a
    /// piece stands on each square a piece leaves (for a castling, the castle
    /// piece's square after the king's step), no capture square is a square left,
    /// and a castling king stays or goes two unit steps.
    pub fn move_is_possible(&self, mmove: Move) -> (r: bool)
        requires
            self.wf(),
        ensures
            r == move_ok(self@, mmove),
    {
        let capture = mmove.capture;
        match mmove.move_type {
            MoveType::Normal(nm) => self.step_is_possible(nm, capture),
            MoveType::DoublePawn(nm) => self.step_is_possible(nm, capture),
            MoveType::Castle(k, rm) => {
                let ghost v = self@;
                if !self.step_is_possible(k, capture) {
                    return false;
                }
                let dir = k.to.sub(k.from).normalize();
                assert(dir == castle_dir(k));
                let dr = if k.to.rank >= k.from.rank { k.to.rank - k.from.rank } else { k.from.rank - k.to.rank };
                let df = if k.to.file >= k.from.file { k.to.file - k.from.file } else { k.from.file - k.to.file };
                let steps = if dr >= df { dr } else { df };
                assert(steps == castle_steps(k));
                assert(-7 <= dir.drank * steps <= 7 && dir.drank * steps == steps * dir.drank) by (nonlinear_arith)
                    requires
                        -1 <= dir.drank <= 1,
                        0 <= steps <= 7;
                assert(-7 <= dir.dfile * steps <= 7 && dir.dfile * steps == steps * dir.dfile) by (nonlinear_arith)
                    requires
                        -1 <= dir.dfile <= 1,
                        0 <= steps <= 7;
                let shape = k.to == k.from.add(dir.mul(steps));
                assert(shape == castle_shape(k));
                if !shape {
                    return false;
                }
                let capture_fits = match capture {
                    Some(c) => c != rm.from,
                    None => true,
                };
                if !(self.board.is_in_bounds(rm.from) && self.board.is_in_bounds(rm.to) && capture_fits) {
                    return false;
                }
                let king = self.board.index(k.from);
                let empty = self.board.empty_piece;
                let after = if rm.from == k.from {
                    empty
                } else if rm.from == k.to {
                    king
                } else if capture == Some(rm.from) {
                    empty
                } else {
                    self.board.index(rm.from)
                };
                proof {
                    let ms = castle_markers(k, at(v, k.from));
                    let v0 = add_future(v, ms);
                    lemma_do_move_effect(v0, at(v0, k.from), k.from, k.to, capture, false);
                    let v1 = normal_spec(v0, k, capture, false);
                    assert(at(v1, rm.from) == after);
                    assert(v1.empty == empty);
                }
                after != empty
            },
        }
    }
}

} // verus!
