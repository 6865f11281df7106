use vstd::prelude::*;

use crate::board::{board_at, board_is_empty, board_is_enemy, lemma_square_injective};
use crate::direction::Direction;
use crate::game::{at, board_sync, lemma_do_move_effect, markers_in_bounds, view_wf, GameView};
use crate::markers::{Marker, MarkerKind};
use crate::move_generator::{
    castle_cand, castle_cands_upto, gen_cands, gen_moves, key_pos, marker_at_cands, marker_cands,
    marker_map_spec, pawn_cands, ray_cands, ray_marker_cands, single_cands, single_marker_all,
    slide_end, sliding_cands, sliding_marker_all, sliding_marker_cands, step_cands, toward,
};
use crate::moves::{insert_all, map_get, no_moves, priority_insert, spec_priority, Move, MoveType};
use crate::piece_moved::{
    add_future, castle_dir, castle_markers, castle_shape, lemma_between_in_bounds, move_ok, normal_spec,
};
use crate::pieces::{color_of, has_id, index_of, lemma_index_of, steps_ok, PieceState};
use crate::position::Position;
use crate::sliding_moves::{lemma_slide_leaves, lemma_slide_small};

verus! {

/// The piece `i` is in play on its square of a consistent state.
pub open spec fn piece_on_board(v: GameView, i: int) -> bool {
    &&& view_wf(v)
    &&& 0 <= i < v.states.len()
    &&& !v.states[i].captured
}

/// Every candidate can be made in `v`.
pub open spec fn cands_ok(v: GameView, cands: Seq<(Position, Move)>) -> bool {
    forall|j: int| 0 <= j < cands.len() ==> move_ok(v, (#[trigger] cands[j]).1)
}

/// Every move of the map can be made in `v`.
pub open spec fn map_ok(v: GameView, m: Map<(isize, isize), Move>) -> bool {
    forall|k: (isize, isize)| #[trigger] m.contains_key(k) ==> move_ok(v, m[k])
}

/// Offering candidates that can be made keeps a map whose moves can be made.
pub proof fn lemma_insert_all_ok(v: GameView, m: Map<(isize, isize), Move>, cands: Seq<(Position, Move)>)
    requires
        map_ok(v, m),
        cands_ok(v, cands),
    ensures
        map_ok(v, insert_all(m, cands)),
    decreases cands.len(),
{
    if cands.len() > 0 {
        let pre = cands.drop_last();
        assert forall|j: int| 0 <= j < pre.len() implies move_ok(v, (#[trigger] pre[j]).1) by {
            assert(pre[j] == cands[j]);
        }
        lemma_insert_all_ok(v, m, pre);
        assert(move_ok(v, cands[cands.len() - 1].1));
    }
}

/// Candidates that can be made, concatenated.
pub proof fn lemma_cands_ok_concat(v: GameView, a: Seq<(Position, Move)>, b: Seq<(Position, Move)>)
    requires
        cands_ok(v, a),
        cands_ok(v, b),
    ensures
        cands_ok(v, a + b),
{
    assert forall|j: int| 0 <= j < (a + b).len() implies move_ok(v, (#[trigger] (a + b)[j]).1) by {
        if j < a.len() {
            assert((a + b)[j] == a[j]);
        } else {
            assert((a + b)[j] == b[j - a.len()]);
        }
    }
}

/// The piece on the square of the piece `i` is `i` itself, and it is no enemy of its own color.
pub proof fn lemma_own_square(v: GameView, i: int)
    requires
        piece_on_board(v, i),
    ensures
        at(v, v.states[i].position) == v.states[i].id,
        at(v, v.states[i].position) != v.empty,
        !board_is_enemy(v.board, v.states, v.states[i].position, v.states[i].color),
        !board_is_empty(v.board, v.empty, v.states[i].position),
        v.states[i].position.in_bounds(),
{
    lemma_index_of(v.states, i);
    if v.states[i].id == v.empty {
        assert(has_id(v.states, v.empty));
    }
    assert(has_id(v.states, v.states[i].id));
    assert(color_of(v.states, v.states[i].id) == Some(v.states[i].color));
}

/// A move of the piece `i` to `to`, capturing on `c` (if any), can be made.
pub proof fn lemma_step_move_ok(v: GameView, i: int, to: Position, capture: Option<Position>)
    requires
        piece_on_board(v, i),
        to.in_bounds(),
        capture matches Some(c) ==> c.in_bounds() && c != v.states[i].position,
    ensures
        move_ok(v, Move { capture, move_type: MoveType::Normal(crate::moves::NormalMove { from: v.states[i].position, to }) }),
{
    lemma_own_square(v, i);
}

/// The single steps of the piece `i` can be made.
pub proof fn lemma_single_cands_ok(v: GameView, i: int, dirs: Seq<Direction>, am: bool, ac: bool)
    requires
        piece_on_board(v, i),
    ensures
        cands_ok(v, single_cands(v.board, v.empty, v.states, v.states[i].position, v.states[i].color, dirs, am, ac)),
    decreases dirs.len(),
{
    let pos = v.states[i].position;
    let col = v.states[i].color;
    if dirs.len() > 0 {
        lemma_single_cands_ok(v, i, dirs.drop_last(), am, ac);
        let d = dirs.last();
        let p = pos.plus(d);
        lemma_own_square(v, i);
        let sc = step_cands(v.board, v.empty, v.states, pos, col, d, am, ac);
        if am && board_is_empty(v.board, v.empty, p) {
            lemma_step_move_ok(v, i, p, None);
        }
        if ac && board_is_enemy(v.board, v.states, p, col) {
            lemma_step_move_ok(v, i, p, Some(p));
        }
        assert(cands_ok(v, sc));
        lemma_cands_ok_concat(v, single_cands(v.board, v.empty, v.states, pos, col, dirs.drop_last(), am, ac), sc);
    }
}

/// The keys of a marker map are squares of markers, so they lie on the board.
pub proof fn lemma_marker_map_keys(markers: Seq<Marker>, states: Seq<PieceState>, kind: MarkerKind)
    requires
        markers_in_bounds(markers),
    ensures
        forall|k: (isize, isize)| #[trigger] marker_map_spec(markers, states, kind).contains_key(k) ==> key_pos(k).in_bounds(),
    decreases markers.len(),
{
    if markers.len() > 0 {
        let pre = markers.drop_last();
        assert forall|j: int| 0 <= j < pre.len() implies (#[trigger] pre[j]).position.in_bounds() by {
            assert(pre[j] == markers[j]);
        }
        lemma_marker_map_keys(pre, states, kind);
        let mk = markers[markers.len() - 1];
        assert(mk.position.in_bounds());
        assert(key_pos(mk.position.key()) == mk.position);
        let m = marker_map_spec(markers, states, kind);
        assert forall|k: (isize, isize)| #[trigger] m.contains_key(k) implies key_pos(k).in_bounds() by {
            if k != mk.position.key() {
                assert(marker_map_spec(pre, states, kind).contains_key(k));
            }
        }
    }
}

/// A capture on a marker square lying on the board can be made.
pub proof fn lemma_marker_at_ok(v: GameView, i: int, p: Position, mm: Map<(isize, isize), (isize, isize)>)
    requires
        piece_on_board(v, i),
        forall|k: (isize, isize)| #[trigger] mm.contains_key(k) ==> key_pos(k).in_bounds(),
    ensures
        cands_ok(v, marker_at_cands(v.board, v.states, v.states[i].position, v.states[i].color, p, mm)),
{
    let pos = v.states[i].position;
    let col = v.states[i].color;
    lemma_own_square(v, i);
    if mm.contains_key(p.key()) && board_is_enemy(v.board, v.states, key_pos(mm[p.key()]), col) {
        assert(key_pos(p.key()) == p);
        lemma_step_move_ok(v, i, p, Some(key_pos(mm[p.key()])));
    }
}

/// The marker captures along single steps can be made.
pub proof fn lemma_marker_cands_ok(v: GameView, i: int, dirs: Seq<Direction>, mm: Map<(isize, isize), (isize, isize)>)
    requires
        piece_on_board(v, i),
        forall|k: (isize, isize)| #[trigger] mm.contains_key(k) ==> key_pos(k).in_bounds(),
    ensures
        cands_ok(v, marker_cands(v.board, v.states, v.states[i].position, v.states[i].color, dirs, mm)),
    decreases dirs.len(),
{
    let pos = v.states[i].position;
    let col = v.states[i].color;
    if dirs.len() > 0 {
        lemma_marker_cands_ok(v, i, dirs.drop_last(), mm);
        lemma_marker_at_ok(v, i, pos.plus(dirs.last()), mm);
        lemma_cands_ok_concat(v, marker_cands(v.board, v.states, pos, col, dirs.drop_last(), mm),
            marker_at_cands(v.board, v.states, pos, col, pos.plus(dirs.last()), mm));
    }
}

/// The moves of a slide can be made.
pub proof fn lemma_ray_cands_ok(v: GameView, i: int, d: Direction, p: Position, fuel: nat, am: bool, ac: bool)
    requires
        piece_on_board(v, i),
    ensures
        cands_ok(v, ray_cands(v.board, v.empty, v.states, v.states[i].position, v.states[i].color, d, p, fuel, am, ac)),
    decreases fuel,
{
    let pos = v.states[i].position;
    let col = v.states[i].color;
    lemma_own_square(v, i);
    if fuel > 0 {
        if board_is_empty(v.board, v.empty, p) {
            lemma_ray_cands_ok(v, i, d, p.plus(d), (fuel - 1) as nat, am, ac);
            lemma_step_move_ok(v, i, p, None);
            let head: Seq<(Position, Move)> = if am { seq![(p, crate::move_generator::step_move(pos, p))] } else { Seq::empty() };
            lemma_cands_ok_concat(v, head, ray_cands(v.board, v.empty, v.states, pos, col, d, p.plus(d), (fuel - 1) as nat, am, ac));
        } else if ac && board_is_enemy(v.board, v.states, p, col) {
            lemma_step_move_ok(v, i, p, Some(p));
        }
    }
}

/// The marker captures of a slide can be made.
pub proof fn lemma_ray_marker_ok(v: GameView, i: int, d: Direction, p: Position, fuel: nat, mm: Map<(isize, isize), (isize, isize)>)
    requires
        piece_on_board(v, i),
        forall|k: (isize, isize)| #[trigger] mm.contains_key(k) ==> key_pos(k).in_bounds(),
    ensures
        cands_ok(v, ray_marker_cands(v.board, v.empty, v.states, v.states[i].position, v.states[i].color, d, p, fuel, mm)),
    decreases fuel,
{
    let pos = v.states[i].position;
    let col = v.states[i].color;
    if fuel > 0 && board_is_empty(v.board, v.empty, p) {
        lemma_ray_marker_ok(v, i, d, p.plus(d), (fuel - 1) as nat, mm);
        lemma_marker_at_ok(v, i, p, mm);
        lemma_cands_ok_concat(v, marker_at_cands(v.board, v.states, pos, col, p, mm),
            ray_marker_cands(v.board, v.empty, v.states, pos, col, d, p.plus(d), (fuel - 1) as nat, mm));
    }
}

/// The slides of the piece `i` can be made.
pub proof fn lemma_sliding_cands_ok(v: GameView, i: int, dirs: Seq<Direction>, am: bool, ac: bool)
    requires
        piece_on_board(v, i),
    ensures
        cands_ok(v, sliding_cands(v.board, v.empty, v.states, v.states[i].position, v.states[i].color, dirs, am, ac)),
    decreases dirs.len(),
{
    let pos = v.states[i].position;
    let col = v.states[i].color;
    if dirs.len() > 0 {
        lemma_sliding_cands_ok(v, i, dirs.drop_last(), am, ac);
        lemma_ray_cands_ok(v, i, dirs.last(), pos.plus(dirs.last()), 8, am, ac);
        lemma_cands_ok_concat(v, sliding_cands(v.board, v.empty, v.states, pos, col, dirs.drop_last(), am, ac),
            ray_cands(v.board, v.empty, v.states, pos, col, dirs.last(), pos.plus(dirs.last()), 8, am, ac));
    }
}

/// The marker captures of the slides of the piece `i` can be made.
pub proof fn lemma_sliding_marker_ok(v: GameView, i: int, dirs: Seq<Direction>, mm: Map<(isize, isize), (isize, isize)>)
    requires
        piece_on_board(v, i),
        forall|k: (isize, isize)| #[trigger] mm.contains_key(k) ==> key_pos(k).in_bounds(),
    ensures
        cands_ok(v, sliding_marker_cands(v.board, v.empty, v.states, v.states[i].position, v.states[i].color, dirs, mm)),
    decreases dirs.len(),
{
    let pos = v.states[i].position;
    let col = v.states[i].color;
    if dirs.len() > 0 {
        lemma_sliding_marker_ok(v, i, dirs.drop_last(), mm);
        lemma_ray_marker_ok(v, i, dirs.last(), pos.plus(dirs.last()), 8, mm);
        lemma_cands_ok_concat(v, sliding_marker_cands(v.board, v.empty, v.states, pos, col, dirs.drop_last(), mm),
            ray_marker_cands(v.board, v.empty, v.states, pos, col, dirs.last(), pos.plus(dirs.last()), 8, mm));
    }
}

/// Eight or more unit steps from a square of the board leave the board.
pub proof fn lemma_unit_far(pos: Position, d: Direction, k: int)
    requires
        pos.in_bounds(),
        d.is_unit(),
        8 <= k <= 16,
    ensures
        !pos.plus_times(d, k).in_bounds(),
{
    if d.drank == 1 || d.drank == -1 {
        assert(k * d.drank == k || k * d.drank == -k) by (nonlinear_arith)
            requires
                d.drank == 1 || d.drank == -1;
    } else {
        assert(k * d.dfile == k || k * d.dfile == -k) by (nonlinear_arith)
            requires
                d.dfile == 1 || d.dfile == -1;
    }
    assert(-16 <= k * d.drank <= 16) by (nonlinear_arith)
        requires
            -1 <= d.drank <= 1,
            0 <= k <= 16;
    assert(-16 <= k * d.dfile <= 16) by (nonlinear_arith)
        requires
            -1 <= d.dfile <= 1,
            0 <= k <= 16;
}

/// A slide ends `k` steps out, and every square before that is empty.
pub proof fn lemma_slide_end_shape(b: Seq<u64>, e: u64, p0: Position, d: Direction, k0: int, fuel: nat) -> (k: int)
    requires
        p0.in_bounds(),
        -1 <= d.drank <= 1,
        -1 <= d.dfile <= 1,
        0 <= k0,
        k0 + fuel <= 16,
    ensures
        k0 <= k <= k0 + fuel,
        slide_end(b, e, p0.plus_times(d, k0), d, fuel) == p0.plus_times(d, k),
    decreases fuel,
{
    p0.lemma_plus_times_next(d, k0);
    if fuel == 0 || !board_is_empty(b, e, p0.plus_times(d, k0)) {
        k0
    } else {
        lemma_slide_end_shape(b, e, p0, d, k0 + 1, (fuel - 1) as nat)
    }
}

/// `k` unit steps from a square differ from `j` unit steps, for `j != k`.
pub proof fn lemma_unit_steps_distinct(pos: Position, d: Direction, j: int, k: int)
    requires
        pos.in_bounds(),
        d.is_unit(),
        0 <= j <= 16,
        0 <= k <= 16,
        j != k,
    ensures
        pos.plus_times(d, j) != pos.plus_times(d, k),
{
    assert(-16 <= k * d.drank <= 16 && -16 <= j * d.drank <= 16) by (nonlinear_arith)
        requires
            -1 <= d.drank <= 1,
            0 <= k <= 16,
            0 <= j <= 16;
    assert(-16 <= k * d.dfile <= 16 && -16 <= j * d.dfile <= 16) by (nonlinear_arith)
        requires
            -1 <= d.dfile <= 1,
            0 <= k <= 16,
            0 <= j <= 16;
    if d.drank != 0 {
        assert(j * d.drank != k * d.drank) by (nonlinear_arith)
            requires
                d.drank != 0,
                j != k;
    } else {
        assert(j * d.dfile != k * d.dfile) by (nonlinear_arith)
            requires
                d.dfile != 0,
                j != k;
    }
}

/// The castling target of the king `i` with the piece `j`, when it is offered.
pub open spec fn castle_target_ok(v: GameView, i: int, j: int) -> bool {
    castle_cand(v, i, j).len() > 0 ==> castle_cand(v, i, j)[0].0.in_bounds()
}

/// Every castling the king `i` is offered ends on the board.
pub open spec fn castle_targets_ok(v: GameView, i: int) -> bool {
    forall|j: int| 0 <= j < v.states.len() ==> #[trigger] castle_target_ok(v, i, j)
}

/// A castling that ends on the board can be made.
pub proof fn lemma_castle_cand_ok(v: GameView, i: int, j: int)
    requires
        piece_on_board(v, i),
        v.rules[i].castle_top,
        0 <= j < v.states.len(),
        castle_target_ok(v, i, j),
    ensures
        cands_ok(v, castle_cand(v, i, j)),
{
    let king = v.states[i];
    let rook = v.states[j];
    let pos = king.position;
    let d = toward(pos, rook.position);
    let q = slide_end(v.board, v.empty, pos.plus(d), d, 8);
    lemma_own_square(v, i);
    assert(rook.position.in_bounds());
    if castle_cand(v, i, j).len() > 0 {
        assert(v.rules[j].castle_bottom);
        assert(v.rules[i].wf());
        assert(i != j);
        pos.lemma_plus_times_next(d, 0);
        let k = lemma_slide_end_shape(v.board, v.empty, pos, d, 1, 8);
        assert(q == pos.plus_times(d, k));
        assert(board_at(v.board, q) == rook.id);
        // the castle piece stands on `q`
        lemma_index_of(v.states, j);
        assert(rook.id != v.empty) by {
            if rook.id == v.empty {
                assert(has_id(v.states, v.empty));
            }
        }
        assert(rook.position == q && !rook.captured);
        // the step is a unit step
        if d.drank == 0 && d.dfile == 0 {
            assert(q == pos);
            lemma_index_of(v.states, i);
            assert(false);
        }
        assert(d.is_unit());
        if k >= 8 {
            lemma_unit_far(pos, d, k);
        }
        assert(1 <= k < 8);
        let to = pos.plus_times(d, 2);
        let km = crate::moves::NormalMove { from: pos, to };
        let rm = crate::moves::NormalMove { from: rook.position, to: pos.plus(d) };
        let m = castle_cand(v, i, j)[0].1;
        assert(m.move_type == MoveType::Castle(km, rm));
        assert(m.capture.is_none());
        // the king's move has the castling shape
        lemma_unit_steps_distinct(pos, d, 0, 2);
        pos.lemma_plus_times_next(d, 0);
        assert(castle_dir(km) == d) by {
            assert(-2 <= 2 * d.drank <= 2);
        }
        assert(crate::piece_moved::castle_steps(km) == 2);
        assert(castle_shape(km));
        // the castle piece's move, after the king's
        lemma_between_in_bounds(pos, d, k, 1);
        let ms = castle_markers(km, at(v, pos));
        let v0 = add_future(v, ms);
        lemma_do_move_effect(v0, at(v0, pos), pos, to, None, false);
        let v1 = normal_spec(v0, km, None, false);
        lemma_unit_steps_distinct(pos, d, 0, k);
        pos.lemma_plus_times_next(d, 0);
        assert(q != pos);
        assert(at(v1, q) != v1.empty);
        assert(move_ok(v, m));
    }
}

/// The castlings of the king `i` that end on the board can be made.
pub proof fn lemma_castle_cands_ok(v: GameView, i: int, n: int)
    requires
        piece_on_board(v, i),
        v.rules[i].castle_top,
        n <= v.states.len(),
        castle_targets_ok(v, i),
    ensures
        cands_ok(v, castle_cands_upto(v, i, n)),
    decreases n,
{
    if n > 0 {
        lemma_castle_cands_ok(v, i, n - 1);
        assert(castle_target_ok(v, i, n - 1));
        lemma_castle_cand_ok(v, i, n - 1);
        lemma_cands_ok_concat(v, castle_cands_upto(v, i, n - 1), castle_cand(v, i, n - 1));
    }
}

/// The double step of a pawn can be made.
pub proof fn lemma_pawn_cands_ok(v: GameView, i: int, d: Direction)
    requires
        piece_on_board(v, i),
    ensures
        cands_ok(v, pawn_cands(v, i, d)),
{
    let pos = v.states[i].position;
    let p2 = pos.plus_times(d, 2);
    if !(v.states[i].has_moved || !board_is_empty(v.board, v.empty, pos.plus(d)) || !board_is_empty(v.board, v.empty, p2)) {
        lemma_own_square(v, i);
        let c = pawn_cands(v, i, d);
        assert(move_ok(v, c[0].1));
    }
}

} // verus!

verus! {

/// Every move the piece `i` is offered can be made (castlings: when they end on the board).
pub proof fn lemma_gen_moves_ok(v: GameView, i: int, selected: bool)
    requires
        piece_on_board(v, i),
        selected && v.rules[i].castle_top ==> castle_targets_ok(v, i),
    ensures
        cands_ok(v, gen_cands(v, i, selected)),
        map_ok(v, gen_moves(v, i, selected)),
{
    let st = v.states[i];
    let r = v.rules[i];
    let pos = st.position;
    let col = st.color;
    let ep = r.captures_en_passant;
    let b = v.board;
    let e = v.empty;
    let s = v.states;
    lemma_marker_map_keys(v.current, s, MarkerKind::Castle);
    lemma_marker_map_keys(v.current, s, MarkerKind::EnPassant);
    let cm = marker_map_spec(v.current, s, MarkerKind::Castle);
    let em = marker_map_spec(v.current, s, MarkerKind::EnPassant);
    let empty: Seq<(Position, Move)> = Seq::empty();
    assert(cands_ok(v, empty));
    let move_only = match r.move_only { Some(g) => single_cands(b, e, s, pos, col, g.0.0@, true, false), None => empty };
    if let Some(g) = r.move_only { lemma_single_cands_ok(v, i, g.0.0@, true, false); }
    let capture_only = match r.capture_only { Some(g) => single_cands(b, e, s, pos, col, g.0.0@, false, true), None => empty };
    if let Some(g) = r.capture_only { lemma_single_cands_ok(v, i, g.0.0@, false, true); }
    let single = match r.single { Some(g) => single_cands(b, e, s, pos, col, g.0@, true, true), None => empty };
    if let Some(g) = r.single { lemma_single_cands_ok(v, i, g.0@, true, true); }
    let capture_only_markers = match r.capture_only { Some(g) => single_marker_all(v, pos, col, g.0.0@, ep), None => empty };
    if let Some(g) = r.capture_only {
        lemma_marker_cands_ok(v, i, g.0.0@, cm);
        lemma_marker_cands_ok(v, i, g.0.0@, em);
        lemma_cands_ok_concat(v, marker_cands(b, s, pos, col, g.0.0@, cm), if ep { marker_cands(b, s, pos, col, g.0.0@, em) } else { empty });
    }
    let single_markers = match r.single { Some(g) => single_marker_all(v, pos, col, g.0@, ep), None => empty };
    if let Some(g) = r.single {
        lemma_marker_cands_ok(v, i, g.0@, cm);
        lemma_marker_cands_ok(v, i, g.0@, em);
        lemma_cands_ok_concat(v, marker_cands(b, s, pos, col, g.0@, cm), if ep { marker_cands(b, s, pos, col, g.0@, em) } else { empty });
    }
    let sliding = match r.sliding { Some(g) => sliding_cands(b, e, s, pos, col, g.0@, true, true) + sliding_marker_all(v, pos, col, g.0@, ep), None => empty };
    if let Some(g) = r.sliding {
        lemma_sliding_cands_ok(v, i, g.0@, true, true);
        lemma_sliding_marker_ok(v, i, g.0@, cm);
        lemma_sliding_marker_ok(v, i, g.0@, em);
        let p1 = sliding_marker_cands(b, e, s, pos, col, g.0@, cm);
        let p2 = if ep { sliding_marker_cands(b, e, s, pos, col, g.0@, em) } else { empty };
        lemma_cands_ok_concat(v, p1, p2);
        lemma_cands_ok_concat(v, sliding_cands(b, e, s, pos, col, g.0@, true, true), p1 + p2);
    }
    let castling = if selected && r.castle_top { castle_cands_upto(v, i, s.len() as int) } else { empty };
    if selected && r.castle_top { lemma_castle_cands_ok(v, i, s.len() as int); }
    let pawn = match r.double_pawn { Some(g) => pawn_cands(v, i, g.0), None => empty };
    if let Some(g) = r.double_pawn { lemma_pawn_cands_ok(v, i, g.0); }
    lemma_cands_ok_concat(v, move_only, capture_only);
    lemma_cands_ok_concat(v, move_only + capture_only, single);
    lemma_cands_ok_concat(v, move_only + capture_only + single, capture_only_markers);
    lemma_cands_ok_concat(v, move_only + capture_only + single + capture_only_markers, single_markers);
    lemma_cands_ok_concat(v, move_only + capture_only + single + capture_only_markers + single_markers, sliding);
    lemma_cands_ok_concat(v, move_only + capture_only + single + capture_only_markers + single_markers + sliding, castling);
    lemma_cands_ok_concat(v, move_only + capture_only + single + capture_only_markers + single_markers + sliding + castling, pawn);
    assert(gen_cands(v, i, selected) == move_only + capture_only + single + capture_only_markers + single_markers + sliding + castling + pawn);
    lemma_insert_all_ok(v, no_moves(), gen_cands(v, i, selected));
}

} // verus!
