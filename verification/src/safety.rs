use vstd::prelude::*;

use crate::board::{board_at, board_is_empty, board_is_enemy};
use crate::checks::{attacks_square, in_check, is_check_detector, is_enemy_piece, is_legal, lemma_apply_ignores_past, legal_moves_spec};
use crate::direction::Direction;
use crate::game::{at, board_sync, view_wf, GameView};
use crate::legality::{castle_targets_ok, lemma_gen_moves_ok, lemma_own_square, piece_on_board};
use crate::piece_moved::{
    add_future, advance_spec, apply_move_spec, castle_markers, en_passant_marker, lemma_add_future_wf, lemma_apply_move_wf,
    lemma_castle_markers_in_bounds, midpoint, move_ok, normal_spec,
};
use crate::markers::MarkerKind;
use crate::move_generator::{
    castle_cand, castle_cands_upto, gen_cands, gen_moves, marker_at_cands, marker_cands, marker_map_spec, pawn_cands,
    ray_cands, ray_marker_cands, single_cands, single_marker_all, sliding_cands, sliding_marker_all,
    sliding_marker_cands, step_cands,
};
use crate::moves::{insert_all, no_moves, Move, MoveType};
use crate::pieces::{color_of, has_id, index_of, lemma_index_of, PieceColor, PieceState};
use crate::position::Position;

verus! {

/// Every candidate is a move of one piece from `pos`.
pub open spec fn all_from(cands: Seq<(Position, Move)>, pos: Position) -> bool {
    forall|j: int| 0 <= j < cands.len() ==>
        ((#[trigger] cands[j]).1.move_type matches MoveType::Normal(nm) && nm.from == pos)
}

/// Candidates from `pos`, concatenated.
pub proof fn lemma_all_from_concat(a: Seq<(Position, Move)>, b: Seq<(Position, Move)>, pos: Position)
    requires
        all_from(a, pos),
        all_from(b, pos),
    ensures
        all_from(a + b, pos),
{
    assert forall|j: int| 0 <= j < (a + b).len() implies
        ((#[trigger] (a + b)[j]).1.move_type matches MoveType::Normal(nm) && nm.from == pos) by {
        if j < a.len() {
            assert((a + b)[j] == a[j]);
        } else {
            assert((a + b)[j] == b[j - a.len()]);
        }
    }
}

/// The single steps from `pos` are moves from `pos`.
pub proof fn lemma_single_from(b: Seq<u64>, e: u64, s: Seq<PieceState>, pos: Position, col: PieceColor, dirs: Seq<Direction>, am: bool, ac: bool)
    ensures
        all_from(single_cands(b, e, s, pos, col, dirs, am, ac), pos),
    decreases dirs.len(),
{
    if dirs.len() > 0 {
        lemma_single_from(b, e, s, pos, col, dirs.drop_last(), am, ac);
        let d = dirs.last();
        let p = pos.plus(d);
        let m1: Seq<(Position, Move)> = if am && board_is_empty(b, e, p) { seq![(p, crate::move_generator::step_move(pos, p))] } else { Seq::empty() };
        let m2: Seq<(Position, Move)> = if ac && board_is_enemy(b, s, p, col) { seq![(p, crate::move_generator::step_capture(pos, p, p))] } else { Seq::empty() };
        assert(all_from(m1, pos));
        assert(all_from(m2, pos));
        lemma_all_from_concat(m1, m2, pos);
        assert(step_cands(b, e, s, pos, col, d, am, ac) == m1 + m2);
        lemma_all_from_concat(single_cands(b, e, s, pos, col, dirs.drop_last(), am, ac), m1 + m2, pos);
    }
}

/// The marker captures along single steps from `pos` are moves from `pos`.
pub proof fn lemma_marker_from(b: Seq<u64>, s: Seq<PieceState>, pos: Position, col: PieceColor, dirs: Seq<Direction>, mm: Map<(isize, isize), (isize, isize)>)
    ensures
        all_from(marker_cands(b, s, pos, col, dirs, mm), pos),
    decreases dirs.len(),
{
    if dirs.len() > 0 {
        lemma_marker_from(b, s, pos, col, dirs.drop_last(), mm);
        let mc = marker_at_cands(b, s, pos, col, pos.plus(dirs.last()), mm);
        assert(all_from(mc, pos));
        lemma_all_from_concat(marker_cands(b, s, pos, col, dirs.drop_last(), mm), mc, pos);
    }
}

/// The moves of a slide from `pos` are moves from `pos`.
pub proof fn lemma_ray_from(b: Seq<u64>, e: u64, s: Seq<PieceState>, pos: Position, col: PieceColor, d: Direction, p: Position, fuel: nat, am: bool, ac: bool)
    ensures
        all_from(ray_cands(b, e, s, pos, col, d, p, fuel, am, ac), pos),
    decreases fuel,
{
    if fuel > 0 && board_is_empty(b, e, p) {
        lemma_ray_from(b, e, s, pos, col, d, p.plus(d), (fuel - 1) as nat, am, ac);
        let head: Seq<(Position, Move)> = if am { seq![(p, crate::move_generator::step_move(pos, p))] } else { Seq::empty() };
        assert(all_from(head, pos));
        lemma_all_from_concat(head, ray_cands(b, e, s, pos, col, d, p.plus(d), (fuel - 1) as nat, am, ac), pos);
    }
}

/// The slides from `pos` are moves from `pos`.
pub proof fn lemma_sliding_from(b: Seq<u64>, e: u64, s: Seq<PieceState>, pos: Position, col: PieceColor, dirs: Seq<Direction>, am: bool, ac: bool)
    ensures
        all_from(sliding_cands(b, e, s, pos, col, dirs, am, ac), pos),
    decreases dirs.len(),
{
    if dirs.len() > 0 {
        lemma_sliding_from(b, e, s, pos, col, dirs.drop_last(), am, ac);
        lemma_ray_from(b, e, s, pos, col, dirs.last(), pos.plus(dirs.last()), 8, am, ac);
        lemma_all_from_concat(sliding_cands(b, e, s, pos, col, dirs.drop_last(), am, ac),
            ray_cands(b, e, s, pos, col, dirs.last(), pos.plus(dirs.last()), 8, am, ac), pos);
    }
}

/// The marker captures of a slide from `pos` are moves from `pos`.
pub proof fn lemma_ray_marker_from(b: Seq<u64>, e: u64, s: Seq<PieceState>, pos: Position, col: PieceColor, d: Direction, p: Position, fuel: nat, mm: Map<(isize, isize), (isize, isize)>)
    ensures
        all_from(ray_marker_cands(b, e, s, pos, col, d, p, fuel, mm), pos),
    decreases fuel,
{
    if fuel > 0 && board_is_empty(b, e, p) {
        lemma_ray_marker_from(b, e, s, pos, col, d, p.plus(d), (fuel - 1) as nat, mm);
        let mc = marker_at_cands(b, s, pos, col, p, mm);
        assert(all_from(mc, pos));
        lemma_all_from_concat(mc, ray_marker_cands(b, e, s, pos, col, d, p.plus(d), (fuel - 1) as nat, mm), pos);
    }
}

/// The marker captures of the slides from `pos` are moves from `pos`.
pub proof fn lemma_sliding_marker_from(b: Seq<u64>, e: u64, s: Seq<PieceState>, pos: Position, col: PieceColor, dirs: Seq<Direction>, mm: Map<(isize, isize), (isize, isize)>)
    ensures
        all_from(sliding_marker_cands(b, e, s, pos, col, dirs, mm), pos),
    decreases dirs.len(),
{
    if dirs.len() > 0 {
        lemma_sliding_marker_from(b, e, s, pos, col, dirs.drop_last(), mm);
        lemma_ray_marker_from(b, e, s, pos, col, dirs.last(), pos.plus(dirs.last()), 8, mm);
        lemma_all_from_concat(sliding_marker_cands(b, e, s, pos, col, dirs.drop_last(), mm),
            ray_marker_cands(b, e, s, pos, col, dirs.last(), pos.plus(dirs.last()), 8, mm), pos);
    }
}

/// The move is made by the piece `i`: it leaves the piece's square; a castling
/// captures nothing and also moves a piece of the same color from another square.
pub open spec fn moved_by(v: GameView, i: int, m: Move) -> bool {
    let pos = v.states[i].position;
    match m.move_type {
        MoveType::Normal(nm) => nm.from == pos,
        MoveType::DoublePawn(nm) => nm.from == pos,
        MoveType::Castle(k, r) => {
            &&& k.from == pos
            &&& r.from != pos
            &&& m.capture.is_none()
            &&& color_of(v.states, at(v, r.from)) == Some(v.states[i].color)
        },
    }
}

/// Every candidate is made by the piece `i`.
pub open spec fn cands_by(v: GameView, i: int, cands: Seq<(Position, Move)>) -> bool {
    forall|j: int| 0 <= j < cands.len() ==> moved_by(v, i, (#[trigger] cands[j]).1)
}

/// Every move of the map is made by the piece `i`.
pub open spec fn map_by(v: GameView, i: int, m: Map<(isize, isize), Move>) -> bool {
    forall|k: (isize, isize)| #[trigger] m.contains_key(k) ==> moved_by(v, i, m[k])
}

/// Candidates from the square of the piece `i` are made by it.
pub proof fn lemma_from_by(v: GameView, i: int, cands: Seq<(Position, Move)>)
    requires
        all_from(cands, v.states[i].position),
    ensures
        cands_by(v, i, cands),
{
    assert forall|j: int| 0 <= j < cands.len() implies moved_by(v, i, (#[trigger] cands[j]).1) by {
        assert(cands[j].1.move_type matches MoveType::Normal(nm) && nm.from == v.states[i].position);
    }
}

/// Candidates made by the piece `i`, concatenated.
pub proof fn lemma_cands_by_concat(v: GameView, i: int, a: Seq<(Position, Move)>, b: Seq<(Position, Move)>)
    requires
        cands_by(v, i, a),
        cands_by(v, i, b),
    ensures
        cands_by(v, i, a + b),
{
    assert forall|j: int| 0 <= j < (a + b).len() implies moved_by(v, i, (#[trigger] (a + b)[j]).1) by {
        if j < a.len() {
            assert((a + b)[j] == a[j]);
        } else {
            assert((a + b)[j] == b[j - a.len()]);
        }
    }
}

/// Offering candidates made by the piece `i` keeps a map of its moves.
pub proof fn lemma_insert_all_by(v: GameView, i: int, m: Map<(isize, isize), Move>, cands: Seq<(Position, Move)>)
    requires
        map_by(v, i, m),
        cands_by(v, i, cands),
    ensures
        map_by(v, i, insert_all(m, cands)),
    decreases cands.len(),
{
    if cands.len() > 0 {
        let pre = cands.drop_last();
        assert forall|j: int| 0 <= j < pre.len() implies moved_by(v, i, (#[trigger] pre[j]).1) by {
            assert(pre[j] == cands[j]);
        }
        lemma_insert_all_by(v, i, m, pre);
        assert(moved_by(v, i, cands[cands.len() - 1].1));
    }
}

/// The castlings of the king `i` are made by it, with a castle piece of its color.
pub proof fn lemma_castle_cands_by(v: GameView, i: int, n: int)
    requires
        piece_on_board(v, i),
        v.rules[i].castle_top,
        n <= v.states.len(),
    ensures
        cands_by(v, i, castle_cands_upto(v, i, n)),
    decreases n,
{
    if n > 0 {
        lemma_castle_cands_by(v, i, n - 1);
        let j = n - 1;
        let c = castle_cand(v, i, j);
        if c.len() > 0 {
            let king = v.states[i];
            let rook = v.states[j];
            assert(v.rules[j].castle_bottom);
            assert(v.rules[i].wf());
            assert(i != j);
            lemma_own_square(v, i);
            lemma_index_of(v.states, i);
            lemma_index_of(v.states, j);
            let d = crate::move_generator::toward(king.position, rook.position);
            let q = crate::move_generator::slide_end(v.board, v.empty, king.position.plus(d), d, 8);
            assert(board_at(v.board, q) == rook.id);
            assert(rook.id != v.empty) by {
                if rook.id == v.empty {
                    assert(has_id(v.states, v.empty));
                }
            }
            assert(rook.position == q);
            assert(king.id != rook.id);
            assert(color_of(v.states, rook.id) == Some(rook.color));
            assert(moved_by(v, i, c[0].1));
        }
        assert(cands_by(v, i, c));
        lemma_cands_by_concat(v, i, castle_cands_upto(v, i, n - 1), c);
    }
}

/// Every move the piece `i` is offered is made by it.
pub proof fn lemma_gen_moves_by(v: GameView, i: int, selected: bool)
    requires
        piece_on_board(v, i),
    ensures
        map_by(v, i, gen_moves(v, i, selected)),
{
    let st = v.states[i];
    let r = v.rules[i];
    let pos = st.position;
    let col = st.color;
    let ep = r.captures_en_passant;
    let b = v.board;
    let e = v.empty;
    let s = v.states;
    let cm = marker_map_spec(v.current, s, MarkerKind::Castle);
    let em = marker_map_spec(v.current, s, MarkerKind::EnPassant);
    let empty: Seq<(Position, Move)> = Seq::empty();
    assert(all_from(empty, pos));
    let move_only = match r.move_only { Some(g) => single_cands(b, e, s, pos, col, g.0.0@, true, false), None => empty };
    if let Some(g) = r.move_only { lemma_single_from(b, e, s, pos, col, g.0.0@, true, false); }
    let capture_only = match r.capture_only { Some(g) => single_cands(b, e, s, pos, col, g.0.0@, false, true), None => empty };
    if let Some(g) = r.capture_only { lemma_single_from(b, e, s, pos, col, g.0.0@, false, true); }
    let single = match r.single { Some(g) => single_cands(b, e, s, pos, col, g.0@, true, true), None => empty };
    if let Some(g) = r.single { lemma_single_from(b, e, s, pos, col, g.0@, true, true); }
    let capture_only_markers = match r.capture_only { Some(g) => single_marker_all(v, pos, col, g.0.0@, ep), None => empty };
    if let Some(g) = r.capture_only {
        lemma_marker_from(b, s, pos, col, g.0.0@, cm);
        lemma_marker_from(b, s, pos, col, g.0.0@, em);
        lemma_all_from_concat(marker_cands(b, s, pos, col, g.0.0@, cm), if ep { marker_cands(b, s, pos, col, g.0.0@, em) } else { empty }, pos);
    }
    let single_markers = match r.single { Some(g) => single_marker_all(v, pos, col, g.0@, ep), None => empty };
    if let Some(g) = r.single {
        lemma_marker_from(b, s, pos, col, g.0@, cm);
        lemma_marker_from(b, s, pos, col, g.0@, em);
        lemma_all_from_concat(marker_cands(b, s, pos, col, g.0@, cm), if ep { marker_cands(b, s, pos, col, g.0@, em) } else { empty }, pos);
    }
    let sliding = match r.sliding { Some(g) => sliding_cands(b, e, s, pos, col, g.0@, true, true) + sliding_marker_all(v, pos, col, g.0@, ep), None => empty };
    if let Some(g) = r.sliding {
        lemma_sliding_from(b, e, s, pos, col, g.0@, true, true);
        lemma_sliding_marker_from(b, e, s, pos, col, g.0@, cm);
        lemma_sliding_marker_from(b, e, s, pos, col, g.0@, em);
        let p1 = sliding_marker_cands(b, e, s, pos, col, g.0@, cm);
        let p2 = if ep { sliding_marker_cands(b, e, s, pos, col, g.0@, em) } else { empty };
        lemma_all_from_concat(p1, p2, pos);
        lemma_all_from_concat(sliding_cands(b, e, s, pos, col, g.0@, true, true), p1 + p2, pos);
    }
    let steps = move_only + capture_only + single + capture_only_markers + single_markers + sliding;
    lemma_all_from_concat(move_only, capture_only, pos);
    lemma_all_from_concat(move_only + capture_only, single, pos);
    lemma_all_from_concat(move_only + capture_only + single, capture_only_markers, pos);
    lemma_all_from_concat(move_only + capture_only + single + capture_only_markers, single_markers, pos);
    lemma_all_from_concat(move_only + capture_only + single + capture_only_markers + single_markers, sliding, pos);
    lemma_from_by(v, i, steps);
    let castling = if selected && r.castle_top { castle_cands_upto(v, i, s.len() as int) } else { empty };
    if selected && r.castle_top {
        lemma_castle_cands_by(v, i, s.len() as int);
    } else {
        lemma_from_by(v, i, empty);
    }
    let pawn = match r.double_pawn { Some(g) => pawn_cands(v, i, g.0), None => empty };
    assert(cands_by(v, i, pawn)) by {
        if let Some(g) = r.double_pawn {
            if pawn.len() > 0 {
                assert(moved_by(v, i, pawn[0].1));
            }
        }
    }
    lemma_cands_by_concat(v, i, steps, castling);
    lemma_cands_by_concat(v, i, steps + castling, pawn);
    assert(gen_cands(v, i, selected) == steps + castling + pawn);
    lemma_insert_all_by(v, i, no_moves(), gen_cands(v, i, selected));
}

/// Two lists of piece states that agree in everything but whether pieces have moved.
pub open spec fn same_but_moved(s1: Seq<PieceState>, s2: Seq<PieceState>) -> bool {
    &&& s1.len() == s2.len()
    &&& forall|j: int| 0 <= j < s1.len() ==> (#[trigger] s1[j]) == (PieceState { has_moved: s1[j].has_moved, ..s2[j] })
}

/// Such lists find the same pieces, with the same colors and squares.
pub proof fn lemma_same_lookup(s1: Seq<PieceState>, s2: Seq<PieceState>)
    requires
        same_but_moved(s1, s2),
        crate::pieces::ids_unique(s1),
    ensures
        crate::pieces::ids_unique(s2),
        forall|id: u64| #[trigger] has_id(s1, id) == has_id(s2, id),
        forall|id: u64| #[trigger] index_of(s1, id) == index_of(s2, id),
        forall|id: u64| #[trigger] color_of(s1, id) == color_of(s2, id),
        forall|id: u64| has_id(s1, id) ==> #[trigger] s1[index_of(s1, id)].position == s2[index_of(s2, id)].position,
{
    assert forall|a: int, b: int| 0 <= a < s2.len() && 0 <= b < s2.len() && a != b
        implies (#[trigger] s2[a]).id != (#[trigger] s2[b]).id by {
        assert(s1[a].id == s2[a].id && s1[b].id == s2[b].id);
    }
    assert forall|id: u64| #[trigger] has_id(s1, id) == has_id(s2, id) by {
        if has_id(s1, id) {
            let j = choose|j: int| 0 <= j < s1.len() && (#[trigger] s1[j]).id == id;
            assert(s2[j].id == id);
        }
        if has_id(s2, id) {
            let j = choose|j: int| 0 <= j < s2.len() && (#[trigger] s2[j]).id == id;
            assert(s1[j].id == id);
        }
    }
    assert forall|id: u64| #[trigger] index_of(s1, id) == index_of(s2, id) by {
        if has_id(s1, id) {
            crate::pieces::lemma_index_of_range(s1, id);
            let j = index_of(s1, id);
            assert(s2[j].id == id);
            lemma_index_of(s2, j);
        }
    }
    assert forall|id: u64| #[trigger] color_of(s1, id) == color_of(s2, id) by {
        if has_id(s1, id) {
            crate::pieces::lemma_index_of_range(s1, id);
            let j = index_of(s1, id);
            assert(s1[j].color == s2[j].color);
        }
    }
    assert forall|id: u64| has_id(s1, id) implies #[trigger] s1[index_of(s1, id)].position == s2[index_of(s2, id)].position by {
        crate::pieces::lemma_index_of_range(s1, id);
        let j = index_of(s1, id);
        assert(s1[j].position == s2[j].position);
    }
}

/// Single steps look at the pieces only through their colors.
pub proof fn lemma_single_same(b: Seq<u64>, e: u64, s1: Seq<PieceState>, s2: Seq<PieceState>, pos: Position, col: PieceColor, dirs: Seq<Direction>, am: bool, ac: bool)
    requires
        forall|id: u64| #[trigger] color_of(s1, id) == color_of(s2, id),
    ensures
        single_cands(b, e, s1, pos, col, dirs, am, ac) == single_cands(b, e, s2, pos, col, dirs, am, ac),
    decreases dirs.len(),
{
    if dirs.len() > 0 {
        lemma_single_same(b, e, s1, s2, pos, col, dirs.drop_last(), am, ac);
        let p = pos.plus(dirs.last());
        assert(color_of(s1, board_at(b, p)) == color_of(s2, board_at(b, p)));
    }
}

/// Marker captures along single steps look at the pieces only through their colors.
pub proof fn lemma_marker_same(b: Seq<u64>, s1: Seq<PieceState>, s2: Seq<PieceState>, pos: Position, col: PieceColor, dirs: Seq<Direction>, mm: Map<(isize, isize), (isize, isize)>)
    requires
        forall|id: u64| #[trigger] color_of(s1, id) == color_of(s2, id),
    ensures
        marker_cands(b, s1, pos, col, dirs, mm) == marker_cands(b, s2, pos, col, dirs, mm),
    decreases dirs.len(),
{
    if dirs.len() > 0 {
        lemma_marker_same(b, s1, s2, pos, col, dirs.drop_last(), mm);
        let p = pos.plus(dirs.last());
        if mm.contains_key(p.key()) {
            let q = crate::move_generator::key_pos(mm[p.key()]);
            assert(color_of(s1, board_at(b, q)) == color_of(s2, board_at(b, q)));
        }
    }
}

/// Slides look at the pieces only through their colors.
pub proof fn lemma_ray_same(b: Seq<u64>, e: u64, s1: Seq<PieceState>, s2: Seq<PieceState>, pos: Position, col: PieceColor, d: Direction, p: Position, fuel: nat, am: bool, ac: bool)
    requires
        forall|id: u64| #[trigger] color_of(s1, id) == color_of(s2, id),
    ensures
        ray_cands(b, e, s1, pos, col, d, p, fuel, am, ac) == ray_cands(b, e, s2, pos, col, d, p, fuel, am, ac),
    decreases fuel,
{
    if fuel > 0 {
        lemma_ray_same(b, e, s1, s2, pos, col, d, p.plus(d), (fuel - 1) as nat, am, ac);
        assert(color_of(s1, board_at(b, p)) == color_of(s2, board_at(b, p)));
    }
}

/// Slides along several directions look at the pieces only through their colors.
pub proof fn lemma_sliding_same(b: Seq<u64>, e: u64, s1: Seq<PieceState>, s2: Seq<PieceState>, pos: Position, col: PieceColor, dirs: Seq<Direction>, am: bool, ac: bool)
    requires
        forall|id: u64| #[trigger] color_of(s1, id) == color_of(s2, id),
    ensures
        sliding_cands(b, e, s1, pos, col, dirs, am, ac) == sliding_cands(b, e, s2, pos, col, dirs, am, ac),
    decreases dirs.len(),
{
    if dirs.len() > 0 {
        lemma_sliding_same(b, e, s1, s2, pos, col, dirs.drop_last(), am, ac);
        lemma_ray_same(b, e, s1, s2, pos, col, dirs.last(), pos.plus(dirs.last()), 8, am, ac);
    }
}

/// Marker captures of a slide look at the pieces only through their colors.
pub proof fn lemma_ray_marker_same(b: Seq<u64>, e: u64, s1: Seq<PieceState>, s2: Seq<PieceState>, pos: Position, col: PieceColor, d: Direction, p: Position, fuel: nat, mm: Map<(isize, isize), (isize, isize)>)
    requires
        forall|id: u64| #[trigger] color_of(s1, id) == color_of(s2, id),
    ensures
        ray_marker_cands(b, e, s1, pos, col, d, p, fuel, mm) == ray_marker_cands(b, e, s2, pos, col, d, p, fuel, mm),
    decreases fuel,
{
    if fuel > 0 {
        lemma_ray_marker_same(b, e, s1, s2, pos, col, d, p.plus(d), (fuel - 1) as nat, mm);
        if mm.contains_key(p.key()) {
            let q = crate::move_generator::key_pos(mm[p.key()]);
            assert(color_of(s1, board_at(b, q)) == color_of(s2, board_at(b, q)));
        }
    }
}

/// Marker captures of slides look at the pieces only through their colors.
pub proof fn lemma_sliding_marker_same(b: Seq<u64>, e: u64, s1: Seq<PieceState>, s2: Seq<PieceState>, pos: Position, col: PieceColor, dirs: Seq<Direction>, mm: Map<(isize, isize), (isize, isize)>)
    requires
        forall|id: u64| #[trigger] color_of(s1, id) == color_of(s2, id),
    ensures
        sliding_marker_cands(b, e, s1, pos, col, dirs, mm) == sliding_marker_cands(b, e, s2, pos, col, dirs, mm),
    decreases dirs.len(),
{
    if dirs.len() > 0 {
        lemma_sliding_marker_same(b, e, s1, s2, pos, col, dirs.drop_last(), mm);
        lemma_ray_marker_same(b, e, s1, s2, pos, col, dirs.last(), pos.plus(dirs.last()), 8, mm);
    }
}

/// Marker maps look at the pieces only through their ids and squares.
pub proof fn lemma_marker_map_same(markers: Seq<crate::markers::Marker>, s1: Seq<PieceState>, s2: Seq<PieceState>, kind: MarkerKind)
    requires
        forall|id: u64| #[trigger] has_id(s1, id) == has_id(s2, id),
        forall|id: u64| has_id(s1, id) ==> #[trigger] s1[index_of(s1, id)].position == s2[index_of(s2, id)].position,
    ensures
        marker_map_spec(markers, s1, kind) == marker_map_spec(markers, s2, kind),
    decreases markers.len(),
{
    if markers.len() > 0 {
        lemma_marker_map_same(markers.drop_last(), s1, s2, kind);
        let mk = markers.last();
        if has_id(s1, mk.target) {
            assert(s1[index_of(s1, mk.target)].position == s2[index_of(s2, mk.target)].position);
        }
    }
}

/// What a piece is offered, castlings aside, does not depend on whether other
/// pieces have moved.
pub proof fn lemma_gen_moves_same(w1: GameView, w2: GameView, e: int)
    requires
        w1 == (GameView { states: w1.states, ..w2 }),
        same_but_moved(w1.states, w2.states),
        crate::pieces::ids_unique(w1.states),
        0 <= e < w1.states.len(),
        w1.states[e] == w2.states[e],
    ensures
        gen_moves(w1, e, false) == gen_moves(w2, e, false),
{
    lemma_same_lookup(w1.states, w2.states);
    let s1 = w1.states;
    let s2 = w2.states;
    let st = s1[e];
    let r = w1.rules[e];
    let pos = st.position;
    let col = st.color;
    let b = w1.board;
    let em = w1.empty;
    lemma_marker_map_same(w1.current, s1, s2, MarkerKind::Castle);
    lemma_marker_map_same(w1.current, s1, s2, MarkerKind::EnPassant);
    let cm = marker_map_spec(w1.current, s1, MarkerKind::Castle);
    let epm = marker_map_spec(w1.current, s1, MarkerKind::EnPassant);
    if let Some(g) = r.move_only { lemma_single_same(b, em, s1, s2, pos, col, g.0.0@, true, false); }
    if let Some(g) = r.capture_only {
        lemma_single_same(b, em, s1, s2, pos, col, g.0.0@, false, true);
        lemma_marker_same(b, s1, s2, pos, col, g.0.0@, cm);
        lemma_marker_same(b, s1, s2, pos, col, g.0.0@, epm);
    }
    if let Some(g) = r.single {
        lemma_single_same(b, em, s1, s2, pos, col, g.0@, true, true);
        lemma_marker_same(b, s1, s2, pos, col, g.0@, cm);
        lemma_marker_same(b, s1, s2, pos, col, g.0@, epm);
    }
    if let Some(g) = r.sliding {
        lemma_sliding_same(b, em, s1, s2, pos, col, g.0@, true, true);
        lemma_sliding_marker_same(b, em, s1, s2, pos, col, g.0@, cm);
        lemma_sliding_marker_same(b, em, s1, s2, pos, col, g.0@, epm);
    }
    assert(gen_cands(w1, e, false) == gen_cands(w2, e, false));
}

/// One piece's step made for real and the same step only tried, from two states
/// that differ only in whether pieces have moved: the results differ only in
/// that, and the real step marks the moving piece.
pub proof fn lemma_step_real_vs_tried(a: GameView, b: GameView, piece: u64, from: Position, to: Position, capture: Option<Position>)
    requires
        a == (GameView { states: a.states, ..b }),
        same_but_moved(a.states, b.states),
        view_wf(a),
        view_wf(b),
        from.in_bounds(),
        to.in_bounds(),
        capture matches Some(c) ==> c.in_bounds() && c != from,
        at(b, from) == piece,
        piece != b.empty,
    ensures
        ({
            let ra = crate::game::do_move_spec(a, piece, from, to, capture, true);
            let tb = crate::game::do_move_spec(b, piece, from, to, capture, false);
            &&& ra == (GameView { states: ra.states, ..tb })
            &&& same_but_moved(ra.states, tb.states)
            &&& forall|j: int| 0 <= j < ra.states.len() ==>
                (#[trigger] ra.states[j]).has_moved == (a.states[j].has_moved || j == index_of(b.states, piece))
            &&& ra.states.len() == a.states.len()
            &&& tb.states.len() == b.states.len()
            &&& forall|j: int| 0 <= j < tb.states.len() ==> (#[trigger] tb.states[j]).has_moved == b.states[j].has_moved
                && tb.states[j].color == b.states[j].color
            &&& forall|id: u64| #[trigger] index_of(tb.states, id) == index_of(b.states, id)
            &&& view_wf(ra)
            &&& view_wf(tb)
        }),
{
    lemma_same_lookup(a.states, b.states);
    crate::game::lemma_do_move_effect(a, piece, from, to, capture, true);
    crate::game::lemma_do_move_effect(b, piece, from, to, capture, false);
    crate::game::lemma_do_move_records(a, piece, from, to, capture, true);
    crate::game::lemma_do_move_records(b, piece, from, to, capture, false);
    let ra = crate::game::do_move_spec(a, piece, from, to, capture, true);
    let tb = crate::game::do_move_spec(b, piece, from, to, capture, false);
    crate::game::lemma_boards_equal(ra.board, tb.board);
    assert forall|j: int| 0 <= j < ra.states.len() implies
        (#[trigger] ra.states[j]) == (PieceState { has_moved: ra.states[j].has_moved, ..tb.states[j] }) by {
        assert(a.states[j] == (PieceState { has_moved: a.states[j].has_moved, ..b.states[j] }));
    }
    assert(ra == (GameView { states: ra.states, ..tb }));
    crate::game::lemma_do_move_wf(a, piece, from, to, capture, true);
    crate::game::lemma_do_move_wf(b, piece, from, to, capture, false);
}

/// A move of the piece `i` made for real and the same move only tried differ
/// only in which pieces have moved, and only pieces of the color of `i` do.
pub proof fn lemma_move_real_vs_tried(v: GameView, i: int, m: Move)
    requires
        piece_on_board(v, i),
        move_ok(v, m),
        moved_by(v, i, m),
    ensures
        ({
            let r = apply_move_spec(v, m, true, true);
            let t = apply_move_spec(v, m, false, true);
            &&& r == (GameView { states: r.states, ..t })
            &&& same_but_moved(r.states, t.states)
            &&& forall|j: int| 0 <= j < r.states.len() && (#[trigger] r.states[j]).has_moved != t.states[j].has_moved
                ==> r.states[j].color == v.states[i].color
        }),
{
    let col = v.states[i].color;
    lemma_own_square(v, i);
    lemma_index_of(v.states, i);
    assert(same_but_moved(v.states, v.states)) by {
        assert forall|j: int| 0 <= j < v.states.len() implies
            (#[trigger] v.states[j]) == (PieceState { has_moved: v.states[j].has_moved, ..v.states[j] }) by {
        }
    }
    match m.move_type {
        MoveType::Normal(nm) => {
            lemma_step_real_vs_tried(v, v, at(v, nm.from), nm.from, nm.to, m.capture);
            let ra = crate::game::do_move_spec(v, at(v, nm.from), nm.from, nm.to, m.capture, true);
            let tb = crate::game::do_move_spec(v, at(v, nm.from), nm.from, nm.to, m.capture, false);
            assert(apply_move_spec(v, m, true, true) == advance_spec(ra));
            assert(apply_move_spec(v, m, false, true) == advance_spec(tb));
            assert(at(v, nm.from) == v.states[i].id);
            assert forall|j: int| 0 <= j < ra.states.len() && (#[trigger] ra.states[j]).has_moved != tb.states[j].has_moved
                implies ra.states[j].color == col by {
                assert(ra.states[j].has_moved == (v.states[j].has_moved || j == index_of(v.states, at(v, nm.from))));
                assert(tb.states[j].has_moved == v.states[j].has_moved);
                assert(j == i);
                assert(ra.states[j] == (PieceState { has_moved: ra.states[j].has_moved, ..tb.states[j] }));
            }
        },
        MoveType::DoublePawn(nm) => {
            let v0 = add_future(v, seq![en_passant_marker(v, nm)]);
            assert(midpoint(nm.from, nm.to).in_bounds());
            lemma_add_future_wf(v, seq![en_passant_marker(v, nm)]);
            assert(same_but_moved(v0.states, v0.states));
            lemma_step_real_vs_tried(v0, v0, at(v0, nm.from), nm.from, nm.to, m.capture);
            let ra = crate::game::do_move_spec(v0, at(v0, nm.from), nm.from, nm.to, m.capture, true);
            let tb = crate::game::do_move_spec(v0, at(v0, nm.from), nm.from, nm.to, m.capture, false);
            assert(apply_move_spec(v, m, true, true) == advance_spec(ra));
            assert(apply_move_spec(v, m, false, true) == advance_spec(tb));
            assert(at(v0, nm.from) == v.states[i].id);
            assert forall|j: int| 0 <= j < ra.states.len() && (#[trigger] ra.states[j]).has_moved != tb.states[j].has_moved
                implies ra.states[j].color == col by {
                assert(ra.states[j].has_moved == (v0.states[j].has_moved || j == index_of(v0.states, at(v0, nm.from))));
                assert(tb.states[j].has_moved == v0.states[j].has_moved);
                assert(j == i);
                assert(ra.states[j] == (PieceState { has_moved: ra.states[j].has_moved, ..tb.states[j] }));
            }
        },
        MoveType::Castle(k, rm) => {
            let king = at(v, k.from);
            let ms = castle_markers(k, king);
            lemma_castle_markers_in_bounds(k, king);
            lemma_add_future_wf(v, ms);
            let v0 = add_future(v, ms);
            assert(same_but_moved(v0.states, v0.states));
            lemma_step_real_vs_tried(v0, v0, king, k.from, k.to, m.capture);
            let v1r = normal_spec(v0, k, m.capture, true);
            let v1t = normal_spec(v0, k, m.capture, false);
            crate::game::lemma_do_move_effect(v0, king, k.from, k.to, m.capture, false);
            let rook = at(v1t, rm.from);
            assert(at(v1r, rm.from) == rook);
            lemma_step_real_vs_tried(v1r, v1t, rook, rm.from, rm.to, m.capture);
            let r2 = crate::game::do_move_spec(v1r, rook, rm.from, rm.to, m.capture, true);
            let t2 = crate::game::do_move_spec(v1t, rook, rm.from, rm.to, m.capture, false);
            assert(apply_move_spec(v, m, true, true) == advance_spec(r2));
            assert(apply_move_spec(v, m, false, true) == advance_spec(t2));
            assert forall|j: int| 0 <= j < r2.states.len() && (#[trigger] r2.states[j]).has_moved != t2.states[j].has_moved
                implies r2.states[j].color == col by {
                assert(r2.states[j].has_moved == (v1r.states[j].has_moved || j == index_of(v1t.states, rook)));
                assert(v1r.states[j].has_moved == (v0.states[j].has_moved || j == index_of(v0.states, king)));
                assert(t2.states[j].has_moved == v1t.states[j].has_moved);
                assert(v1t.states[j].has_moved == v0.states[j].has_moved);
                assert(r2.states[j] == (PieceState { has_moved: r2.states[j].has_moved, ..t2.states[j] }));
                assert(v1t.states[j].color == v.states[j].color);
                if j == index_of(v0.states, king) {
                    assert(j == i);
                } else {
                    assert(j == index_of(v1t.states, rook));
                    assert(index_of(v1t.states, rook) == index_of(v.states, rook));
                    if rm.from == k.to {
                        assert(rook == king);
                    } else {
                        assert(rook == at(v, rm.from));
                        assert(color_of(v.states, rook) == Some(col));
                        crate::pieces::lemma_index_of_range(v.states, rook);
                    }
                }
            }
        },
    }
}

/// The same pieces are attacked whether or not pieces of the color `c` have moved.
pub proof fn lemma_in_check_ignores_moved(w1: GameView, w2: GameView, c: PieceColor)
    requires
        w1 == (GameView { states: w1.states, ..w2 }),
        same_but_moved(w1.states, w2.states),
        crate::pieces::ids_unique(w1.states),
        forall|j: int| 0 <= j < w1.states.len() && (#[trigger] w1.states[j]).has_moved != w2.states[j].has_moved
            ==> w1.states[j].color == c,
    ensures
        in_check(w1, c) == in_check(w2, c),
{
    lemma_same_lookup(w1.states, w2.states);
    assert forall|e: int| is_enemy_piece(w1, e, c) implies #[trigger] w1.states[e] == w2.states[e] by {
        assert(w1.states[e] == (PieceState { has_moved: w1.states[e].has_moved, ..w2.states[e] }));
    }
    if in_check(w1, c) {
        let (e, d) = choose|e: int, d: int| #![trigger is_enemy_piece(w1, e, c), is_check_detector(w1, d, c)]
            is_enemy_piece(w1, e, c) && is_check_detector(w1, d, c) && attacks_square(w1, e, w1.states[d].position);
        assert(w1.states[e] == w2.states[e]);
        lemma_gen_moves_same(w1, w2, e);
        assert(w1.states[d].position == w2.states[d].position);
        assert(is_enemy_piece(w2, e, c));
        assert(is_check_detector(w2, d, c));
        let kk = choose|kk: (isize, isize)| #[trigger] gen_moves(w1, e, false).contains_key(kk)
            && gen_moves(w1, e, false)[kk].capture == Some(w1.states[d].position);
        assert(gen_moves(w2, e, false).contains_key(kk));
        assert(attacks_square(w2, e, w2.states[d].position));
    }
    if in_check(w2, c) {
        let (e, d) = choose|e: int, d: int| #![trigger is_enemy_piece(w2, e, c), is_check_detector(w2, d, c)]
            is_enemy_piece(w2, e, c) && is_check_detector(w2, d, c) && attacks_square(w2, e, w2.states[d].position);
        assert(is_enemy_piece(w1, e, c));
        assert(w1.states[e] == w2.states[e]);
        lemma_gen_moves_same(w1, w2, e);
        assert(w1.states[d].position == w2.states[d].position);
        assert(is_check_detector(w1, d, c));
        let kk = choose|kk: (isize, isize)| #[trigger] gen_moves(w2, e, false).contains_key(kk)
            && gen_moves(w2, e, false)[kk].capture == Some(w2.states[d].position);
        assert(gen_moves(w1, e, false).contains_key(kk));
        assert(attacks_square(w1, e, w1.states[d].position));
    }
}

/// A move offered to the piece `i` as legal (castlings included) leaves no
/// check detector of its color attacked also when it is made for real, whatever
/// markers lie before the current ones.
pub proof fn lemma_legal_move_safe_for_real(v: GameView, i: int, k: (isize, isize), past: Seq<crate::markers::Marker>)
    requires
        piece_on_board(v, i),
        v.rules[i].castle_top ==> castle_targets_ok(v, i),
        legal_moves_spec(v, v.states[i].color, gen_moves(v, i, true)).contains_key(k),
    ensures
        !in_check(apply_move_spec(GameView { past, ..v }, gen_moves(v, i, true)[k], true, true), v.states[i].color),
{
    let col = v.states[i].color;
    let m = gen_moves(v, i, true)[k];
    lemma_gen_moves_ok(v, i, true);
    lemma_gen_moves_by(v, i, true);
    assert(move_ok(v, m) && moved_by(v, i, m));
    lemma_move_real_vs_tried(v, i, m);
    lemma_apply_move_wf(v, m, true, true);
    let r = apply_move_spec(v, m, true, true);
    let t = apply_move_spec(v, m, false, true);
    lemma_in_check_ignores_moved(r, t, col);
    assert(is_legal(v, col, m));
    lemma_apply_ignores_past(v, m, true, past);
}

} // verus!
