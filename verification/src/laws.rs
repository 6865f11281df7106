use vstd::prelude::*;

use crate::board::{board_at, board_is_empty, board_is_enemy};
use crate::checks::{in_check, is_legal, legal_moves_spec};
use crate::direction::Direction;
use crate::game::{view_wf, GameView};
use crate::move_generator::{
    castle_cand, castle_cands_upto, gen_cands, gen_moves, marker_cands, marker_map_spec, pawn_cands, ray_cands,
    single_cands, single_marker_all, sliding_cands, sliding_marker_all, sliding_marker_cands, step_capture,
};
use crate::markers::MarkerKind;
use crate::moves::{insert_all, lemma_priority_insert_monotone, map_get, no_moves, priority_insert, spec_priority, Move, MoveType};
use crate::piece_moved::apply_move_spec;
use crate::pieces::{has_id, index_of, PieceColor, PieceState};
use crate::position::{Position, BOARD_LENGTH};
use crate::promotion::promotion_dir_spec;
use crate::safety::{
    all_from, lemma_all_from_concat, lemma_marker_from, lemma_single_from, lemma_sliding_from,
    lemma_sliding_marker_from,
};
use crate::setup::{standard_placements, PieceKind};

verus! {

/// The standard set: on files 0 to 7 each side's back rank holds rook, knight,
/// bishop, queen, king, bishop, knight, rook, white on rank 0 and black on
/// rank 7, and a pawn of each side stands on every file, white on rank 1 and
/// black on rank 6.
pub proof fn lemma_standard_set()
    ensures
        standard_placements().len() == 32,
        forall|f: int| 0 <= f < 8 ==> (#[trigger] standard_placements()[f]) == (PieceColor::White,
            Position { rank: 0, file: f as isize },
            seq![PieceKind::Rook, PieceKind::Knight, PieceKind::Bishop, PieceKind::Queen,
                PieceKind::King, PieceKind::Bishop, PieceKind::Knight, PieceKind::Rook][f]),
        forall|f: int| 0 <= f < 8 ==> (#[trigger] standard_placements()[8 + f]) == (PieceColor::Black,
            Position { rank: 7, file: f as isize },
            seq![PieceKind::Rook, PieceKind::Knight, PieceKind::Bishop, PieceKind::Queen,
                PieceKind::King, PieceKind::Bishop, PieceKind::Knight, PieceKind::Rook][f]),
        forall|f: int| 0 <= f < 8 ==> (#[trigger] standard_placements()[16 + 2 * f])
            == (PieceColor::White, Position { rank: 1, file: f as isize }, PieceKind::Pawn),
        forall|f: int| 0 <= f < 8 ==> (#[trigger] standard_placements()[17 + 2 * f])
            == (PieceColor::Black, Position { rank: 6, file: f as isize }, PieceKind::Pawn),
{
    let kinds = seq![PieceKind::Rook, PieceKind::Knight, PieceKind::Bishop, PieceKind::Queen,
        PieceKind::King, PieceKind::Bishop, PieceKind::Knight, PieceKind::Rook];
    assert(kinds[0] == PieceKind::Rook && kinds[1] == PieceKind::Knight && kinds[2] == PieceKind::Bishop
        && kinds[3] == PieceKind::Queen && kinds[4] == PieceKind::King && kinds[5] == PieceKind::Bishop
        && kinds[6] == PieceKind::Knight && kinds[7] == PieceKind::Rook);
    assert forall|f: int| 0 <= f < 8 implies (#[trigger] standard_placements()[f]) == (PieceColor::White,
        Position { rank: 0, file: f as isize }, kinds[f]) by {
        assert(f == 0 || f == 1 || f == 2 || f == 3 || f == 4 || f == 5 || f == 6 || f == 7);
    }
    assert forall|f: int| 0 <= f < 8 implies (#[trigger] standard_placements()[8 + f]) == (PieceColor::Black,
        Position { rank: 7, file: f as isize }, kinds[f]) by {
        assert(f == 0 || f == 1 || f == 2 || f == 3 || f == 4 || f == 5 || f == 6 || f == 7);
    }
    assert forall|f: int| 0 <= f < 8 implies (#[trigger] standard_placements()[16 + 2 * f])
        == (PieceColor::White, Position { rank: 1, file: f as isize }, PieceKind::Pawn) by {
        assert((16 + 2 * f - 16) % 2 == 0 && (16 + 2 * f - 16) / 2 == f);
    }
    assert forall|f: int| 0 <= f < 8 implies (#[trigger] standard_placements()[17 + 2 * f])
        == (PieceColor::Black, Position { rank: 6, file: f as isize }, PieceKind::Pawn) by {
        assert((17 + 2 * f - 16) % 2 == 1 && (17 + 2 * f - 16) / 2 == f);
    }
}

/// The promotion menu opens only for a promoting piece in play on the first or
/// the last rank: upwards from the first, downwards from the last.
pub proof fn lemma_promotion_only_on_end_ranks(v: GameView, piece: u64)
    ensures
        promotion_dir_spec(v, piece) is Some ==> {
            &&& has_id(v.states, piece)
            &&& v.rules[index_of(v.states, piece)].promoting
            &&& (v.states[index_of(v.states, piece)].position.rank == 0
                || v.states[index_of(v.states, piece)].position.rank == BOARD_LENGTH - 1)
        },
        (promotion_dir_spec(v, piece) == Some(Direction { drank: 1, dfile: 0 })) <==> (has_id(v.states, piece)
            && v.rules[index_of(v.states, piece)].promoting && v.states[index_of(v.states, piece)].position.rank == 0),
        (promotion_dir_spec(v, piece) == Some(Direction { drank: -1isize, dfile: 0 })) <==> (has_id(v.states, piece)
            && v.rules[index_of(v.states, piece)].promoting
            && v.states[index_of(v.states, piece)].position.rank == BOARD_LENGTH - 1),
{
}

/// A move of the map is kept exactly when, once tried, no enemy is offered a
/// capture of a check detector of the color; a kept move is kept unchanged,
/// and no legal move of any kind, castlings included, is dropped.
pub proof fn lemma_legal_filter(v: GameView, color: PieceColor, moves: Map<(isize, isize), Move>)
    ensures
        forall|k: (isize, isize)| #[trigger] legal_moves_spec(v, color, moves).contains_key(k) <==>
            (moves.contains_key(k) && !in_check(apply_move_spec(v, moves[k], false, true), color)),
        forall|k: (isize, isize)| #[trigger] legal_moves_spec(v, color, moves).contains_key(k) ==>
            legal_moves_spec(v, color, moves)[k] == moves[k],
        forall|k: (isize, isize)| #[trigger] moves.contains_key(k) && is_legal(v, color, moves[k]) ==>
            legal_moves_spec(v, color, moves).contains_key(k),
{
}


/// The move is not the double step of a pawn.
pub open spec fn not_double_step(m: Move) -> bool {
    !(m.move_type is DoublePawn)
}

/// No candidate is a double step.
pub open spec fn cands_not_double(cands: Seq<(Position, Move)>) -> bool {
    forall|j: int| 0 <= j < cands.len() ==> not_double_step((#[trigger] cands[j]).1)
}

/// No move of the map is a double step.
pub open spec fn map_not_double(m: Map<(isize, isize), Move>) -> bool {
    forall|k: (isize, isize)| #[trigger] m.contains_key(k) ==> not_double_step(m[k])
}

/// Candidates without double steps, concatenated.
proof fn lemma_not_double_concat(a: Seq<(Position, Move)>, b: Seq<(Position, Move)>)
    requires
        cands_not_double(a),
        cands_not_double(b),
    ensures
        cands_not_double(a + b),
{
    assert forall|j: int| 0 <= j < (a + b).len() implies not_double_step((#[trigger] (a + b)[j]).1) by {
        if j < a.len() {
            assert((a + b)[j] == a[j]);
        } else {
            assert((a + b)[j] == b[j - a.len()]);
        }
    }
}

/// Moves of one piece from a square are no double steps.
proof fn lemma_from_not_double(cands: Seq<(Position, Move)>, pos: Position)
    requires
        all_from(cands, pos),
    ensures
        cands_not_double(cands),
{
    assert forall|j: int| 0 <= j < cands.len() implies not_double_step((#[trigger] cands[j]).1) by {
        assert(cands[j].1.move_type matches MoveType::Normal(nm) && nm.from == pos);
    }
}

/// Castlings are no double steps.
proof fn lemma_castles_not_double(v: GameView, i: int, n: int)
    ensures
        cands_not_double(castle_cands_upto(v, i, n)),
    decreases n,
{
    if n > 0 {
        lemma_castles_not_double(v, i, n - 1);
        let c = castle_cand(v, i, n - 1);
        assert(cands_not_double(c));
        lemma_not_double_concat(castle_cands_upto(v, i, n - 1), c);
    }
}

/// Offering candidates without double steps adds no double step to a map.
proof fn lemma_insert_all_not_double(m: Map<(isize, isize), Move>, cands: Seq<(Position, Move)>)
    requires
        map_not_double(m),
        cands_not_double(cands),
    ensures
        map_not_double(insert_all(m, cands)),
    decreases cands.len(),
{
    if cands.len() > 0 {
        let pre = cands.drop_last();
        assert forall|j: int| 0 <= j < pre.len() implies not_double_step((#[trigger] pre[j]).1) by {
            assert(pre[j] == cands[j]);
        }
        lemma_insert_all_not_double(m, pre);
        assert(not_double_step(cands[cands.len() - 1].1));
    }
}

/// A piece that has moved is offered no double step, whatever its rules and
/// whether or not it is the selected piece.
pub proof fn lemma_moved_piece_no_double_step(v: GameView, i: int, selected: bool)
    requires
        0 <= i < v.states.len(),
        v.states[i].has_moved,
    ensures
        forall|k: (isize, isize)| #[trigger] gen_moves(v, i, selected).contains_key(k)
            ==> !(gen_moves(v, i, selected)[k].move_type is DoublePawn),
{
    let st = v.states[i];
    let r = v.rules[i];
    let pos = st.position;
    let col = st.color;
    let ep = r.captures_en_passant;
    let b = v.board;
    let e = v.empty;
    let s = v.states;
    let cm = marker_map_spec(v.current, s, MarkerKind::Castle);
    let em = marker_map_spec(v.current, s, MarkerKind::EnPassant);
    let empty: Seq<(Position, Move)> = Seq::empty();
    assert(all_from(empty, pos));
    let move_only = match r.move_only { Some(g) => single_cands(b, e, s, pos, col, g.0.0@, true, false), None => empty };
    if let Some(g) = r.move_only { lemma_single_from(b, e, s, pos, col, g.0.0@, true, false); }
    let capture_only = match r.capture_only { Some(g) => single_cands(b, e, s, pos, col, g.0.0@, false, true), None => empty };
    if let Some(g) = r.capture_only { lemma_single_from(b, e, s, pos, col, g.0.0@, false, true); }
    let single = match r.single { Some(g) => single_cands(b, e, s, pos, col, g.0@, true, true), None => empty };
    if let Some(g) = r.single { lemma_single_from(b, e, s, pos, col, g.0@, true, true); }
    let capture_only_markers = match r.capture_only { Some(g) => single_marker_all(v, pos, col, g.0.0@, ep), None => empty };
    if let Some(g) = r.capture_only {
        lemma_marker_from(b, s, pos, col, g.0.0@, cm);
        lemma_marker_from(b, s, pos, col, g.0.0@, em);
        lemma_all_from_concat(marker_cands(b, s, pos, col, g.0.0@, cm), if ep { marker_cands(b, s, pos, col, g.0.0@, em) } else { empty }, pos);
    }
    let single_markers = match r.single { Some(g) => single_marker_all(v, pos, col, g.0@, ep), None => empty };
    if let Some(g) = r.single {
        lemma_marker_from(b, s, pos, col, g.0@, cm);
        lemma_marker_from(b, s, pos, col, g.0@, em);
        lemma_all_from_concat(marker_cands(b, s, pos, col, g.0@, cm), if ep { marker_cands(b, s, pos, col, g.0@, em) } else { empty }, pos);
    }
    let sliding = match r.sliding { Some(g) => sliding_cands(b, e, s, pos, col, g.0@, true, true) + sliding_marker_all(v, pos, col, g.0@, ep), None => empty };
    if let Some(g) = r.sliding {
        lemma_sliding_from(b, e, s, pos, col, g.0@, true, true);
        lemma_sliding_marker_from(b, e, s, pos, col, g.0@, cm);
        lemma_sliding_marker_from(b, e, s, pos, col, g.0@, em);
        let p1 = sliding_marker_cands(b, e, s, pos, col, g.0@, cm);
        let p2 = if ep { sliding_marker_cands(b, e, s, pos, col, g.0@, em) } else { empty };
        lemma_all_from_concat(p1, p2, pos);
        lemma_all_from_concat(sliding_cands(b, e, s, pos, col, g.0@, true, true), p1 + p2, pos);
    }
    let steps = move_only + capture_only + single + capture_only_markers + single_markers + sliding;
    lemma_all_from_concat(move_only, capture_only, pos);
    lemma_all_from_concat(move_only + capture_only, single, pos);
    lemma_all_from_concat(move_only + capture_only + single, capture_only_markers, pos);
    lemma_all_from_concat(move_only + capture_only + single + capture_only_markers, single_markers, pos);
    lemma_all_from_concat(move_only + capture_only + single + capture_only_markers + single_markers, sliding, pos);
    lemma_from_not_double(steps, pos);
    let castling = if selected && r.castle_top { castle_cands_upto(v, i, s.len() as int) } else { empty };
    lemma_castles_not_double(v, i, s.len() as int);
    assert(cands_not_double(castling));
    let pawn = match r.double_pawn { Some(g) => pawn_cands(v, i, g.0), None => empty };
    assert(pawn.len() == 0);
    assert(cands_not_double(pawn));
    lemma_not_double_concat(steps, castling);
    lemma_not_double_concat(steps + castling, pawn);
    assert(gen_cands(v, i, selected) == steps + castling + pawn);
    assert(map_not_double(no_moves()));
    lemma_insert_all_not_double(no_moves(), gen_cands(v, i, selected));
}


/// The candidates hold `c`.
pub open spec fn offers(cands: Seq<(Position, Move)>, c: (Position, Move)) -> bool {
    exists|k: int| 0 <= k < cands.len() && #[trigger] cands[k] == c
}

/// A candidate of either part is a candidate of their concatenation.
proof fn lemma_offers_concat(a: Seq<(Position, Move)>, b: Seq<(Position, Move)>, c: (Position, Move))
    requires
        offers(a, c) || offers(b, c),
    ensures
        offers(a + b, c),
{
    if offers(a, c) {
        let k = choose|k: int| 0 <= k < a.len() && #[trigger] a[k] == c;
        assert((a + b)[k] == a[k]);
    } else {
        let k = choose|k: int| 0 <= k < b.len() && #[trigger] b[k] == c;
        assert((a + b)[a.len() + k] == b[k]);
    }
}

/// A slide along a direction whose first square holds an enemy offers the
/// capture of that enemy.
proof fn lemma_slides_offer_capture(b: Seq<u64>, e: u64, s: Seq<PieceState>, pos: Position,
    col: PieceColor, dirs: Seq<Direction>, j: int)
    requires
        !has_id(s, e),
        0 <= j < dirs.len(),
        board_is_enemy(b, s, pos.plus(dirs[j]), col),
    ensures
        offers(sliding_cands(b, e, s, pos, col, dirs, true, true),
            (pos.plus(dirs[j]), step_capture(pos, pos.plus(dirs[j]), pos.plus(dirs[j])))),
    decreases dirs.len(),
{
    let p = pos.plus(dirs[j]);
    let c = (p, step_capture(pos, p, p));
    let pre = dirs.drop_last();
    let d = dirs.last();
    let ray = ray_cands(b, e, s, pos, col, d, pos.plus(d), 8, true, true);
    if j == dirs.len() - 1 {
        assert(board_at(b, p) != e);
        assert(!board_is_empty(b, e, p));
        assert(ray == seq![c]);
        assert(ray[0] == c);
        lemma_offers_concat(sliding_cands(b, e, s, pos, col, pre, true, true), ray, c);
    } else {
        assert(pre[j] == dirs[j]);
        lemma_slides_offer_capture(b, e, s, pos, col, pre, j);
        lemma_offers_concat(sliding_cands(b, e, s, pos, col, pre, true, true), ray, c);
    }
}

/// Offering candidates leaves a move on the square of each of them, of a
/// priority no lower than the candidate's.
proof fn lemma_insert_all_keeps_offer(m: Map<(isize, isize), Move>, cands: Seq<(Position, Move)>, c: (Position, Move))
    requires
        offers(cands, c),
    ensures
        insert_all(m, cands).contains_key(c.0.key()),
        spec_priority(c.0, map_get(insert_all(m, cands), c.0.key())).rank() >= spec_priority(c.0, Some(c.1)).rank(),
    decreases cands.len(),
{
    let pre = cands.drop_last();
    let last = cands.last();
    let mm = insert_all(m, pre);
    lemma_priority_insert_monotone(mm, last.0, last.1);
    assert(insert_all(m, cands) == priority_insert(mm, last.0, last.1));
    if last != c {
        let k = choose|k: int| 0 <= k < cands.len() && #[trigger] cands[k] == c;
        assert(k < cands.len() - 1);
        assert(pre[k] == cands[k]);
        lemma_insert_all_keeps_offer(m, pre, c);
        if last.0.key() == c.0.key() {
            assert(last.0 == c.0);
        }
    }
}

/// A slide captures the first enemy on its line, however near: when the square
/// one step along a direction of the piece's slides holds an enemy, the piece
/// is offered a capture on that square.
pub proof fn lemma_slide_captures_adjacent_enemy(v: GameView, i: int, selected: bool, d: Direction)
    requires
        view_wf(v),
        0 <= i < v.states.len(),
        v.rules[i].sliding is Some,
        v.rules[i].sliding.unwrap().0@.contains(d),
        board_is_enemy(v.board, v.states, v.states[i].position.plus(d), v.states[i].color),
    ensures
        gen_moves(v, i, selected).contains_key(v.states[i].position.plus(d).key()),
        gen_moves(v, i, selected)[v.states[i].position.plus(d).key()].capture is Some,
{
    let st = v.states[i];
    let r = v.rules[i];
    let pos = st.position;
    let col = st.color;
    let ep = r.captures_en_passant;
    let b = v.board;
    let e = v.empty;
    let s = v.states;
    let dirs = r.sliding.unwrap().0@;
    let j = choose|j: int| 0 <= j < dirs.len() && dirs[j] == d;
    let p = pos.plus(d);
    let c = (p, step_capture(pos, p, p));
    lemma_slides_offer_capture(b, e, s, pos, col, dirs, j);
    let slides = sliding_cands(b, e, s, pos, col, dirs, true, true);
    let sliding = slides + sliding_marker_all(v, pos, col, dirs, ep);
    lemma_offers_concat(slides, sliding_marker_all(v, pos, col, dirs, ep), c);
    let all = gen_cands(v, i, selected);
    let empty: Seq<(Position, Move)> = Seq::empty();
    let move_only = match r.move_only { Some(g) => single_cands(b, e, s, pos, col, g.0.0@, true, false), None => empty };
    let capture_only = match r.capture_only { Some(g) => single_cands(b, e, s, pos, col, g.0.0@, false, true), None => empty };
    let single = match r.single { Some(g) => single_cands(b, e, s, pos, col, g.0@, true, true), None => empty };
    let capture_only_markers = match r.capture_only { Some(g) => single_marker_all(v, pos, col, g.0.0@, ep), None => empty };
    let single_markers = match r.single { Some(g) => single_marker_all(v, pos, col, g.0@, ep), None => empty };
    let castling = if selected && r.castle_top { castle_cands_upto(v, i, s.len() as int) } else { empty };
    let pawn = match r.double_pawn { Some(g) => pawn_cands(v, i, g.0), None => empty };
    let before = move_only + capture_only + single + capture_only_markers + single_markers;
    assert(all == before + sliding + castling + pawn);
    lemma_offers_concat(before, sliding, c);
    lemma_offers_concat(before + sliding, castling, c);
    lemma_offers_concat(before + sliding + castling, pawn, c);
    lemma_insert_all_keeps_offer(no_moves(), all, c);
    assert(spec_priority(p, Some(c.1)).rank() == 2);
}

} // verus!
