use bevy::platform::collections::HashMap;
use vstd::prelude::*;

use crate::board::{board_at, board_is_empty, board_is_enemy};
use crate::direction::{sign, Direction};
use crate::game::GameView;
use crate::markers::{MarkerBoard, MarkerKind, Marker};
use crate::moves::{insert_all, no_moves, Move, MoveType, NormalMove};
use crate::pieces::{has_id, index_of, PieceColor, PieceRules, PieceState, Pieces};
use crate::position::Position;

verus! {

/// A map from the squares of markers to the squares of the pieces they stand for.
pub type MarkerMap = HashMap<(isize, isize), (isize, isize)>;

/// The contents of a marker map.
pub uninterp spec fn marker_map_contents(m: MarkerMap) -> Map<(isize, isize), (isize, isize)>;

/// `bevy::platform::collections::HashMap::new`: claimed to hold no entry.
#[verifier::external_body]
fn marker_map_new() -> (map: MarkerMap)
    ensures
        marker_map_contents(map) == no_markers(),
{
    HashMap::new()
}

/// `bevy::platform::collections::HashMap::insert`: claimed to map the key to the
/// value afterwards, every other key as before.
#[verifier::external_body]
fn marker_map_insert(m: &mut MarkerMap, k: (isize, isize), v: (isize, isize))
    ensures
        marker_map_contents(*final(m)) == marker_map_contents(*old(m)).insert(k, v),
{
    m.insert(k, v);
}

/// `bevy::platform::collections::HashMap::get`: claimed to give the value stored
/// for the key, or `None` when the key has no entry.
#[verifier::external_body]
pub(crate) fn marker_map_get(m: &MarkerMap, k: (isize, isize)) -> (r: Option<(isize, isize)>)
    ensures
        r == (if marker_map_contents(*m).contains_key(k) { Some(marker_map_contents(*m)[k]) } else { None }),
{
    m.get(&k).copied()
}

/// The map with no markers.
pub open spec fn no_markers() -> Map<(isize, isize), (isize, isize)> {
    Map::empty()
}

/// The square with the coordinates of a key.
pub open spec fn key_pos(k: (isize, isize)) -> Position {
    Position { rank: k.0, file: k.1 }
}

/// The markers of the kind among `markers`, each mapped to the square of its
/// piece; a later marker on the same square replaces an earlier one.
pub open spec fn marker_map_spec(markers: Seq<Marker>, states: Seq<PieceState>, kind: MarkerKind) -> Map<(isize, isize), (isize, isize)>
    decreases markers.len(),
{
    if markers.len() == 0 {
        Map::empty()
    } else {
        let m = marker_map_spec(markers.drop_last(), states, kind);
        let mk = markers.last();
        if mk.kind == kind && has_id(states, mk.target) {
            m.insert(mk.position.key(), states[index_of(states, mk.target)].position.key())
        } else {
            m
        }
    }
}

/// The map of the current markers of the kind to the squares of their pieces.
pub fn get_marker_to_piece(marker_board: &MarkerBoard, kind: MarkerKind, pieces: &Pieces) -> (m: MarkerMap)
    requires
        pieces.wf(),
    ensures
        marker_map_contents(m) == marker_map_spec(marker_board.current@, pieces.states@, kind),
{
    let mut m = marker_map_new();
    let mut i: usize = 0;
    while i < marker_board.current.len()
        invariant
            pieces.wf(),
            i <= marker_board.current@.len(),
            marker_map_contents(m) == marker_map_spec(marker_board.current@.subrange(0, i as int), pieces.states@, kind),
        decreases marker_board.current@.len() - i,
    {
        let marker = marker_board.current[i];
        assert(marker_board.current@.subrange(0, i + 1).drop_last() =~= marker_board.current@.subrange(0, i as int));
        if marker.kind == kind {
            if let Some(j) = pieces.find(marker.get_entity()) {
                let p = pieces.states[j].position;
                marker_map_insert(&mut m, marker.position.to_key(), p.to_key());
            }
        }
        i = i + 1;
    }
    assert(marker_board.current@.subrange(0, i as int) =~= marker_board.current@);
    m
}

/// A move of one piece that captures nothing.
pub open spec fn step_move(from: Position, to: Position) -> Move {
    Move { capture: None, move_type: MoveType::Normal(NormalMove { from, to }) }
}

/// A move of one piece that captures the piece on `c`.
pub open spec fn step_capture(from: Position, to: Position, c: Position) -> Move {
    Move { capture: Some(c), move_type: MoveType::Normal(NormalMove { from, to }) }
}

/// What one step `d` from `pos` offers: a move to an empty square (when moves
/// are allowed) and a capture of an enemy (when captures are allowed).
pub open spec fn step_cands(b: Seq<u64>, e: u64, s: Seq<PieceState>, pos: Position, col: PieceColor, d: Direction, am: bool, ac: bool) -> Seq<(Position, Move)> {
    let p = pos.plus(d);
    (if am && board_is_empty(b, e, p) { seq![(p, step_move(pos, p))] } else { Seq::empty() })
        + (if ac && board_is_enemy(b, s, p, col) { seq![(p, step_capture(pos, p, p))] } else { Seq::empty() })
}

/// What the steps `dirs` offer, direction after direction.
pub open spec fn single_cands(b: Seq<u64>, e: u64, s: Seq<PieceState>, pos: Position, col: PieceColor, dirs: Seq<Direction>, am: bool, ac: bool) -> Seq<(Position, Move)>
    decreases dirs.len(),
{
    if dirs.len() == 0 {
        Seq::empty()
    } else {
        single_cands(b, e, s, pos, col, dirs.drop_last(), am, ac) + step_cands(b, e, s, pos, col, dirs.last(), am, ac)
    }
}

/// What a step onto a marker offers: a capture of the marker's piece, when it is an enemy.
pub open spec fn marker_at_cands(b: Seq<u64>, s: Seq<PieceState>, pos: Position, col: PieceColor, p: Position, mm: Map<(isize, isize), (isize, isize)>) -> Seq<(Position, Move)> {
    if mm.contains_key(p.key()) && board_is_enemy(b, s, key_pos(mm[p.key()]), col) {
        seq![(p, step_capture(pos, p, key_pos(mm[p.key()])))]
    } else {
        Seq::empty()
    }
}

/// What the steps `dirs` offer onto markers, direction after direction.
pub open spec fn marker_cands(b: Seq<u64>, s: Seq<PieceState>, pos: Position, col: PieceColor, dirs: Seq<Direction>, mm: Map<(isize, isize), (isize, isize)>) -> Seq<(Position, Move)>
    decreases dirs.len(),
{
    if dirs.len() == 0 {
        Seq::empty()
    } else {
        marker_cands(b, s, pos, col, dirs.drop_last(), mm) + marker_at_cands(b, s, pos, col, pos.plus(dirs.last()), mm)
    }
}

/// What a slide from `pos` offers from the square `p` on, along `d`: a move to
/// each empty square, then a capture of the enemy that stops it. `fuel` bounds
/// the length of the slide.
pub open spec fn ray_cands(b: Seq<u64>, e: u64, s: Seq<PieceState>, pos: Position, col: PieceColor, d: Direction, p: Position, fuel: nat, am: bool, ac: bool) -> Seq<(Position, Move)>
    decreases fuel,
{
    if fuel == 0 {
        Seq::empty()
    } else if board_is_empty(b, e, p) {
        (if am { seq![(p, step_move(pos, p))] } else { Seq::empty() })
            + ray_cands(b, e, s, pos, col, d, p.plus(d), (fuel - 1) as nat, am, ac)
    } else if ac && board_is_enemy(b, s, p, col) {
        seq![(p, step_capture(pos, p, p))]
    } else {
        Seq::empty()
    }
}

/// What the slides along `dirs` offer, direction after direction.
pub open spec fn sliding_cands(b: Seq<u64>, e: u64, s: Seq<PieceState>, pos: Position, col: PieceColor, dirs: Seq<Direction>, am: bool, ac: bool) -> Seq<(Position, Move)>
    decreases dirs.len(),
{
    if dirs.len() == 0 {
        Seq::empty()
    } else {
        sliding_cands(b, e, s, pos, col, dirs.drop_last(), am, ac)
            + ray_cands(b, e, s, pos, col, dirs.last(), pos.plus(dirs.last()), 8, am, ac)
    }
}

/// What a slide offers onto the markers of the empty squares it crosses.
pub open spec fn ray_marker_cands(b: Seq<u64>, e: u64, s: Seq<PieceState>, pos: Position, col: PieceColor, d: Direction, p: Position, fuel: nat, mm: Map<(isize, isize), (isize, isize)>) -> Seq<(Position, Move)>
    decreases fuel,
{
    if fuel == 0 {
        Seq::empty()
    } else if board_is_empty(b, e, p) {
        marker_at_cands(b, s, pos, col, p, mm) + ray_marker_cands(b, e, s, pos, col, d, p.plus(d), (fuel - 1) as nat, mm)
    } else {
        Seq::empty()
    }
}

/// What the slides along `dirs` offer onto markers, direction after direction.
pub open spec fn sliding_marker_cands(b: Seq<u64>, e: u64, s: Seq<PieceState>, pos: Position, col: PieceColor, dirs: Seq<Direction>, mm: Map<(isize, isize), (isize, isize)>) -> Seq<(Position, Move)>
    decreases dirs.len(),
{
    if dirs.len() == 0 {
        Seq::empty()
    } else {
        sliding_marker_cands(b, e, s, pos, col, dirs.drop_last(), mm)
            + ray_marker_cands(b, e, s, pos, col, dirs.last(), pos.plus(dirs.last()), 8, mm)
    }
}

/// The first square along `d` from `p` on that is not empty (or where `fuel` runs out).
pub open spec fn slide_end(b: Seq<u64>, e: u64, p: Position, d: Direction, fuel: nat) -> Position
    decreases fuel,
{
    if fuel == 0 {
        p
    } else if board_is_empty(b, e, p) {
        slide_end(b, e, p.plus(d), d, (fuel - 1) as nat)
    } else {
        p
    }
}

/// The sign of each component of the step from `a` to `b`.
pub open spec fn toward(a: Position, b: Position) -> Direction {
    Direction { drank: sign(b.rank - a.rank) as isize, dfile: sign(b.file - a.file) as isize }
}

/// The castling that the piece `j` offers the king `i`: when it is a castle
/// piece of the king's color and the first piece the king sees towards it.
pub open spec fn castle_cand(v: GameView, i: int, j: int) -> Seq<(Position, Move)> {
    let king = v.states[i];
    let rook = v.states[j];
    let d = toward(king.position, rook.position);
    let q = slide_end(v.board, v.empty, king.position.plus(d), d, 8);
    if v.rules[j].castle_bottom && rook.color == king.color && q.in_bounds() && board_at(v.board, q) == rook.id {
        let to = king.position.plus_times(d, 2);
        seq![(to, Move {
            capture: None,
            move_type: MoveType::Castle(
                NormalMove { from: king.position, to },
                NormalMove { from: rook.position, to: king.position.plus(d) },
            ),
        })]
    } else {
        Seq::empty()
    }
}

/// The castlings offered by the pieces `0..n`, in order.
pub open spec fn castle_cands_upto(v: GameView, i: int, n: int) -> Seq<(Position, Move)>
    decreases n,
{
    if n <= 0 {
        Seq::empty()
    } else {
        castle_cands_upto(v, i, n - 1) + castle_cand(v, i, n - 1)
    }
}

/// The double step of the pawn `i` along `d`: when it has not moved and both squares are empty.
pub open spec fn pawn_cands(v: GameView, i: int, d: Direction) -> Seq<(Position, Move)> {
    let pos = v.states[i].position;
    let p2 = pos.plus_times(d, 2);
    if v.states[i].has_moved || !board_is_empty(v.board, v.empty, pos.plus(d)) || !board_is_empty(v.board, v.empty, p2) {
        Seq::empty()
    } else {
        seq![(p2, Move { capture: None, move_type: MoveType::DoublePawn(NormalMove { from: pos, to: p2 }) })]
    }
}

/// The marker captures along single steps: castle markers, then en passant
/// markers for a piece that takes them.
pub open spec fn single_marker_all(v: GameView, pos: Position, col: PieceColor, dirs: Seq<Direction>, ep: bool) -> Seq<(Position, Move)> {
    marker_cands(v.board, v.states, pos, col, dirs, marker_map_spec(v.current, v.states, MarkerKind::Castle))
        + (if ep { marker_cands(v.board, v.states, pos, col, dirs, marker_map_spec(v.current, v.states, MarkerKind::EnPassant)) } else { Seq::empty() })
}

/// The marker captures along slides: castle markers, then en passant markers
/// for a piece that takes them.
pub open spec fn sliding_marker_all(v: GameView, pos: Position, col: PieceColor, dirs: Seq<Direction>, ep: bool) -> Seq<(Position, Move)> {
    sliding_marker_cands(v.board, v.empty, v.states, pos, col, dirs, marker_map_spec(v.current, v.states, MarkerKind::Castle))
        + (if ep { sliding_marker_cands(v.board, v.empty, v.states, pos, col, dirs, marker_map_spec(v.current, v.states, MarkerKind::EnPassant)) } else { Seq::empty() })
}

/// Every move the piece `i` is offered, in the order they are generated: its
/// single-step moves, its single-step captures, its marker captures, its
/// slides, its castlings (only when it is the selected piece) and its double step.
pub open spec fn gen_cands(v: GameView, i: int, selected: bool) -> Seq<(Position, Move)> {
    let st = v.states[i];
    let r = v.rules[i];
    let pos = st.position;
    let col = st.color;
    let ep = r.captures_en_passant;
    let b = v.board;
    let e = v.empty;
    let s = v.states;
    let move_only = match r.move_only {
        Some(g) => single_cands(b, e, s, pos, col, g.0.0@, true, false),
        None => Seq::empty(),
    };
    let capture_only = match r.capture_only {
        Some(g) => single_cands(b, e, s, pos, col, g.0.0@, false, true),
        None => Seq::empty(),
    };
    let single = match r.single {
        Some(g) => single_cands(b, e, s, pos, col, g.0@, true, true),
        None => Seq::empty(),
    };
    let capture_only_markers = match r.capture_only {
        Some(g) => single_marker_all(v, pos, col, g.0.0@, ep),
        None => Seq::empty(),
    };
    let single_markers = match r.single {
        Some(g) => single_marker_all(v, pos, col, g.0@, ep),
        None => Seq::empty(),
    };
    let sliding = match r.sliding {
        Some(g) => sliding_cands(b, e, s, pos, col, g.0@, true, true) + sliding_marker_all(v, pos, col, g.0@, ep),
        None => Seq::empty(),
    };
    let castling = if selected && r.castle_top { castle_cands_upto(v, i, s.len() as int) } else { Seq::empty() };
    let pawn = match r.double_pawn {
        Some(g) => pawn_cands(v, i, g.0),
        None => Seq::empty(),
    };
    move_only + capture_only + single + capture_only_markers + single_markers + sliding + castling + pawn
}

/// The moves of the piece `i`: for each square, the move kept from its offers.
pub open spec fn gen_moves(v: GameView, i: int, selected: bool) -> Map<(isize, isize), Move> {
    insert_all(no_moves(), gen_cands(v, i, selected))
}

} // verus!

verus! {

impl crate::game::Game {
    /// Every move the piece `i` is offered, kept square by square; castlings
    /// are offered only when `selected` holds.
    #[verifier::rlimit(50)]
    #[verifier::spinoff_prover]
    pub fn generate_moves(&self, i: usize, selected: bool) -> (moves: crate::moves::Moves)
        requires
            self.wf(),
            i < self@.states.len(),
            !self@.states[i as int].captured,
        ensures
            moves@ == gen_moves(self@, i as int, selected),
            !moves.move_indicator,
            !moves.capture_indicator,
            moves.black_circles@.len() == 0,
    {
        let ghost v = self@;
        let mut moves = crate::moves::Moves::new_no_move_indicators();
        let state = self.pieces.states[i];
        let rules = &self.pieces.rules[i];
        assert(rules.wf());
        let position = state.position;
        let color = state.color;
        let ep = rules.captures_en_passant;
        assert(position.in_bounds());
        let castle_map = get_marker_to_piece(&self.marker_board, MarkerKind::Castle, &self.pieces);
        let ep_map = get_marker_to_piece(&self.marker_board, MarkerKind::EnPassant, &self.pieces);
        let ghost b = v.board;
        let ghost e = v.empty;
        let ghost s = v.states;
        let ghost cm = marker_map_spec(v.current, s, MarkerKind::Castle);
        let ghost em = marker_map_spec(v.current, s, MarkerKind::EnPassant);
        let ghost mut done: Seq<(Position, Move)> = Seq::empty();
        assert(moves@ == insert_all(no_moves(), done));
        // single steps that only move
        let ghost part = match &rules.move_only { Some(g) => single_cands(b, e, s, position, color, g.0.0@, true, false), None => Seq::empty() };
        proof { crate::moves::lemma_insert_all_concat(no_moves(), done, part); crate::moves::lemma_insert_all_none(moves@); }
        if let Some(g) = &rules.move_only {
            proof { crate::single_moves::lemma_steps_fit(position, g.0.0@); }
            g.0.generate(&mut moves, &self.board, &self.pieces, position, color, true, false);
        }
        proof { done = done + part; }
        // single steps that only capture
        let ghost part = match &rules.capture_only { Some(g) => single_cands(b, e, s, position, color, g.0.0@, false, true), None => Seq::empty() };
        proof { crate::moves::lemma_insert_all_concat(no_moves(), done, part); crate::moves::lemma_insert_all_none(moves@); }
        if let Some(g) = &rules.capture_only {
            proof { crate::single_moves::lemma_steps_fit(position, g.0.0@); }
            g.0.generate(&mut moves, &self.board, &self.pieces, position, color, false, true);
        }
        proof { done = done + part; }
        // single steps that move or capture
        let ghost part = match &rules.single { Some(g) => single_cands(b, e, s, position, color, g.0@, true, true), None => Seq::empty() };
        proof { crate::moves::lemma_insert_all_concat(no_moves(), done, part); crate::moves::lemma_insert_all_none(moves@); }
        if let Some(g) = &rules.single {
            proof { crate::single_moves::lemma_steps_fit(position, g.0@); }
            g.generate(&mut moves, &self.board, &self.pieces, position, color, true, true);
        }
        proof { done = done + part; }
        // marker captures of the capturing single steps
        let ghost part = match &rules.capture_only { Some(g) => single_marker_all(v, position, color, g.0.0@, ep), None => Seq::empty() };
        proof { crate::moves::lemma_insert_all_concat(no_moves(), done, part); crate::moves::lemma_insert_all_none(moves@); }
        if let Some(g) = &rules.capture_only {
            proof { crate::single_moves::lemma_steps_fit(position, g.0.0@); }
            let ghost m1 = moves@;
            let ghost p1 = marker_cands(b, s, position, color, g.0.0@, cm);
            let ghost p2: Seq<(Position, Move)> = if ep { marker_cands(b, s, position, color, g.0.0@, em) } else { Seq::empty() };
            proof { crate::moves::lemma_insert_all_concat(m1, p1, p2); crate::moves::lemma_insert_all_none(insert_all(m1, p1)); }
            g.0.generate_marker_captures(&mut moves, &self.board, &self.pieces, position, color, &castle_map);
            if ep {
                g.0.generate_marker_captures(&mut moves, &self.board, &self.pieces, position, color, &ep_map);
            }
        }
        proof { done = done + part; }
        let ghost part = match &rules.single { Some(g) => single_marker_all(v, position, color, g.0@, ep), None => Seq::empty() };
        proof { crate::moves::lemma_insert_all_concat(no_moves(), done, part); crate::moves::lemma_insert_all_none(moves@); }
        if let Some(g) = &rules.single {
            proof { crate::single_moves::lemma_steps_fit(position, g.0@); }
            let ghost m1 = moves@;
            let ghost p1 = marker_cands(b, s, position, color, g.0@, cm);
            let ghost p2: Seq<(Position, Move)> = if ep { marker_cands(b, s, position, color, g.0@, em) } else { Seq::empty() };
            proof { crate::moves::lemma_insert_all_concat(m1, p1, p2); crate::moves::lemma_insert_all_none(insert_all(m1, p1)); }
            g.generate_marker_captures(&mut moves, &self.board, &self.pieces, position, color, &castle_map);
            if ep {
                g.generate_marker_captures(&mut moves, &self.board, &self.pieces, position, color, &ep_map);
            }
        }
        proof { done = done + part; }
        // slides and their marker captures
        let ghost part = match &rules.sliding { Some(g) => sliding_cands(b, e, s, position, color, g.0@, true, true) + sliding_marker_all(v, position, color, g.0@, ep), None => Seq::empty() };
        proof { crate::moves::lemma_insert_all_concat(no_moves(), done, part); crate::moves::lemma_insert_all_none(moves@); }
        if let Some(g) = &rules.sliding {
            let ghost m1 = moves@;
            let ghost p0 = sliding_cands(b, e, s, position, color, g.0@, true, true);
            let ghost p1 = sliding_marker_cands(b, e, s, position, color, g.0@, cm);
            let ghost p2: Seq<(Position, Move)> = if ep { sliding_marker_cands(b, e, s, position, color, g.0@, em) } else { Seq::empty() };
            proof {
                crate::moves::lemma_insert_all_concat(m1, p0, p1 + p2);
                crate::moves::lemma_insert_all_concat(insert_all(m1, p0), p1, p2);
                crate::moves::lemma_insert_all_none(insert_all(insert_all(m1, p0), p1));
            }
            proof {
                crate::sliding_moves::lemma_slides_fit(position, g.0@);
                crate::legality::lemma_own_square(v, i as int);
            }
            g.generate(&mut moves, &self.board, &self.pieces, position, color, true, true);
            g.generate_marker_captures(&mut moves, &self.board, &self.pieces, position, color, &castle_map);
            if ep {
                g.generate_marker_captures(&mut moves, &self.board, &self.pieces, position, color, &ep_map);
            }
            assert(p0 + p1 + p2 == p0 + (p1 + p2));
        }
        proof { done = done + part; }
        // castlings of the selected king
        let ghost part = if selected && rules.castle_top { castle_cands_upto(v, i as int, s.len() as int) } else { Seq::empty() };
        proof { crate::moves::lemma_insert_all_concat(no_moves(), done, part); crate::moves::lemma_insert_all_none(moves@); }
        if selected && rules.castle_top {
            self.generate_castling_moves(i, &mut moves);
        }
        proof { done = done + part; }
        // the pawn's double step
        let ghost part = match &rules.double_pawn { Some(g) => pawn_cands(v, i as int, g.0), None => Seq::empty() };
        proof { crate::moves::lemma_insert_all_concat(no_moves(), done, part); crate::moves::lemma_insert_all_none(moves@); }
        if let Some(g) = rules.double_pawn {
            proof { crate::pawn_moves::lemma_double_step_fits(position, g.0); }
            self.generate_pawn_moves(i, g, &mut moves);
        }
        proof { done = done + part; }
        assert(done == gen_cands(v, i as int, selected));
        moves
    }
}

} // verus!
