use vstd::prelude::*;

use crate::board::{board_at, board_is_empty, lemma_square_injective, square, Board, BoardChanges};
use crate::markers::{Marker, MarkerBoard};
use crate::pieces::{has_id, ids_unique, index_of, lemma_index_of, lemma_index_of_range, lemma_update_same_id, restore_piece_spec, set_captured_spec, set_moved_spec, set_position_spec, PieceRules, PieceState, Pieces};
use crate::position::Position;

verus! {

/// The state of a game as mathematical values.
pub struct GameView {
    pub board: Seq<u64>,
    pub empty: u64,
    pub states: Seq<PieceState>,
    pub rules: Seq<PieceRules>,
    pub changes: Seq<(Position, u64)>,
    pub to_despawn: Seq<u64>,
    pub past: Seq<Marker>,
    pub current: Seq<Marker>,
    pub future: Seq<Marker>,
}

/// The piece on a square.
pub open spec fn at(v: GameView, p: Position) -> u64 {
    board_at(v.board, p)
}

/// The square is on the board and empty.
pub open spec fn is_empty(v: GameView, p: Position) -> bool {
    board_is_empty(v.board, v.empty, p)
}

/// The board and the piece states agree: every piece that is not captured
/// stands on its square, every occupied square holds such a piece, and the
/// empty piece is no piece.
pub open spec fn board_sync(board: Seq<u64>, empty: u64, states: Seq<PieceState>) -> bool {
    &&& board.len() == 64
    &&& ids_unique(states)
    &&& !has_id(states, empty)
    &&& forall|i: int| 0 <= i < states.len() ==> (#[trigger] states[i]).position.in_bounds()
    &&& forall|i: int| 0 <= i < states.len() && !(#[trigger] states[i]).captured
        ==> board_at(board, states[i].position) == states[i].id
    &&& forall|p: Position| p.in_bounds() && #[trigger] board_at(board, p) != empty ==> {
        &&& has_id(states, board_at(board, p))
        &&& !states[index_of(states, board_at(board, p))].captured
        &&& states[index_of(states, board_at(board, p))].position == p
    }
}

/// The state is consistent.
pub open spec fn view_wf(v: GameView) -> bool {
    &&& board_sync(v.board, v.empty, v.states)
    &&& v.rules.len() == v.states.len()
    &&& forall|i: int| 0 <= i < v.rules.len() ==> (#[trigger] v.rules[i]).wf()
    &&& forall|i: int| 0 <= i < v.changes.len() ==> (#[trigger] v.changes[i]).0.in_bounds()
    &&& markers_in_bounds(v.past)
    &&& markers_in_bounds(v.current)
    &&& markers_in_bounds(v.future)
}

/// Every marker lies on the board.
pub open spec fn markers_in_bounds(ms: Seq<Marker>) -> bool {
    forall|i: int| 0 <= i < ms.len() ==> (#[trigger] ms[i]).position.in_bounds()
}

/// The piece on the square `c` is captured: it leaves the board and is to be removed.
pub open spec fn capture_square(v: GameView, c: Position) -> GameView {
    GameView {
        to_despawn: v.to_despawn.push(at(v, c)),
        states: set_captured_spec(v.states, at(v, c)),
        board: v.board.update(square(c), v.empty),
        ..v
    }
}

/// `piece` moves from `from` to `to`. Each square it touches is recorded with
/// its piece; the piece on `capture` (when that is another square) and the piece
/// on `to` are captured. A real move also marks the piece as having moved.
#[verifier::opaque]
pub open spec fn do_move_spec(v: GameView, piece: u64, from: Position, to: Position, capture: Option<Position>, is_real: bool) -> GameView {
    let v1 = GameView { changes: v.changes.push((from, at(v, from))).push((to, at(v, to))), ..v };
    let v2 = match capture {
        Some(c) => if c != to {
            let v1c = GameView { changes: v1.changes.push((c, at(v1, c))), ..v1 };
            if !is_empty(v1c, c) {
                capture_square(v1c, c)
            } else {
                v1c
            }
        } else {
            v1
        },
        None => v1,
    };
    let v3 = if !is_empty(v2, to) {
        GameView {
            to_despawn: v2.to_despawn.push(at(v2, to)),
            states: set_captured_spec(v2.states, at(v2, to)),
            ..v2
        }
    } else {
        v2
    };
    let moved = set_position_spec(v3.states, piece, to);
    GameView {
        board: v3.board.update(square(to), piece).update(square(from), v3.empty),
        states: if is_real { set_moved_spec(moved, piece) } else { moved },
        ..v3
    }
}

/// Puts the recorded piece back on the recorded square.
pub open spec fn restore_one(bs: (Seq<u64>, Seq<PieceState>), c: (Position, u64)) -> (Seq<u64>, Seq<PieceState>) {
    (bs.0.update(square(c.0), c.1), restore_piece_spec(bs.1, c.1, c.0))
}

/// Undoes the recorded changes, the last one first.
pub open spec fn restore_all(bs: (Seq<u64>, Seq<PieceState>), cs: Seq<(Position, u64)>) -> (Seq<u64>, Seq<PieceState>)
    decreases cs.len(),
{
    if cs.len() == 0 {
        bs
    } else {
        restore_one(restore_all(bs, cs.drop_first()), cs[0])
    }
}

/// The state after undoing all recorded changes; the record is emptied.
pub open spec fn restore_changes_spec(v: GameView) -> GameView {
    let r = restore_all((v.board, v.states), v.changes);
    GameView { board: r.0, states: r.1, changes: Seq::empty(), to_despawn: Seq::empty(), ..v }
}

/// Undoing `a + b` undoes `b`, then `a`.
pub proof fn lemma_restore_all_concat(bs: (Seq<u64>, Seq<PieceState>), a: Seq<(Position, u64)>, b: Seq<(Position, u64)>)
    ensures
        restore_all(bs, a + b) == restore_all(restore_all(bs, b), a),
    decreases a.len(),
{
    if a.len() == 0 {
        assert(a + b =~= b);
    } else {
        assert((a + b).drop_first() =~= a.drop_first() + b);
        lemma_restore_all_concat(bs, a.drop_first(), b);
    }
}

/// The piece with the id stands on `p`: with a synchronized board, it is the piece on `p`.
pub proof fn lemma_sync_unique_square(board: Seq<u64>, empty: u64, states: Seq<PieceState>, i: int, p: Position)
    requires
        board_sync(board, empty, states),
        0 <= i < states.len(),
        p.in_bounds(),
        board_at(board, p) == states[i].id,
    ensures
        !states[i].captured,
        states[i].position == p,
{
    assert(states[i].id != empty) by {
        if states[i].id == empty {
            assert(has_id(states, empty));
        }
    }
    lemma_index_of(states, i);
}

/// What a move does to the board and to each piece state.
#[verifier::rlimit(80)]
#[verifier::spinoff_prover]
pub proof fn lemma_do_move_effect(v: GameView, piece: u64, from: Position, to: Position, capture: Option<Position>, is_real: bool)
    requires
        board_sync(v.board, v.empty, v.states),
        from.in_bounds(),
        to.in_bounds(),
        capture matches Some(c) ==> c.in_bounds() && c != from,
        at(v, from) == piece,
        piece != v.empty,
    ensures
        ({
            let w = do_move_spec(v, piece, from, to, capture, is_real);
            let s = v.states;
            let kp = index_of(s, piece);
            let x = board_at(v.board, to);
            let has_c = match capture { Some(c) => c != to, None => false };
            let c = match capture { Some(c) => c, None => from };
            let y = board_at(v.board, c);
            &&& w.board.len() == 64
            &&& w.empty == v.empty
            &&& w.rules == v.rules
            &&& w.past == v.past
            &&& w.current == v.current
            &&& w.future == v.future
            &&& w.states.len() == s.len()
            &&& ids_unique(w.states)
            &&& 0 <= kp < s.len() && s[kp].id == piece && s[kp].position == from && !s[kp].captured
            &&& forall|id: u64| has_id(w.states, id) == has_id(s, id)
            &&& forall|id: u64| #[trigger] index_of(w.states, id) == index_of(s, id)
            &&& forall|p: Position| p.in_bounds() ==> #[trigger] board_at(w.board, p) == (
                if p == from {
                    v.empty
                } else if p == to {
                    piece
                } else if capture == Some(p) {
                    v.empty
                } else {
                    board_at(v.board, p)
                })
            &&& forall|j: int| 0 <= j < s.len() ==> {
                &&& (#[trigger] w.states[j]).id == s[j].id
                &&& w.states[j].color == s[j].color
                &&& (j == kp ==> w.states[j].position == to && w.states[j].captured == (from == to))
                &&& (j != kp ==> w.states[j].position == s[j].position)
                &&& (j != kp ==> w.states[j].captured == (s[j].captured || s[j].position == to
                    || capture == Some(s[j].position)))
                &&& w.states[j].has_moved == (s[j].has_moved || (is_real && j == kp))
            }
        }),
{
    reveal(do_move_spec);
    let w = do_move_spec(v, piece, from, to, capture, is_real);
    let s = v.states;
    let b = v.board;
    let e = v.empty;
    lemma_square_injective(from, to);
    assert(board_at(b, from) != e);

    let kp = index_of(s, piece);
    lemma_index_of_range(s, piece);
    assert(s[kp].position == from && !s[kp].captured);
    let cap_c = match capture { Some(c) => c != to && b[square(c)] != e, None => false };
    let c = match capture { Some(c) => c, None => from };
    lemma_square_injective(c, to);
    lemma_square_injective(c, from);
    let y = b[square(c)];
    let s2 = if cap_c { set_captured_spec(s, y) } else { s };
    let b2 = if cap_c { b.update(square(c), e) } else { b };
    let ky = index_of(s, y);
    if cap_c {
        assert(board_at(b, c) == y);
        assert(has_id(s, y));
        lemma_index_of_range(s, y);
        lemma_update_same_id(s, ky, PieceState { captured: true, ..s[ky] });
    }
    let x = b[square(to)];
    assert(b2[square(to)] == x);
    let cap_t = x != e;
    let kx = index_of(s, x);
    let s3 = if cap_t { set_captured_spec(s2, x) } else { s2 };
    if cap_t {
        assert(board_at(b, to) == x);
        assert(has_id(s, x));
        lemma_index_of_range(s, x);
        lemma_update_same_id(s2, kx, PieceState { captured: true, ..s2[kx] });
    }
    let s4 = set_position_spec(s3, piece, to);
    lemma_update_same_id(s3, kp, PieceState { position: to, ..s3[kp] });
    let s5 = if is_real { set_moved_spec(s4, piece) } else { s4 };
    if is_real {
        lemma_update_same_id(s4, kp, PieceState { has_moved: true, ..s4[kp] });
    }
    assert(w.states == s5);
    let b5 = b2.update(square(to), piece).update(square(from), e);
    assert(w.board == b5);
    assert forall|p: Position| p.in_bounds() implies #[trigger] board_at(w.board, p) == (
        if p == from {
            e
        } else if p == to {
            piece
        } else if capture == Some(p) {
            e
        } else {
            board_at(b, p)
        }) by {
        lemma_square_injective(p, from);
        lemma_square_injective(p, to);
        lemma_square_injective(p, c);
    }
    assert forall|j: int| 0 <= j < s.len() implies {
        &&& (#[trigger] s5[j]).id == s[j].id
        &&& s5[j].color == s[j].color
        &&& (j == kp ==> s5[j].position == to && s5[j].captured == (from == to))
        &&& (j != kp ==> s5[j].position == s[j].position)
        &&& (j != kp ==> s5[j].captured == (s[j].captured || s[j].position == to
            || capture == Some(s[j].position)))
        &&& s5[j].has_moved == (s[j].has_moved || (is_real && j == kp))
    } by {
        if from == to {
            assert(kx == kp);
        } else {
            if cap_t {
                assert(x != piece) by {
                    if x == piece {
                        lemma_sync_unique_square(b, e, s, kp, to);
                    }
                }
                assert(kx != kp);
            }
        }
        if cap_c {
            assert(y != piece) by {
                if y == piece {
                    lemma_sync_unique_square(b, e, s, kp, c);
                }
            }
            assert(ky != kp);
        }
        if j != kp {
            let pj = s[j].position;
            if !s[j].captured {
                assert(board_at(b, pj) == s[j].id);
                if pj == to {
                    lemma_index_of(s, j);
                    assert(j == kx);
                }
                if capture == Some(pj) && pj != to {
                    lemma_square_injective(pj, c);
                    lemma_index_of(s, j);
                    assert(cap_c);
                    assert(j == ky);
                }
            }
            if cap_t && j == kx {
                assert(s[j].id == x);
                lemma_sync_unique_square(b, e, s, j, to);
            }
            if cap_c && j == ky {
                assert(s[j].id == y);
                lemma_sync_unique_square(b, e, s, j, c);
            }
        }
    }
}

/// What a move records: the squares it touches with their pieces, and the pieces it captures.
pub proof fn lemma_do_move_records(v: GameView, piece: u64, from: Position, to: Position, capture: Option<Position>, is_real: bool)
    requires
        v.board.len() == 64,
        from.in_bounds(),
        to.in_bounds(),
        capture matches Some(c) ==> c.in_bounds() && c != from,
    ensures
        ({
            let w = do_move_spec(v, piece, from, to, capture, is_real);
            let x = board_at(v.board, to);
            let has_c = match capture { Some(c) => c != to, None => false };
            let c = match capture { Some(c) => c, None => from };
            let y = board_at(v.board, c);
            &&& w.empty == v.empty
            &&& w.rules == v.rules
            &&& w.past == v.past
            &&& w.current == v.current
            &&& w.future == v.future
            &&& w.changes == v.changes + (if has_c { seq![(from, board_at(v.board, from)), (to, x), (c, y)] } else { seq![(from, board_at(v.board, from)), (to, x)] })
            &&& w.to_despawn == v.to_despawn + (if has_c && y != v.empty { seq![y] } else { Seq::empty() })
                + (if x != v.empty { seq![x] } else { Seq::empty() })
        }),
{
    reveal(do_move_spec);
    let w = do_move_spec(v, piece, from, to, capture, is_real);
    let b = v.board;
    let e = v.empty;
    lemma_square_injective(from, to);
    let x = board_at(b, to);
    let has_c = match capture { Some(c) => c != to, None => false };
    let c = match capture { Some(c) => c, None => from };
    let y = board_at(b, c);
    let dt: Seq<u64> = if x != e { seq![x] } else { Seq::empty() };
    match capture {
        Some(cc) => {
            if cc != to {
                lemma_square_injective(cc, to);
                assert(c == cc);
                assert(w.changes =~= v.changes + seq![(from, board_at(v.board, from)), (to, x), (c, y)]);
                if y != e {
                    assert(w.to_despawn =~= v.to_despawn + seq![y] + dt);
                } else {
                    assert(w.to_despawn =~= v.to_despawn + Seq::<u64>::empty() + dt);
                }
            } else {
                assert(w.changes =~= v.changes + seq![(from, board_at(v.board, from)), (to, x)]);
                assert(w.to_despawn =~= v.to_despawn + Seq::<u64>::empty() + dt);
            }
        },
        None => {
            assert(w.changes =~= v.changes + seq![(from, board_at(v.board, from)), (to, x)]);
            assert(w.to_despawn =~= v.to_despawn + Seq::<u64>::empty() + dt);
        },
    }
}

/// A move keeps the board and the piece states synchronized.
pub proof fn lemma_do_move_wf(v: GameView, piece: u64, from: Position, to: Position, capture: Option<Position>, is_real: bool)
    requires
        view_wf(v),
        from.in_bounds(),
        to.in_bounds(),
        capture matches Some(c) ==> c.in_bounds() && c != from,
        at(v, from) == piece,
        piece != v.empty,
    ensures
        view_wf(do_move_spec(v, piece, from, to, capture, is_real)),
{
    let w = do_move_spec(v, piece, from, to, capture, is_real);
    let s = v.states;
    let b = v.board;
    let e = v.empty;
    lemma_do_move_effect(v, piece, from, to, capture, is_real);
    lemma_do_move_records(v, piece, from, to, capture, is_real);
    let kp = index_of(s, piece);
    assert forall|j: int| 0 <= j < w.states.len() implies (#[trigger] w.states[j]).position.in_bounds() by {
        assert(s[j].position.in_bounds());
    }
    assert forall|j: int| 0 <= j < w.states.len() && !(#[trigger] w.states[j]).captured
        implies board_at(w.board, w.states[j].position) == w.states[j].id by {
        let pj = s[j].position;
        if j != kp {
            assert(board_at(b, pj) == s[j].id);
            if pj == from {
                lemma_index_of(s, j);
            }
        }
    }
    assert forall|p: Position| p.in_bounds() && #[trigger] board_at(w.board, p) != e implies {
        &&& has_id(w.states, board_at(w.board, p))
        &&& !w.states[index_of(w.states, board_at(w.board, p))].captured
        &&& w.states[index_of(w.states, board_at(w.board, p))].position == p
    } by {
        if p != to {
            let z = board_at(b, p);
            assert(board_at(w.board, p) == z);
            let kz = index_of(s, z);
            lemma_index_of_range(s, z);
            assert(s[kz].position == p);
            assert(kz != kp);
        }
    }
    assert forall|i: int| 0 <= i < w.changes.len() implies (#[trigger] w.changes[i]).0.in_bounds() by {
        if i < v.changes.len() {
            assert(w.changes[i] == v.changes[i]);
        }
    }
}

/// Two boards that agree on every square are equal.
pub proof fn lemma_boards_equal(b1: Seq<u64>, b2: Seq<u64>)
    requires
        b1.len() == 64,
        b2.len() == 64,
        forall|p: Position| p.in_bounds() ==> #[trigger] board_at(b1, p) == board_at(b2, p),
    ensures
        b1 == b2,
{
    assert forall|i: int| 0 <= i < 64 implies b1[i] == b2[i] by {
        let p = Position { rank: (i / 8) as isize, file: (i % 8) as isize };
        assert(square(p) == i);
        assert(board_at(b1, p) == board_at(b2, p));
    }
    assert(b1 =~= b2);
}

/// Undoing two records.
pub proof fn lemma_restore_all_2(bs: (Seq<u64>, Seq<PieceState>), a: (Position, u64), b: (Position, u64))
    ensures
        restore_all(bs, seq![a, b]) == restore_one(restore_one(bs, b), a),
{
    let d = seq![a, b];
    assert(d.drop_first() =~= seq![b]);
    assert(seq![b].drop_first() =~= Seq::<(Position, u64)>::empty());
    assert(restore_all(bs, seq![b]) == restore_one(restore_all(bs, seq![b].drop_first()), b));
}

/// Undoing three records.
pub proof fn lemma_restore_all_3(bs: (Seq<u64>, Seq<PieceState>), a: (Position, u64), b: (Position, u64), c: (Position, u64))
    ensures
        restore_all(bs, seq![a, b, c]) == restore_one(restore_one(restore_one(bs, c), b), a),
{
    let d = seq![a, b, c];
    assert(d.drop_first() =~= seq![b, c]);
    lemma_restore_all_2(bs, b, c);
}

/// Undoing what a move recorded puts the board and the piece states back as
/// they were before it, when the move was not a real one.
#[verifier::rlimit(60)]
pub proof fn lemma_restore_undoes_do_move(v: GameView, piece: u64, from: Position, to: Position, capture: Option<Position>)
    requires
        board_sync(v.board, v.empty, v.states),
        from.in_bounds(),
        to.in_bounds(),
        capture matches Some(c) ==> c.in_bounds() && c != from,
        at(v, from) == piece,
        piece != v.empty,
    ensures
        ({
            let w = do_move_spec(v, piece, from, to, capture, false);
            &&& w.changes.len() >= v.changes.len()
            &&& w.changes.subrange(0, v.changes.len() as int) == v.changes
            &&& restore_all((w.board, w.states), w.changes.skip(v.changes.len() as int)) == (v.board, v.states)
        }),
{
    let w = do_move_spec(v, piece, from, to, capture, false);
    let s = v.states;
    let b = v.board;
    let e = v.empty;
    lemma_do_move_effect(v, piece, from, to, capture, false);
    lemma_do_move_records(v, piece, from, to, capture, false);
    let kp = index_of(s, piece);
    let n = v.changes.len() as int;
    let d = w.changes.skip(n);
    let x = board_at(b, to);
    let has_c = match capture { Some(c) => c != to, None => false };
    let c = match capture { Some(c) => c, None => from };
    let y = board_at(b, c);
    if has_c {
        assert(d =~= seq![(from, piece), (to, x), (c, y)]);
    } else {
        assert(d =~= seq![(from, piece), (to, x)]);
    }
    assert(w.changes.subrange(0, n) =~= v.changes);
    // undo the records one at a time
    let r0 = (w.board, w.states);
    let r1 = if has_c { restore_one(r0, (c, y)) } else { r0 };
    let r2 = restore_one(r1, (to, x));
    let r3 = restore_one(r2, (from, piece));
    if has_c {
        lemma_restore_all_3(r0, (from, piece), (to, x), (c, y));
    } else {
        lemma_restore_all_2(r0, (from, piece), (to, x));
    }
    assert(restore_all(r0, d) == r3);
    // the states keep their ids through each undo
    assert(forall|id: u64| has_id(w.states, id) == has_id(s, id));
    if has_c && has_id(w.states, y) {
        lemma_index_of_range(w.states, y);
        let k = index_of(w.states, y);
        lemma_update_same_id(w.states, k, PieceState { position: c, captured: false, ..w.states[k] });
    }
    assert(ids_unique(r1.1));
    assert(forall|id: u64| #[trigger] index_of(r1.1, id) == index_of(s, id));
    assert(forall|id: u64| has_id(r1.1, id) == has_id(s, id));
    if has_id(r1.1, x) {
        lemma_index_of_range(r1.1, x);
        let k = index_of(r1.1, x);
        lemma_update_same_id(r1.1, k, PieceState { position: to, captured: false, ..r1.1[k] });
    }
    assert(ids_unique(r2.1));
    assert(forall|id: u64| #[trigger] index_of(r2.1, id) == index_of(s, id));
    assert(forall|id: u64| has_id(r2.1, id) == has_id(s, id));
    lemma_index_of_range(s, piece);
    lemma_update_same_id(r2.1, kp, PieceState { position: from, captured: false, ..r2.1[kp] });
    // the board
    assert forall|p: Position| p.in_bounds() implies #[trigger] board_at(r3.0, p) == board_at(b, p) by {
        lemma_square_injective(p, from);
        lemma_square_injective(p, to);
        lemma_square_injective(p, c);
        assert(board_at(r3.0, p) == r3.0[square(p)]);
        if p == from {
        } else if p == to {
            assert(r3.0[square(p)] == r2.0[square(p)]);
        } else if has_c && p == c {
            assert(r3.0[square(p)] == r2.0[square(p)]);
            assert(r2.0[square(p)] == r1.0[square(p)]);
        } else {
            assert(r3.0[square(p)] == r2.0[square(p)]);
            assert(r2.0[square(p)] == r1.0[square(p)]);
            assert(r1.0[square(p)] == w.board[square(p)]);
            assert(board_at(w.board, p) == w.board[square(p)]);
            assert(capture != Some(p));
        }
    }
    lemma_boards_equal(r3.0, b);
    // the states
    assert forall|j: int| 0 <= j < s.len() implies r3.1[j] == s[j] by {
        let sj = s[j];
        let wj = w.states[j];
        lemma_index_of(s, j);
        if j == kp {
            assert(r3.1[j] == PieceState { position: from, captured: false, ..r2.1[j] });
        } else {
            assert(r3.1[j] == r2.1[j]);
            if has_id(s, x) && j == index_of(s, x) {
                assert(sj.id == x);
                lemma_sync_unique_square(b, e, s, j, to);
                assert(r2.1[j] == PieceState { position: to, captured: false, ..r1.1[j] });
                if has_c && has_id(s, y) && j == index_of(s, y) {
                    assert(r1.1[j] == PieceState { position: c, captured: false, ..wj });
                } else {
                    assert(r1.1[j] == wj);
                }
            } else {
                assert(r2.1[j] == r1.1[j]);
                if has_c && has_id(s, y) && j == index_of(s, y) {
                    assert(sj.id == y);
                    lemma_sync_unique_square(b, e, s, j, c);
                    assert(r1.1[j] == PieceState { position: c, captured: false, ..wj });
                } else {
                    assert(r1.1[j] == wj);
                    if !sj.captured {
                        assert(board_at(b, sj.position) == sj.id);
                        assert(sj.position != to);
                        assert(capture != Some(sj.position));
                    }
                }
            }
        }
    }
    assert(r3.1 =~= s);
}

/// The board, the changes since the last cleanup, the markers and the pieces.
pub struct Game {
    pub board: Board,
    pub board_changes: BoardChanges,
    pub marker_board: MarkerBoard,
    pub pieces: Pieces,
}

impl View for Game {
    type V = GameView;

    open spec fn view(&self) -> GameView {
        GameView {
            board: self.board@,
            empty: self.board.empty_piece,
            states: self.pieces.states@,
            rules: self.pieces.rules@,
            changes: self.board_changes.changes@,
            to_despawn: self.board_changes.to_despawn@,
            past: self.marker_board.past@,
            current: self.marker_board.current@,
            future: self.marker_board.future@,
        }
    }
}

/// One piece's step: the piece, the square it leaves, the square it goes to,
/// the square of its capture, and whether the step is real.
pub type PieceStep = (u64, Position, Position, Option<Position>, bool);

/// The state after the steps, made in order.
pub open spec fn do_moves_spec(v: GameView, steps: Seq<PieceStep>) -> GameView
    decreases steps.len(),
{
    if steps.len() == 0 {
        v
    } else {
        let st = steps.last();
        do_move_spec(do_moves_spec(v, steps.drop_last()), st.0, st.1, st.2, st.3, st.4)
    }
}

/// The step can be made in `v`: its squares lie on the board, its piece stands
/// on the square it leaves, and it does not capture on that square.
pub open spec fn step_can_be_made(v: GameView, st: PieceStep) -> bool {
    &&& st.1.in_bounds()
    &&& st.2.in_bounds()
    &&& (st.3 matches Some(c) ==> c.in_bounds() && c != st.1)
    &&& at(v, st.1) == st.0
    &&& st.0 != v.empty
}

/// Each step can be made in the state the steps before it leave.
pub open spec fn steps_can_be_made(v: GameView, steps: Seq<PieceStep>) -> bool
    decreases steps.len(),
{
    if steps.len() == 0 {
        true
    } else {
        steps_can_be_made(v, steps.drop_last()) && step_can_be_made(do_moves_spec(v, steps.drop_last()), steps.last())
    }
}

/// The squares of the step lie on the board.
pub open spec fn step_on_board(st: PieceStep) -> bool {
    &&& st.1.in_bounds()
    &&& st.2.in_bounds()
    &&& (st.3 matches Some(c) ==> c.in_bounds())
}

/// Undoing what one move of any piece recorded puts every square back.
pub proof fn lemma_step_board_undo(v: GameView, piece: u64, from: Position, to: Position, capture: Option<Position>, is_real: bool,
    s: Seq<PieceState>)
    requires
        v.board.len() == 64,
        from.in_bounds(),
        to.in_bounds(),
        capture matches Some(c) ==> c.in_bounds(),
    ensures
        ({
            let w = do_move_spec(v, piece, from, to, capture, is_real);
            let n = v.changes.len() as int;
            &&& w.board.len() == 64
            &&& w.changes.len() >= n
            &&& w.changes.subrange(0, n) == v.changes
            &&& forall|k: int| n <= k < w.changes.len() ==> (#[trigger] w.changes[k]).0.in_bounds()
            &&& restore_all((w.board, s), w.changes.skip(n)).0 == v.board
        }),
{
    reveal(do_move_spec);
    let w = do_move_spec(v, piece, from, to, capture, is_real);
    let n = v.changes.len() as int;
    let b = v.board;
    let e = v.empty;
    let has_c = match capture { Some(c) => c != to, None => false };
    let c = match capture { Some(c) => c, None => from };
    lemma_square_injective(from, to);
    lemma_square_injective(c, from);
    lemma_square_injective(c, to);
    let a1 = (from, board_at(b, from));
    let a2 = (to, board_at(b, to));
    let a3 = (c, board_at(b, c));
    let d = w.changes.skip(n);
    let r = if has_c {
        assert(w.changes =~= v.changes + seq![a1, a2, a3]);
        assert(d =~= seq![a1, a2, a3]);
        lemma_restore_all_3((w.board, s), a1, a2, a3);
        restore_all((w.board, s), d)
    } else {
        assert(w.changes =~= v.changes + seq![a1, a2]);
        assert(d =~= seq![a1, a2]);
        lemma_restore_all_2((w.board, s), a1, a2);
        restore_all((w.board, s), d)
    };
    assert forall|p: Position| p.in_bounds() implies #[trigger] board_at(r.0, p) == board_at(b, p) by {
        lemma_square_injective(p, from);
        lemma_square_injective(p, to);
        lemma_square_injective(p, c);
    }
    lemma_boards_equal(r.0, b);
    assert(w.changes.subrange(0, n) =~= v.changes);
}

/// The squares of every step lie on the board.
pub open spec fn steps_on_board(steps: Seq<PieceStep>) -> bool {
    forall|j: int| 0 <= j < steps.len() ==> step_on_board(#[trigger] steps[j])
}

/// Undoing the records of any number of moves, of any pieces, puts every
/// square back as it was; the earlier records stay.
pub proof fn lemma_restore_board_undoes_moves(v: GameView, steps: Seq<PieceStep>, s: Seq<PieceState>)
    requires
        v.board.len() == 64,
        forall|k: int| 0 <= k < v.changes.len() ==> (#[trigger] v.changes[k]).0.in_bounds(),
        steps_on_board(steps),
    ensures
        ({
            let w = do_moves_spec(v, steps);
            let n = v.changes.len() as int;
            &&& w.board.len() == 64
            &&& w.changes.len() >= n
            &&& w.changes.subrange(0, n) == v.changes
            &&& forall|k: int| 0 <= k < w.changes.len() ==> (#[trigger] w.changes[k]).0.in_bounds()
            &&& restore_all((w.board, s), w.changes.skip(n)).0 == v.board
            &&& n == 0 ==> restore_changes_spec(w).board == v.board
        }),
    decreases steps.len(),
{
    let n = v.changes.len() as int;
    let w = do_moves_spec(v, steps);
    if steps.len() == 0 {
        assert(w.changes.skip(n) =~= Seq::<(Position, u64)>::empty());
        assert(w.changes.subrange(0, n) =~= v.changes);
        assert(restore_all((w.board, s), w.changes.skip(n)) == (w.board, s));
    } else {
        let pre = steps.drop_last();
        let st = steps.last();
        assert(step_on_board(steps[steps.len() - 1]));
        assert forall|j: int| 0 <= j < pre.len() implies step_on_board(#[trigger] pre[j]) by {
            assert(pre[j] == steps[j]);
        }
        let wp = do_moves_spec(v, pre);
        lemma_restore_board_undoes_moves(v, pre, s);
        lemma_step_board_undo(wp, st.0, st.1, st.2, st.3, st.4, s);
        let m = wp.changes.len() as int;
        let d = w.changes.skip(m);
        let dp = wp.changes.skip(n);
        assert(w.changes.subrange(0, m) == wp.changes);
        assert forall|k: int| 0 <= k < w.changes.len() implies (#[trigger] w.changes[k]).0.in_bounds() by {
            if k < m {
                assert(w.changes[k] == w.changes.subrange(0, m)[k]);
            }
        }
        assert(w.changes.skip(n) =~= dp + d);
        assert(w.changes.subrange(0, n) =~= v.changes) by {
            assert(wp.changes.subrange(0, n) == v.changes);
        }
        lemma_restore_all_concat((w.board, s), dp, d);
        let x = restore_all((w.board, s), d);
        lemma_restore_board_undoes_moves(v, pre, x.1);
        assert(x == (wp.board, x.1));
        assert(restore_all((w.board, s), w.changes.skip(n)) == restore_all((wp.board, x.1), dp));
    }
    if n == 0 {
        assert(w.changes.skip(0) =~= w.changes);
        lemma_restore_board_only(w.board, s, w.states, w.changes);
    }
}

/// Undoing records puts back the same squares whatever the piece states are.
pub proof fn lemma_restore_board_only(b: Seq<u64>, s1: Seq<PieceState>, s2: Seq<PieceState>, cs: Seq<(Position, u64)>)
    ensures
        restore_all((b, s1), cs).0 == restore_all((b, s2), cs).0,
    decreases cs.len(),
{
    if cs.len() > 0 {
        lemma_restore_board_only(b, s1, s2, cs.drop_first());
    }
}

/// Undoing the records of any number of steps puts every square back as it was;
/// when no step was real, every piece state too. The earlier records stay.
pub proof fn lemma_restore_undoes_moves(v: GameView, steps: Seq<PieceStep>)
    requires
        view_wf(v),
        steps_can_be_made(v, steps),
    ensures
        ({
            let w = do_moves_spec(v, steps);
            let n = v.changes.len() as int;
            &&& view_wf(w)
            &&& w.changes.len() >= n
            &&& w.changes.subrange(0, n) == v.changes
            &&& restore_all((w.board, w.states), w.changes.skip(n)).0 == v.board
            &&& (forall|j: int| 0 <= j < steps.len() ==> !(#[trigger] steps[j]).4)
                ==> restore_all((w.board, w.states), w.changes.skip(n)) == (v.board, v.states)
            &&& n == 0 ==> restore_changes_spec(w).board == v.board
        }),
    decreases steps.len(),
{
    let n = v.changes.len() as int;
    let w = do_moves_spec(v, steps);
    if steps.len() == 0 {
        assert(w.changes.skip(n) =~= Seq::<(Position, u64)>::empty());
        assert(w.changes.subrange(0, n) =~= v.changes);
    } else {
        let pre = steps.drop_last();
        let st = steps.last();
        lemma_restore_undoes_moves(v, pre);
        let wp = do_moves_spec(v, pre);
        lemma_do_move_wf(wp, st.0, st.1, st.2, st.3, st.4);
        lemma_restore_undoes_do_move(wp, st.0, st.1, st.2, st.3);
        let wf_ = do_move_spec(wp, st.0, st.1, st.2, st.3, false);
        assert(w.board == wf_.board && w.changes == wf_.changes) by {
            reveal(do_move_spec);
        }
        let m = wp.changes.len() as int;
        let d = w.changes.skip(m);
        let dp = wp.changes.skip(n);
        assert(w.changes.subrange(0, m) == wp.changes);
        assert(w.changes.skip(n) =~= dp + d);
        assert(w.changes.subrange(0, n) =~= v.changes) by {
            assert(wp.changes.subrange(0, n) == v.changes);
        }
        lemma_restore_all_concat((w.board, w.states), dp, d);
        lemma_restore_board_only(w.board, w.states, wf_.states, d);
        let x = restore_all((w.board, w.states), d);
        assert(x.0 == wp.board);
        lemma_restore_board_only(wp.board, x.1, wp.states, dp);
        if forall|j: int| 0 <= j < steps.len() ==> !(#[trigger] steps[j]).4 {
            assert(!steps[steps.len() - 1].4);
            assert(w == wf_);
            assert forall|j: int| 0 <= j < pre.len() implies !(#[trigger] pre[j]).4 by {
                assert(pre[j] == steps[j]);
            }
        }
        if n == 0 {
            assert(w.changes.skip(0) =~= w.changes);
        }
    }
}

impl Game {
    pub open spec fn wf(&self) -> bool {
        &&& self.board.wf()
        &&& self.pieces.wf()
        &&& view_wf(self@)
    }
}

/// The state held by a board, its record of changes and the pieces, without markers.
pub open spec fn board_view(board: &Board, changes: &BoardChanges, pieces: &Pieces) -> GameView {
    GameView {
        board: board@,
        empty: board.empty_piece,
        states: pieces.states@,
        rules: pieces.rules@,
        changes: changes.changes@,
        to_despawn: changes.to_despawn@,
        past: Seq::empty(),
        current: Seq::empty(),
        future: Seq::empty(),
    }
}

/// `v` with the given markers.
pub open spec fn with_markers(v: GameView, past: Seq<Marker>, current: Seq<Marker>, future: Seq<Marker>) -> GameView {
    GameView { past, current, future, ..v }
}

/// A move and an undo do not look at the markers.
pub proof fn lemma_markers_untouched(v: GameView, piece: u64, from: Position, to: Position, capture: Option<Position>, is_real: bool,
    past: Seq<Marker>, current: Seq<Marker>, future: Seq<Marker>)
    ensures
        do_move_spec(with_markers(v, past, current, future), piece, from, to, capture, is_real)
            == with_markers(do_move_spec(v, piece, from, to, capture, is_real), past, current, future),
        restore_changes_spec(with_markers(v, past, current, future)) == with_markers(restore_changes_spec(v), past, current, future),
{
    reveal(do_move_spec);
}

impl Board {
    /// Moves `piece` from `from` to `to`, capturing the piece on `to` and, when it
    /// is another square, the piece on `capture`. Each square touched is recorded
    /// with its piece, each captured piece is listed for removal, and a real move
    /// marks the piece as having moved.
    pub fn do_move(&mut self, board_changes: &mut BoardChanges, pieces: &mut Pieces, piece: u64, from: Position, to: Position,
        capture: Option<Position>, is_real: bool)
        requires
            old(self).wf(),
            old(pieces).wf(),
            from.in_bounds(),
            to.in_bounds(),
            capture matches Some(c) ==> c.in_bounds(),
        ensures
            board_view(final(self), final(board_changes), final(pieces))
                == do_move_spec(board_view(old(self), old(board_changes), old(pieces)), piece, from, to, capture, is_real),
            final(self).wf(),
            final(pieces).wf(),
            view_wf(board_view(old(self), old(board_changes), old(pieces))) && board_at(old(self)@, from) == piece
                && piece != old(self).empty_piece && (capture matches Some(c) ==> c != from)
                ==> view_wf(board_view(final(self), final(board_changes), final(pieces))),
    {
        proof {
            if view_wf(board_view(self, board_changes, pieces)) && board_at(self@, from) == piece && piece != self.empty_piece
                && (capture matches Some(c) ==> c != from) {
                lemma_do_move_wf(board_view(self, board_changes, pieces), piece, from, to, capture, is_real);
            }
            reveal(do_move_spec);
        }
        let at_from = self.index(from);
        let at_to = self.index(to);
        board_changes.changes.push((from, at_from));
        board_changes.changes.push((to, at_to));
        if let Some(c) = capture {
            if c != to {
                let at_c = self.index(c);
                board_changes.changes.push((c, at_c));
                if !self.is_empty(c) {
                    board_changes.to_despawn.push(at_c);
                    pieces.set_captured(at_c);
                    let empty = self.empty_piece;
                    self.set(c, empty);
                }
            }
        }
        if !self.is_empty(to) {
            let victim = self.index(to);
            board_changes.to_despawn.push(victim);
            pieces.set_captured(victim);
        }
        self.set(to, piece);
        let empty = self.empty_piece;
        self.set(from, empty);
        pieces.set_position(piece, to);
        if is_real {
            pieces.set_moved(piece);
        }
    }

    /// Undoes every recorded change, the last one first: each recorded piece goes
    /// back to its square and into play. The record is emptied.
    pub fn restore_changes(&mut self, board_changes: &mut BoardChanges, pieces: &mut Pieces)
        requires
            old(self).wf(),
            old(pieces).wf(),
            forall|k: int| 0 <= k < old(board_changes).changes@.len() ==> (#[trigger] old(board_changes).changes@[k]).0.in_bounds(),
        ensures
            board_view(final(self), final(board_changes), final(pieces))
                == restore_changes_spec(board_view(old(self), old(board_changes), old(pieces))),
            final(self).wf(),
            final(pieces).wf(),
    {
        let ghost v0 = board_view(self, board_changes, pieces);
        let mut changes: Vec<(Position, u64)> = Vec::new();
        std::mem::swap(&mut changes, &mut board_changes.changes);
        board_changes.to_despawn.clear();
        let mut i: usize = changes.len();
        assert(changes@.skip(i as int) =~= Seq::<(Position, u64)>::empty());
        assert(forall|k: int| 0 <= k < changes@.len() ==> changes@[k] == v0.changes[k]);
        while i > 0
            invariant
                i <= changes@.len(),
                changes@ == v0.changes,
                forall|k: int| 0 <= k < changes@.len() ==> (#[trigger] changes@[k]).0.in_bounds(),
                self.wf(),
                pieces.wf(),
                self.empty_piece == v0.empty,
                pieces.rules@ == v0.rules,
                board_changes.changes@.len() == 0,
                board_changes.to_despawn@.len() == 0,
                (self@, pieces.states@) == restore_all((v0.board, v0.states), changes@.skip(i as int)),
            decreases i,
        {
            i = i - 1;
            let (p, id) = changes[i];
            assert(changes@.skip(i as int).drop_first() =~= changes@.skip(i + 1));
            assert(changes@.skip(i as int)[0] == changes@[i as int]);
            self.set(p, id);
            pieces.restore_piece(id, p);
        }
        assert(changes@.skip(0) =~= changes@);
        assert(board_changes.changes@ =~= Seq::<(Position, u64)>::empty());
        assert(board_changes.to_despawn@ =~= Seq::<u64>::empty());
    }
}

impl Game {
    /// The game is its board view with its markers.
    pub proof fn lemma_view_parts(&self)
        ensures
            self@ == with_markers(board_view(&self.board, &self.board_changes, &self.pieces),
                self.marker_board.past@, self.marker_board.current@, self.marker_board.future@),
            view_wf(self@) ==> view_wf(board_view(&self.board, &self.board_changes, &self.pieces)),
    {
        let w = board_view(&self.board, &self.board_changes, &self.pieces);
        assert(markers_in_bounds(w.past));
        assert(markers_in_bounds(w.current));
        assert(markers_in_bounds(w.future));
        if view_wf(self@) {
            assert(board_sync(w.board, w.empty, w.states));
            assert(w.rules == self@.rules);
            assert(w.changes == self@.changes);
        }
    }

    /// Moves `piece` from `from` to `to` (see `Board::do_move`).
    pub(crate) fn do_move(&mut self, piece: u64, from: Position, to: Position, capture: Option<Position>, is_real: bool)
        requires
            old(self).wf(),
            from.in_bounds(),
            to.in_bounds(),
            capture matches Some(c) ==> c.in_bounds() && c != from,
            at(old(self)@, from) == piece,
            piece != old(self).board.empty_piece,
        ensures
            final(self)@ == do_move_spec(old(self)@, piece, from, to, capture, is_real),
            final(self).wf(),
    {
        let ghost v = self@;
        proof {
            self.lemma_view_parts();
            lemma_markers_untouched(board_view(&self.board, &self.board_changes, &self.pieces), piece, from, to, capture, is_real,
                v.past, v.current, v.future);
            lemma_do_move_wf(v, piece, from, to, capture, is_real);
        }
        self.board.do_move(&mut self.board_changes, &mut self.pieces, piece, from, to, capture, is_real);
        proof {
            self.lemma_view_parts();
        }
    }

    /// Undoes every recorded change (see `Board::restore_changes`).
    pub fn restore_changes(&mut self)
        requires
            old(self).wf(),
        ensures
            final(self)@ == restore_changes_spec(old(self)@),
            final(self).board.wf(),
            final(self).pieces.wf(),
    {
        let ghost v = self@;
        proof {
            self.lemma_view_parts();
            lemma_markers_untouched(board_view(&self.board, &self.board_changes, &self.pieces), v.empty, Position { rank: 0, file: 0 },
                Position { rank: 0, file: 0 }, None, false, v.past, v.current, v.future);
        }
        self.board.restore_changes(&mut self.board_changes, &mut self.pieces);
        proof {
            self.lemma_view_parts();
        }
    }
}

} // verus!
