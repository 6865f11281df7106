use vstd::prelude::*;

use crate::board::{board_at, lemma_square_injective, square, Board, BoardChanges};
use crate::game::{at, board_sync, lemma_sync_unique_square, markers_in_bounds, view_wf, Game, GameView};
use crate::markers::MarkerBoard;
use crate::pieces::{
    has_id, ids_unique, index_of, lemma_index_of, lemma_index_of_range, lemma_push_new_id, lemma_remove_id,
    lemma_update_same_id, set_captured_spec, PieceColor, PieceRules, PieceState, Pieces,
};
use crate::position::Position;
use crate::preset_pieces::{
    bishop, bishop_rules, black_pawn, king, king_rules, knight, knight_rules, pawn_rules, queen, queen_rules, rook,
    rook_rules, white_pawn,
};

verus! {

/// The kinds of pieces of the standard set.
#[derive(PartialEq, Eq, Structural, Debug, Clone, Copy)]
pub enum PieceKind {
    Pawn,
    Knight,
    Bishop,
    Rook,
    Queen,
    King,
}

/// The rules are those of a piece of the kind and color: a pawn moves towards
/// the other side, up for white and down for black.
pub open spec fn kind_rules(r: PieceRules, kind: PieceKind, color: PieceColor) -> bool {
    match kind {
        PieceKind::Pawn => pawn_rules(r, if color == PieceColor::White { 1isize } else { -1isize }),
        PieceKind::Knight => knight_rules(r),
        PieceKind::Bishop => bishop_rules(r),
        PieceKind::Rook => rook_rules(r),
        PieceKind::Queen => queen_rules(r),
        PieceKind::King => king_rules(r),
    }
}

/// The rules of a piece of the kind and color (pawns move towards the other side).
pub fn rules_for(kind: PieceKind, color: PieceColor) -> (r: PieceRules)
    ensures
        r.wf(),
        kind_rules(r, kind, color),
        r.promoting == (kind == PieceKind::Pawn),
        r.castle_top == (kind == PieceKind::King),
        r.check_detector == (kind == PieceKind::King),
        r.castle_bottom == (kind == PieceKind::Rook),
{
    match kind {
        PieceKind::Pawn => match color {
            PieceColor::White => white_pawn(),
            PieceColor::Black => black_pawn(),
        },
        PieceKind::Knight => knight(),
        PieceKind::Bishop => bishop(),
        PieceKind::Rook => rook(),
        PieceKind::Queen => queen(),
        PieceKind::King => king(),
    }
}

/// The kind of piece on each file of the first rank.
pub open spec fn back_rank_kind(file: int) -> PieceKind {
    if file == 0 || file == 7 {
        PieceKind::Rook
    } else if file == 1 || file == 6 {
        PieceKind::Knight
    } else if file == 2 || file == 5 {
        PieceKind::Bishop
    } else if file == 3 {
        PieceKind::Queen
    } else {
        PieceKind::King
    }
}

/// The pieces of a new game, in the order they are set up: the white first
/// rank, the black last rank, then the pawns file by file, white before black.
pub open spec fn standard_placements() -> Seq<(PieceColor, Position, PieceKind)> {
    Seq::new(32, |i: int|
        if i < 8 {
            (PieceColor::White, Position { rank: 0, file: i as isize }, back_rank_kind(i))
        } else if i < 16 {
            (PieceColor::Black, Position { rank: 7, file: (i - 8) as isize }, back_rank_kind(i - 8))
        } else if (i - 16) % 2 == 0 {
            (PieceColor::White, Position { rank: 1, file: ((i - 16) / 2) as isize }, PieceKind::Pawn)
        } else {
            (PieceColor::Black, Position { rank: 6, file: ((i - 16) / 2) as isize }, PieceKind::Pawn)
        })
}

fn back_rank(file: isize) -> (k: PieceKind)
    requires
        0 <= file < 8,
    ensures
        k == back_rank_kind(file as int),
{
    if file == 0 || file == 7 {
        PieceKind::Rook
    } else if file == 1 || file == 6 {
        PieceKind::Knight
    } else if file == 2 || file == 5 {
        PieceKind::Bishop
    } else if file == 3 {
        PieceKind::Queen
    } else {
        PieceKind::King
    }
}

/// The pieces of a new game: color, square and kind of each.
pub fn standard_setup() -> (v: Vec<(PieceColor, Position, PieceKind)>)
    ensures
        v@ == standard_placements(),
{
    let mut v: Vec<(PieceColor, Position, PieceKind)> = Vec::new();
    let mut file: isize = 0;
    while file < 8
        invariant
            0 <= file <= 8,
            v@ == standard_placements().subrange(0, file as int),
        decreases 8 - file,
    {
        v.push((PieceColor::White, Position::new(0, file), back_rank(file)));
        assert(v@ =~= standard_placements().subrange(0, file + 1));
        file = file + 1;
    }
    let mut file: isize = 0;
    while file < 8
        invariant
            0 <= file <= 8,
            v@ == standard_placements().subrange(0, 8 + file),
        decreases 8 - file,
    {
        v.push((PieceColor::Black, Position::new(7, file), back_rank(file)));
        assert(v@ =~= standard_placements().subrange(0, 8 + file + 1));
        file = file + 1;
    }
    let mut file: isize = 0;
    while file < 8
        invariant
            0 <= file <= 8,
            v@ == standard_placements().subrange(0, 16 + 2 * file),
        decreases 8 - file,
    {
        v.push((PieceColor::White, Position::new(1, file), PieceKind::Pawn));
        v.push((PieceColor::Black, Position::new(6, file), PieceKind::Pawn));
        assert(v@ =~= standard_placements().subrange(0, 16 + 2 * file + 2));
        file = file + 1;
    }
    assert(v@ =~= standard_placements());
    v
}

/// The pieces of a new game stand on distinct squares of the board.
pub proof fn lemma_standard_distinct()
    ensures
        forall|i: int| 0 <= i < 32 ==> (#[trigger] standard_placements()[i]).1.in_bounds(),
        forall|i: int, j: int| 0 <= i < j < 32 ==>
            (#[trigger] standard_placements()[i]).1 != (#[trigger] standard_placements()[j]).1,
{
}

/// In a consistent game whose pieces are the standard set in play, a square of
/// the board is empty exactly when it lies on the ranks 2 to 5.
pub proof fn lemma_standard_empty_ranks(v: GameView)
    requires
        view_wf(v),
        v.states.len() == 32,
        forall|i: int| 0 <= i < 32 ==> (#[trigger] v.states[i]).position == standard_placements()[i].1
            && !v.states[i].captured,
    ensures
        forall|p: Position| p.in_bounds() ==> (#[trigger] board_at(v.board, p) == v.empty <==> 2 <= p.rank <= 5),
{
    assert forall|p: Position| p.in_bounds() implies (#[trigger] board_at(v.board, p) == v.empty <==> 2 <= p.rank <= 5) by {
        if p.rank == 0 || p.rank == 1 || p.rank == 6 || p.rank == 7 {
            let i: int = if p.rank == 0 {
                p.file as int
            } else if p.rank == 7 {
                8 + p.file
            } else if p.rank == 1 {
                16 + 2 * p.file
            } else {
                17 + 2 * p.file
            };
            assert(standard_placements()[i].1 == p);
            assert(board_at(v.board, p) == v.states[i].id);
            lemma_index_of(v.states, i);
            if v.states[i].id == v.empty {
                assert(has_id(v.states, v.empty));
            }
        } else if board_at(v.board, p) != v.empty {
            let z = board_at(v.board, p);
            lemma_index_of_range(v.states, z);
            let j = index_of(v.states, z);
            assert(v.states[j].position == p);
            assert(standard_placements()[j].1 == p);
        }
    }
}

/// The state with a piece added on an empty square.
pub open spec fn add_piece_spec(v: GameView, id: u64, color: PieceColor, position: Position, rules: PieceRules) -> GameView {
    GameView {
        board: v.board.update(square(position), id),
        states: v.states.push(PieceState { id, color, position, has_moved: false, captured: false }),
        rules: v.rules.push(rules),
        ..v
    }
}

impl Game {
    /// A game with no pieces: every square holds the empty piece.
    pub fn new(empty_piece: u64) -> (g: Self)
        ensures
            g.wf(),
            g@.empty == empty_piece,
            g@.states.len() == 0,
            g@.changes.len() == 0,
            g@.to_despawn.len() == 0,
            g@.past.len() == 0,
            g@.current.len() == 0,
            g@.future.len() == 0,
            forall|p: Position| p.in_bounds() ==> #[trigger] board_at(g@.board, p) == empty_piece,
    {
        let g = Game {
            board: Board::new(empty_piece),
            board_changes: BoardChanges::new(),
            marker_board: MarkerBoard::new(),
            pieces: Pieces::new(),
        };
        assert forall|p: Position| p.in_bounds() implies #[trigger] board_at(g@.board, p) == empty_piece by {
            lemma_square_injective(p, p);
        }
        g
    }

    /// Puts a new piece with the id on the empty square.
    pub fn add_piece(&mut self, id: u64, color: PieceColor, position: Position, rules: PieceRules)
        requires
            old(self).wf(),
            position.in_bounds(),
            at(old(self)@, position) == old(self)@.empty,
            !has_id(old(self)@.states, id),
            id != old(self)@.empty,
            rules.wf(),
        ensures
            final(self).wf(),
            final(self)@ == add_piece_spec(old(self)@, id, color, position, rules),
    {
        let ghost v = self@;
        let state = PieceState { id, color, position, has_moved: false, captured: false };
        proof {
            lemma_push_new_id(v.states, state);
            lemma_square_injective(position, position);
        }
        self.board.set(position, id);
        self.pieces.states.push(state);
        self.pieces.rules.push(rules);
        let ghost w = self@;
        assert(w == add_piece_spec(v, id, color, position, rules));
        assert forall|j: int| 0 <= j < w.states.len() implies (#[trigger] w.states[j]).position.in_bounds() by {
            if j < v.states.len() {
                assert(w.states[j] == v.states[j]);
            }
        }
        assert forall|j: int| 0 <= j < w.states.len() && !(#[trigger] w.states[j]).captured
            implies board_at(w.board, w.states[j].position) == w.states[j].id by {
            if j < v.states.len() {
                assert(w.states[j] == v.states[j]);
                let pj = v.states[j].position;
                lemma_square_injective(pj, position);
                if pj == position {
                    assert(board_at(v.board, pj) == v.states[j].id);
                    lemma_index_of(v.states, j);
                    assert(v.states[j].id != v.empty) by {
                        if v.states[j].id == v.empty {
                            assert(has_id(v.states, v.empty));
                        }
                    }
                }
            }
        }
        assert forall|p: Position| p.in_bounds() && #[trigger] board_at(w.board, p) != w.empty implies {
            &&& has_id(w.states, board_at(w.board, p))
            &&& !w.states[index_of(w.states, board_at(w.board, p))].captured
            &&& w.states[index_of(w.states, board_at(w.board, p))].position == p
        } by {
            lemma_square_injective(p, position);
            if p != position {
                let z = board_at(v.board, p);
                assert(board_at(w.board, p) == z);
                lemma_index_of_range(v.states, z);
                assert(w.states[index_of(v.states, z)] == v.states[index_of(v.states, z)]);
            }
        }
        assert forall|j: int| 0 <= j < w.rules.len() implies (#[trigger] w.rules[j]).wf() by {
            if j < v.rules.len() {
                assert(w.rules[j] == v.rules[j]);
            }
        }
    }

    /// A new game with the standard pieces, taking the ids of `ids` in the order
    /// of `standard_placements`.
    pub fn standard(empty_piece: u64, ids: &Vec<u64>) -> (g: Self)
        requires
            ids@.len() == 32,
            forall|i: int, j: int| 0 <= i < j < 32 ==> ids@[i] != ids@[j],
            forall|i: int| 0 <= i < 32 ==> ids@[i] != empty_piece,
        ensures
            g.wf(),
            g@.empty == empty_piece,
            g@.states.len() == 32,
            forall|i: int| 0 <= i < 32 ==> (#[trigger] g@.states[i]) == (PieceState {
                id: ids@[i],
                color: standard_placements()[i].0,
                position: standard_placements()[i].1,
                has_moved: false,
                captured: false,
            }),
            forall|i: int| 0 <= i < 32 ==>
                kind_rules(#[trigger] g@.rules[i], standard_placements()[i].2, standard_placements()[i].0),
            forall|p: Position| p.in_bounds() ==> (#[trigger] board_at(g@.board, p) == empty_piece <==> 2 <= p.rank <= 5),
            g@.changes.len() == 0,
            g@.to_despawn.len() == 0,
            g@.past.len() == 0,
            g@.current.len() == 0,
            g@.future.len() == 0,
    {
        let placements = standard_setup();
        let mut g = Game::new(empty_piece);
        proof {
            lemma_standard_distinct();
        }
        let mut i: usize = 0;
        while i < 32
            invariant
                g.wf(),
                placements@ == standard_placements(),
                ids@.len() == 32,
                forall|a: int, b: int| 0 <= a < b < 32 ==> ids@[a] != ids@[b],
                forall|a: int| 0 <= a < 32 ==> ids@[a] != empty_piece,
                forall|a: int| 0 <= a < 32 ==> (#[trigger] standard_placements()[a]).1.in_bounds(),
                forall|a: int, b: int| 0 <= a < b < 32 ==>
                    (#[trigger] standard_placements()[a]).1 != (#[trigger] standard_placements()[b]).1,
                i <= 32,
                g@.empty == empty_piece,
                g@.states.len() == i,
                forall|a: int| 0 <= a < i ==> (#[trigger] g@.states[a]) == (PieceState {
                    id: ids@[a],
                    color: standard_placements()[a].0,
                    position: standard_placements()[a].1,
                    has_moved: false,
                    captured: false,
                }),
                forall|a: int| 0 <= a < i ==>
                    kind_rules(#[trigger] g@.rules[a], standard_placements()[a].2, standard_placements()[a].0),
                forall|p: Position| p.in_bounds() && (forall|a: int| 0 <= a < i ==> standard_placements()[a].1 != p)
                    ==> #[trigger] board_at(g@.board, p) == empty_piece,
                g@.changes.len() == 0,
                g@.to_despawn.len() == 0,
                g@.past.len() == 0,
                g@.current.len() == 0,
                g@.future.len() == 0,
            decreases 32 - i,
        {
            let (color, position, kind) = placements[i];
            let id = ids[i];
            let ghost v = g@;
            assert(at(v, position) == empty_piece);
            assert(!has_id(v.states, id)) by {
                if has_id(v.states, id) {
                    let j = choose|j: int| 0 <= j < v.states.len() && (#[trigger] v.states[j]).id == id;
                    assert(v.states[j].id == ids@[j]);
                }
            }
            let ghost rules_before = g@.rules;
            let rules = rules_for(kind, color);
            assert(kind_rules(rules, standard_placements()[i as int].2, standard_placements()[i as int].0));
            g.add_piece(id, color, position, rules);
            assert forall|a: int| 0 <= a < i + 1 implies
                kind_rules(#[trigger] g@.rules[a], standard_placements()[a].2, standard_placements()[a].0) by {
                if a < i {
                    assert(g@.rules[a] == rules_before[a]);
                }
            }
            assert forall|p: Position| p.in_bounds() && (forall|a: int| 0 <= a < i + 1 ==> standard_placements()[a].1 != p)
                implies #[trigger] board_at(g@.board, p) == empty_piece by {
                assert(standard_placements()[i as int].1 != p);
                lemma_square_injective(p, position);
                assert(forall|a: int| 0 <= a < i ==> standard_placements()[a].1 != p);
            }
            i = i + 1;
        }
        proof {
            lemma_standard_empty_ranks(g@);
        }
        g
    }
}

} // verus!
