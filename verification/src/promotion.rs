use vstd::prelude::*;

use crate::board::{board_at, lemma_square_injective, square};
use crate::direction::Direction;
use crate::game::{at, view_wf, Game, GameView};
use crate::pieces::{has_id, index_of, lemma_index_of_range, PieceRules};
use crate::position::Position;
use crate::removal::{lemma_remove_piece_wf, remove_piece_spec};
use crate::setup::{add_piece_spec, PieceKind};

verus! {

/// The direction in which the promotion menu of the piece opens: up from the
/// first rank, down from the last. None for a piece that is not in play, does
/// not promote, or stands on another rank.
pub open spec fn promotion_dir_spec(v: GameView, piece: u64) -> Option<Direction> {
    if has_id(v.states, piece) && v.rules[index_of(v.states, piece)].promoting {
        let rank = v.states[index_of(v.states, piece)].position.rank;
        if rank == 0 {
            Some(Direction { drank: 1, dfile: 0 })
        } else if rank == 7 {
            Some(Direction { drank: -1isize, dfile: 0 })
        } else {
            None
        }
    } else {
        None
    }
}

/// The pieces offered on promotion, in the order they are shown.
pub open spec fn promotion_kinds() -> Seq<PieceKind> {
    seq![PieceKind::Queen, PieceKind::Rook, PieceKind::Bishop, PieceKind::Knight]
}

/// What a click during promotion chooses.
#[derive(PartialEq, Eq, Debug, Clone, Copy)]
pub enum PromotionChoice {
    /// The move is taken back.
    Cancel,
    /// The pawn becomes a piece of this kind.
    Choose(PieceKind),
    /// The click hit nothing of the menu.
    Nothing,
}

impl Game {
    /// The direction in which the promotion menu of the piece opens, if it is
    /// offered promotion (see `promotion_dir_spec`).
    pub fn promotion_direction(&self, piece: u64) -> (r: Option<Direction>)
        requires
            self.wf(),
        ensures
            r == promotion_dir_spec(self@, piece),
    {
        match self.pieces.find(piece) {
            None => None,
            Some(i) => {
                if !self.pieces.rules[i].promoting {
                    return None;
                }
                let rank = self.pieces.states[i].position.rank;
                if rank == 0 {
                    Some(Direction::north())
                } else if rank == 7 {
                    Some(Direction::south())
                } else {
                    None
                }
            },
        }
    }

    /// The pawn is replaced by a new piece of its color on its square, with the
    /// given rules; the new piece has not moved.
    pub fn promote(&mut self, pawn: u64, new_id: u64, rules: PieceRules)
        requires
            old(self).wf(),
            has_id(old(self)@.states, pawn),
            !old(self)@.states[index_of(old(self)@.states, pawn)].captured,
            !has_id(old(self)@.states, new_id),
            new_id != old(self)@.empty,
            rules.wf(),
        ensures
            final(self).wf(),
            ({
                let v = old(self)@;
                let s = v.states[index_of(v.states, pawn)];
                final(self)@ == add_piece_spec(remove_piece_spec(v, pawn), new_id, s.color, s.position, rules)
            }),
    {
        let ghost v = self@;
        proof {
            lemma_index_of_range(v.states, pawn);
            lemma_remove_piece_wf(v, pawn);
        }
        let i = self.pieces.find(pawn).unwrap();
        let state = self.pieces.states[i];
        assert(state.position.in_bounds());
        self.remove_piece(pawn);
        proof {
            lemma_square_injective(state.position, state.position);
        }
        assert(at(self@, state.position) == self@.empty);
        self.add_piece(new_id, state.color, state.position, rules);
    }
}

/// The promotion menu of a piece on `position` opening in the direction `dir`:
/// each offered kind on its square, the first on the piece's own square, and
/// the square of the cancel button after them.
pub fn promotion_menu(position: Position, dir: Direction) -> (r: (Vec<(Position, PieceKind)>, Position))
    requires
        position.is_small(),
        dir.is_unit(),
    ensures
        r.0@.len() == 4,
        forall|k: int| 0 <= k < 4 ==> (#[trigger] r.0@[k]) == (position.plus_times(dir, k), promotion_kinds()[k]),
        r.1 == position.plus_times(dir, 4),
{
    let mut options: Vec<(Position, PieceKind)> = Vec::new();
    options.push((position.add(dir.mul(0)), PieceKind::Queen));
    options.push((position.add(dir.mul(1)), PieceKind::Rook));
    options.push((position.add(dir.mul(2)), PieceKind::Bishop));
    options.push((position.add(dir.mul(3)), PieceKind::Knight));
    let cancel = position.add(dir.mul(4));
    assert(options@[0] == (position.plus_times(dir, 0), promotion_kinds()[0]));
    assert(options@[1] == (position.plus_times(dir, 1), promotion_kinds()[1]));
    assert(options@[2] == (position.plus_times(dir, 2), promotion_kinds()[2]));
    assert(options@[3] == (position.plus_times(dir, 3), promotion_kinds()[3]));
    assert forall|k: int| 0 <= k < 4 implies (#[trigger] options@[k]) == (position.plus_times(dir, k), promotion_kinds()[k]) by {
        if k == 0 {
        } else if k == 1 {
        } else if k == 2 {
        } else {
        }
    }
    (options, cancel)
}

/// What a click on `cursor` chooses in the promotion menu: the cancel button,
/// else the first option on that square, else nothing.
pub fn promotion_option_clicked(cursor: Position, options: &Vec<(Position, PieceKind)>, cancel: Position) -> (r: PromotionChoice)
    ensures
        cursor == cancel ==> r == PromotionChoice::Cancel,
        cursor != cancel && (exists|j: int| 0 <= j < options@.len() && (#[trigger] options@[j]).0 == cursor) ==>
            exists|j: int| #![trigger options@[j]] 0 <= j < options@.len() && options@[j].0 == cursor
                && r == PromotionChoice::Choose(options@[j].1)
                && forall|i: int| 0 <= i < j ==> (#[trigger] options@[i]).0 != cursor,
        cursor != cancel && !(exists|j: int| 0 <= j < options@.len() && (#[trigger] options@[j]).0 == cursor) ==>
            r == PromotionChoice::Nothing,
{
    if cursor == cancel {
        return PromotionChoice::Cancel;
    }
    let mut j: usize = 0;
    while j < options.len()
        invariant
            j <= options@.len(),
            cursor != cancel,
            forall|i: int| 0 <= i < j ==> (#[trigger] options@[i]).0 != cursor,
        decreases options@.len() - j,
    {
        if options[j].0 == cursor {
            assert(options@[j as int].0 == cursor);
            return PromotionChoice::Choose(options[j].1);
        }
        j = j + 1;
    }
    PromotionChoice::Nothing
}

} // verus!
