use vstd::prelude::*;

use crate::moves::{Move, Moves};
use crate::pieces::{color_of, PieceColor, Pieces};
use crate::position::Position;

verus! {

/// The index of a square in the board's list: rank by rank.
pub open spec fn square(p: Position) -> int {
    p.rank * 8 + p.file
}

/// The piece on a square of a board list.
pub open spec fn board_at(board: Seq<u64>, p: Position) -> u64 {
    board[square(p)]
}

/// The square is on the board and holds the empty piece.
pub open spec fn board_is_empty(board: Seq<u64>, empty: u64, p: Position) -> bool {
    p.in_bounds() && board_at(board, p) == empty
}

/// The square is on the board and holds a piece of the other color.
pub open spec fn board_is_enemy(board: Seq<u64>, states: Seq<crate::pieces::PieceState>, p: Position, color: PieceColor) -> bool {
    p.in_bounds() && match color_of(states, board_at(board, p)) {
        Some(c) => c != color,
        None => false,
    }
}

/// Two squares on the board with the same index are the same square.
pub proof fn lemma_square_injective(p: Position, q: Position)
    requires
        p.in_bounds(),
        q.in_bounds(),
    ensures
        (square(p) == square(q)) == (p == q),
        0 <= square(p) < 64,
{
}

/// The pieces on the 8 x 8 squares; `empty_piece` stands on every square without a piece.
pub struct Board {
    pub pieces: Vec<u64>,
    pub empty_piece: u64,
}

impl View for Board {
    type V = Seq<u64>;

    open spec fn view(&self) -> Seq<u64> {
        self.pieces@
    }
}

impl Board {
    pub open spec fn wf(&self) -> bool {
        self.pieces@.len() == 64
    }

    /// A board whose every square holds the empty piece.
    pub fn new(empty_piece: u64) -> (b: Self)
        ensures
            b.wf(),
            b.empty_piece == empty_piece,
            forall|i: int| 0 <= i < 64 ==> b@[i] == empty_piece,
    {
        let mut pieces: Vec<u64> = Vec::new();
        let mut i: usize = 0;
        while i < 64
            invariant
                i <= 64,
                pieces@.len() == i,
                forall|j: int| 0 <= j < i ==> pieces@[j] == empty_piece,
            decreases 64 - i,
        {
            pieces.push(empty_piece);
            i = i + 1;
        }
        Board { pieces, empty_piece }
    }

    /// The piece on the square.
    pub fn index(&self, position: Position) -> (e: u64)
        requires
            self.wf(),
            position.in_bounds(),
        ensures
            e == board_at(self@, position),
    {
        self.pieces[(position.rank * 8 + position.file) as usize]
    }

    /// Puts the piece on the square.
    pub fn set(&mut self, position: Position, piece: u64)
        requires
            old(self).wf(),
            position.in_bounds(),
        ensures
            final(self).wf(),
            final(self)@ == old(self)@.update(square(position), piece),
            final(self).empty_piece == old(self).empty_piece,
    {
        self.pieces.set((position.rank * 8 + position.file) as usize, piece);
    }

    pub fn is_in_bounds(&self, position: Position) -> (r: bool)
        ensures
            r == position.in_bounds(),
    {
        position.rank >= 0 && position.rank < 8 && position.file >= 0 && position.file < 8
    }

    pub fn is_empty(&self, position: Position) -> (r: bool)
        requires
            self.wf(),
        ensures
            r == board_is_empty(self@, self.empty_piece, position),
    {
        self.is_in_bounds(position) && self.index(position) == self.empty_piece
    }

    /// Whether the square holds a piece whose color differs from `color`.
    pub fn is_enemy(&self, position: Position, color: PieceColor, pieces: &Pieces) -> (r: bool)
        requires
            self.wf(),
            pieces.wf(),
        ensures
            r == board_is_enemy(self@, pieces.states@, position, color),
    {
        self.is_in_bounds(position) && match pieces.get_color(self.index(position)) {
            Some(target_color) => color != target_color,
            None => false,
        }
    }
}

/// What the moves since the last cleanup changed: each square with the piece it
/// held before, and the pieces they captured.
pub struct BoardChanges {
    pub changes: Vec<(Position, u64)>,
    pub to_despawn: Vec<u64>,
}

impl BoardChanges {
    pub fn new() -> (c: Self)
        ensures
            c.changes@.len() == 0,
            c.to_despawn@.len() == 0,
    {
        BoardChanges { changes: Vec::new(), to_despawn: Vec::new() }
    }

    /// Forgets the changes and hands back the captured pieces, to be removed.
    pub fn clear(&mut self) -> (despawned: Vec<u64>)
        ensures
            despawned@ == old(self).to_despawn@,
            final(self).changes@.len() == 0,
            final(self).to_despawn@.len() == 0,
    {
        let mut despawned: Vec<u64> = Vec::new();
        std::mem::swap(&mut despawned, &mut self.to_despawn);
        self.changes.clear();
        despawned
    }
}

/// What releasing the mouse button over a square does.
#[derive(PartialEq, Eq, Debug, Clone, Copy)]
pub enum ReleaseAction {
    /// No piece is selected: nothing happens.
    Nothing,
    /// The selected piece makes its move to the square.
    MakeMove(Move),
    /// The square is no move of the selected piece: it stops following the cursor.
    StopFollowing(u64),
}

/// Pressing the mouse button over a square. `None`: the selection stays, as the
/// square is a move of the selected piece or lies off the board. `Some(e)`: the
/// selection is dropped and the piece `e` on the square is selected (when `e` is
/// the empty piece, nothing is).
pub fn on_board_pressed(board: &Board, position: Position, selected: Option<&Moves>) -> (r: Option<u64>)
    requires
        board.wf(),
    ensures
        r is None <==> ((selected matches Some(m) && m@.contains_key(position.key())) || !position.in_bounds()),
        r matches Some(e) ==> e == board_at(board@, position),
{
    if let Some(moves) = selected {
        if moves.contains_key(position) {
            return None;
        }
    }
    if board.is_in_bounds(position) {
        Some(board.index(position))
    } else {
        None
    }
}

/// Releasing the mouse button over a square, with the selected piece and its
/// moves, if a piece is selected.
pub fn on_board_released(position: Position, selected: Option<(u64, &Moves)>) -> (r: ReleaseAction)
    ensures
        selected is None ==> r == ReleaseAction::Nothing,
        selected matches Some(s) ==> r == (if s.1@.contains_key(position.key()) {
            ReleaseAction::MakeMove(s.1@[position.key()])
        } else {
            ReleaseAction::StopFollowing(s.0)
        }),
{
    match selected {
        Some((piece, moves)) => match moves.get(position) {
            Some(mmove) => ReleaseAction::MakeMove(mmove),
            None => ReleaseAction::StopFollowing(piece),
        },
        None => ReleaseAction::Nothing,
    }
}

} // verus!
