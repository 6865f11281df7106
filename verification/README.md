# chess_rules

The rules of a chess game on an 8 x 8 board, with their proofs: which moves a
piece is offered, which of them are legal, what a move does to the board, how a
trial move is taken back, castling, en passant and promotion.

The library (`src/`) is verified with Verus:

- `position`, `direction`: squares and steps.
- `board`: the squares and the piece on each, the record of changes a move
  makes, and the decisions taken on a press or release of the mouse button.
- `pieces`, `preset_pieces`, `setup`: the rules of each piece, their states, and
  the standard set.
- `markers`: en passant and castle markers, squares from which a piece can be
  captured though it stands elsewhere.
- `moves`: moves, their priorities, and the map of the moves a piece is offered
  (a `bevy` hash map behind trusted wrappers).
- `move_generator`, `single_moves`, `sliding_moves`, `pawn_moves`,
  `castling_moves`: move generation, each stated over a specification of the
  moves offered.
- `game`, `piece_moved`: the whole state of a game and what a move does to it;
  `legality` shows that every generated move can be made.
- `checks`: legality: a move is kept when, after it, no enemy is offered a
  capture of a check detector (the king) of the mover's color.
- `safety`: a move offered as legal leaves the mover's king unattacked also
  when it is made for real.
- `removal`, `promotion`: the end of a move and the promotion of a pawn.

`app/` is the window around the library, written with `bevy`: input, sprites,
animations and the promotion menu. `tests/` exercises the library on concrete
positions.
