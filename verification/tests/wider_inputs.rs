use chess_rules::board::{Board, BoardChanges};
use chess_rules::direction::Direction;
use chess_rules::game::Game;
use chess_rules::markers::{Marker, MarkerKind};
use chess_rules::moves::{Move, MoveType, Moves, NormalMove, PieceMovedEvent};
use chess_rules::pieces::{PieceColor, Pieces, SingleMoveGenerator, SlidingMoveGenerator};
use chess_rules::position::Position;
use chess_rules::preset_pieces::pawn;
use chess_rules::setup::{rules_for, PieceKind};

fn keys(moves: &Moves) -> Vec<(isize, isize)> {
    let mut k: Vec<(isize, isize)> = moves.entries().into_iter().map(|(k, _)| k).collect();
    k.sort();
    k
}

fn castle(king_from: (isize, isize), king_to: (isize, isize), rook_from: (isize, isize), rook_to: (isize, isize)) -> Move {
    Move {
        capture: None,
        move_type: MoveType::Castle(
            NormalMove::new(Position::new(king_from.0, king_from.1), Position::new(king_to.0, king_to.1)),
            NormalMove::new(Position::new(rook_from.0, rook_from.1), Position::new(rook_to.0, rook_to.1)),
        ),
    }
}

fn standard() -> Game {
    let ids: Vec<u64> = (1..=32).collect();
    Game::standard(0, &ids)
}

#[test]
fn long_castling_leaves_a_marker_on_each_square_crossed() {
    let mut game = Game::new(0);
    game.add_piece(1, PieceColor::White, Position::new(0, 4), rules_for(PieceKind::King, PieceColor::White));
    game.add_piece(2, PieceColor::White, Position::new(0, 0), rules_for(PieceKind::Rook, PieceColor::White));
    let mmove = castle((0, 4), (0, 1), (0, 0), (0, 2));
    assert!(game.move_is_possible(mmove));
    game.on_piece_moved(PieceMovedEvent::new(mmove, true, true));
    assert_eq!(game.board.index(Position::new(0, 1)), 1);
    assert_eq!(game.board.index(Position::new(0, 2)), 2);
    assert_eq!(game.marker_board.current, vec![
        Marker { kind: MarkerKind::Castle, position: Position::new(0, 4), target: 1 },
        Marker { kind: MarkerKind::Castle, position: Position::new(0, 3), target: 1 },
        Marker { kind: MarkerKind::Castle, position: Position::new(0, 2), target: 1 },
    ]);
}

#[test]
fn castling_goes_along_a_line() {
    let mut game = Game::new(0);
    game.add_piece(1, PieceColor::White, Position::new(3, 3), rules_for(PieceKind::King, PieceColor::White));
    game.add_piece(2, PieceColor::White, Position::new(6, 6), rules_for(PieceKind::Rook, PieceColor::White));
    // diagonally, three steps
    assert!(game.move_is_possible(castle((3, 3), (6, 6), (6, 6), (5, 5))));
    assert!(game.move_is_possible(castle((3, 3), (5, 5), (6, 6), (4, 4))));
    // not along a line
    assert!(!game.move_is_possible(castle((3, 3), (4, 5), (6, 6), (4, 4))));
    game.on_piece_moved(PieceMovedEvent::new(castle((3, 3), (5, 5), (6, 6), (4, 4)), false, true));
    assert_eq!(game.marker_board.current, vec![
        Marker { kind: MarkerKind::Castle, position: Position::new(3, 3), target: 1 },
        Marker { kind: MarkerKind::Castle, position: Position::new(4, 4), target: 1 },
    ]);
}

#[test]
fn single_steps_from_any_square() {
    let board = Board::new(0);
    let pieces = Pieces::new();
    let mut moves = Moves::new_no_move_indicators();
    let generator = SingleMoveGenerator(vec![Direction::new(10, 3), Direction::new(-1, 1)]);
    generator.generate(&mut moves, &board, &pieces, Position::new(-3, 2), PieceColor::White, true, true);
    assert_eq!(keys(&moves), vec![(7, 5)]);
    let m = moves.get(Position::new(7, 5)).unwrap();
    assert_eq!(m.move_type, MoveType::Normal(NormalMove::new(Position::new(-3, 2), Position::new(7, 5))));
}

#[test]
fn slides_with_long_steps() {
    let board = Board::new(0);
    let pieces = Pieces::new();
    let mut moves = Moves::new_no_move_indicators();
    SlidingMoveGenerator(vec![Direction::new(3, 0)]).generate(&mut moves, &board, &pieces, Position::new(0, 1), PieceColor::Black, true, true);
    assert_eq!(keys(&moves), vec![(3, 1), (6, 1)]);
    let mut far = Moves::new_no_move_indicators();
    SlidingMoveGenerator(vec![Direction::new(isize::MAX - 7, 1)]).generate(&mut far, &board, &pieces, Position::new(0, 0), PieceColor::Black, true, true);
    assert!(far.entries().is_empty());
    let mut outside = Moves::new_no_move_indicators();
    SlidingMoveGenerator(vec![Direction::new(2, 2)]).generate(&mut outside, &board, &pieces, Position::new(-2, -2), PieceColor::Black, true, true);
    assert_eq!(keys(&outside), vec![(0, 0), (2, 2), (4, 4), (6, 6)]);
}

#[test]
fn pawn_of_any_step() {
    let p = pawn(20);
    assert_eq!(p.double_pawn.unwrap().0, Direction::new(20, 0));
    assert_eq!(p.capture_only.as_ref().unwrap().0.0, vec![Direction::new(20, -1), Direction::new(20, 1)]);
    assert!(p.promoting && p.captures_en_passant);
}

#[test]
fn board_moves_any_given_piece() {
    let mut board = Board::new(0);
    board.set(Position::new(1, 1), 3);
    board.set(Position::new(2, 2), 4);
    let mut changes = BoardChanges::new();
    let mut pieces = Pieces::new();
    board.do_move(&mut changes, &mut pieces, 9, Position::new(1, 1), Position::new(2, 2), None, false);
    assert_eq!(board.index(Position::new(2, 2)), 9);
    assert_eq!(board.index(Position::new(1, 1)), 0);
    assert_eq!(changes.changes, vec![(Position::new(1, 1), 3), (Position::new(2, 2), 4)]);
    assert_eq!(changes.to_despawn, vec![4]);
    board.restore_changes(&mut changes, &mut pieces);
    assert_eq!(board.index(Position::new(1, 1)), 3);
    assert_eq!(board.index(Position::new(2, 2)), 4);
}

#[test]
fn restoring_undoes_several_moves() {
    let fresh = standard();
    let mut game = standard();
    let pawn_i = game.pieces.states.iter().position(|s| s.id == 25).unwrap();
    let double = game.generate_moves(pawn_i, false).get(Position::new(3, 4)).unwrap();
    game.on_piece_moved(PieceMovedEvent::new(double, false, false));
    let knight = game.generate_moves(1, false).get(Position::new(2, 2)).unwrap();
    game.on_piece_moved(PieceMovedEvent::new(knight, true, false));
    let bishop = game.generate_moves(5, false).get(Position::new(3, 2)).unwrap();
    game.on_piece_moved(PieceMovedEvent::new(bishop, false, false));
    assert_eq!(game.board_changes.changes.len(), 6);
    game.restore_changes();
    assert_eq!(game.board.pieces, fresh.board.pieces);
    for (a, b) in game.pieces.states.iter().zip(fresh.pieces.states.iter()) {
        assert_eq!(a.position, b.position);
        assert_eq!(a.captured, b.captured);
    }
    // only the real move left its mark
    assert!(game.pieces.states[1].has_moved);
    assert!(!game.pieces.states[pawn_i].has_moved);
}

#[test]
fn standard_pieces_have_their_rules() {
    let game = standard();
    assert_eq!(game.pieces.rules[1].single.as_ref().unwrap().0, Direction::knight());
    assert_eq!(game.pieces.rules[0].sliding.as_ref().unwrap().0, Direction::orthogonal());
    assert_eq!(game.pieces.rules[2].sliding.as_ref().unwrap().0, Direction::diagonal());
    assert_eq!(game.pieces.rules[3].sliding.as_ref().unwrap().0, Direction::monarch());
    assert!(game.pieces.rules[4].castle_top && game.pieces.rules[4].check_detector);
    assert!(game.pieces.rules[12].castle_top && game.pieces.rules[12].check_detector);
    assert_eq!(game.pieces.rules[16].double_pawn.unwrap().0, Direction::new(1, 0));
    assert_eq!(game.pieces.rules[17].double_pawn.unwrap().0, Direction::new(-1, 0));
    for rank in 0..8 {
        for file in 0..8 {
            let empty = game.board.is_empty(Position::new(rank, file));
            assert_eq!(empty, (2..=5).contains(&rank), "square ({}, {})", rank, file);
        }
    }
}

#[test]
fn pieces_with_long_steps_play_in_a_game() {
    let mut game = Game::new(0);
    let mut rules = rules_for(PieceKind::Knight, PieceColor::White);
    rules.single = Some(SingleMoveGenerator(vec![Direction::new(100, 0), Direction::new(5, 5)]));
    game.add_piece(1, PieceColor::White, Position::new(1, 1), rules);
    game.add_piece(2, PieceColor::Black, Position::new(6, 6), rules_for(PieceKind::Knight, PieceColor::Black));
    let moves = game.generate_moves(0, false);
    assert_eq!(keys(&moves), vec![(6, 6)]);
    assert_eq!(moves.get(Position::new(6, 6)).unwrap().capture, Some(Position::new(6, 6)));
}

#[test]
fn board_undoes_any_sequence_of_moves() {
    let mut board = Board::new(0);
    board.set(Position::new(1, 1), 3);
    board.set(Position::new(2, 2), 4);
    board.set(Position::new(5, 5), 6);
    let before = board.pieces.clone();
    let mut changes = BoardChanges::new();
    let mut pieces = Pieces::new();
    // pieces moved from squares they do not stand on, captures on the square left
    board.do_move(&mut changes, &mut pieces, 9, Position::new(1, 1), Position::new(2, 2), None, true);
    board.do_move(&mut changes, &mut pieces, 7, Position::new(0, 0), Position::new(5, 5), Some(Position::new(0, 0)), false);
    board.do_move(&mut changes, &mut pieces, 3, Position::new(2, 2), Position::new(6, 1), Some(Position::new(5, 5)), true);
    assert_ne!(board.pieces, before);
    board.restore_changes(&mut changes, &mut pieces);
    assert_eq!(board.pieces, before);
    assert!(changes.changes.is_empty() && changes.to_despawn.is_empty());
}

#[test]
fn a_slide_that_stands_still_stops_on_its_own_square() {
    let mut game = Game::new(0);
    let mut rules = rules_for(PieceKind::Rook, PieceColor::White);
    rules.castle_bottom = false;
    rules.sliding = Some(SlidingMoveGenerator(vec![Direction::new(0, 0), Direction::new(1, 0)]));
    game.add_piece(1, PieceColor::White, Position::new(5, 3), rules);
    let moves = game.generate_moves(0, false);
    assert_eq!(keys(&moves), vec![(6, 3), (7, 3)]);
}
