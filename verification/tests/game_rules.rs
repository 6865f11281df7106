use chess_rules::board::{on_board_pressed, on_board_released, ReleaseAction};
use chess_rules::game::Game;
use chess_rules::markers::{Marker, MarkerKind};
use chess_rules::moves::{Move, MoveType, Moves, NormalMove, PieceMovedEvent};
use chess_rules::pieces::PieceColor;
use chess_rules::position::Position;
use chess_rules::promotion::{promotion_menu, promotion_option_clicked, PromotionChoice};
use chess_rules::setup::{rules_for, PieceKind};

const EMPTY: u64 = 0;

fn standard() -> Game {
    let ids: Vec<u64> = (1..=32).collect();
    Game::standard(EMPTY, &ids)
}

fn custom(pieces: &[(u64, PieceColor, (isize, isize), PieceKind)]) -> Game {
    let mut game = Game::new(EMPTY);
    for &(id, color, (rank, file), kind) in pieces {
        game.add_piece(id, color, Position::new(rank, file), rules_for(kind, color));
    }
    game
}

fn index_of(game: &Game, id: u64) -> usize {
    game.pieces.states.iter().position(|s| s.id == id).unwrap()
}

fn targets(moves: &Moves) -> Vec<(isize, isize)> {
    let mut keys: Vec<(isize, isize)> = moves.entries().into_iter().map(|(k, _)| k).collect();
    keys.sort();
    keys
}

fn at(game: &Game, rank: isize, file: isize) -> u64 {
    game.board.index(Position::new(rank, file))
}

fn normal(from: (isize, isize), to: (isize, isize), capture: Option<(isize, isize)>) -> Move {
    Move {
        capture: capture.map(|(r, f)| Position::new(r, f)),
        move_type: MoveType::Normal(NormalMove::new(Position::new(from.0, from.1), Position::new(to.0, to.1))),
    }
}

#[test]
fn standard_game_places_the_pieces() {
    let game = standard();
    assert_eq!(game.pieces.states.len(), 32);
    assert_eq!(at(&game, 0, 4), 5);
    assert_eq!(at(&game, 7, 3), 12);
    assert_eq!(at(&game, 1, 0), 17);
    assert_eq!(at(&game, 6, 7), 32);
    for rank in 2..6 {
        for file in 0..8 {
            assert_eq!(at(&game, rank, file), EMPTY);
        }
    }
    let king = game.pieces.states[4];
    assert_eq!(king.position, Position::new(0, 4));
    assert_eq!(king.color, PieceColor::White);
    assert!(!king.has_moved && !king.captured);
    assert!(game.pieces.rules[4].check_detector);
}

#[test]
fn knight_moves_from_the_start() {
    let game = standard();
    let moves = game.generate_moves(1, false);
    assert_eq!(targets(&moves), vec![(2, 0), (2, 2)]);
    assert_eq!(moves.get(Position::new(2, 2)), Some(normal((0, 1), (2, 2), None)));
}

#[test]
fn pawn_moves_from_the_start() {
    let game = standard();
    let i = index_of(&game, 25);
    assert_eq!(game.pieces.states[i].position, Position::new(1, 4));
    let moves = game.generate_moves(i, false);
    assert_eq!(targets(&moves), vec![(2, 4), (3, 4)]);
    let double = moves.get(Position::new(3, 4)).unwrap();
    assert_eq!(double.move_type, MoveType::DoublePawn(NormalMove::new(Position::new(1, 4), Position::new(3, 4))));
    assert_eq!(double.capture, None);
}

#[test]
fn blocked_pieces_have_no_moves_at_the_start() {
    let game = standard();
    assert!(game.generate_moves(0, false).entries().is_empty());
    assert!(game.generate_moves(2, false).entries().is_empty());
    assert!(game.generate_moves(4, true).entries().is_empty());
}

#[test]
fn bishop_slides_on_an_open_board() {
    let game = custom(&[(1, PieceColor::White, (3, 3), PieceKind::Bishop)]);
    let moves = game.generate_moves(0, false);
    assert_eq!(moves.entries().len(), 13);
    assert!(moves.contains_key(Position::new(7, 7)));
    assert!(moves.contains_key(Position::new(0, 0)));
    assert!(moves.contains_key(Position::new(6, 0)));
    assert!(moves.contains_key(Position::new(0, 6)));
}

#[test]
fn rook_stops_at_pieces_and_captures_enemies() {
    let game = custom(&[
        (1, PieceColor::White, (0, 0), PieceKind::Rook),
        (2, PieceColor::Black, (0, 5), PieceKind::Knight),
        (3, PieceColor::White, (4, 0), PieceKind::Pawn),
    ]);
    let moves = game.generate_moves(0, false);
    assert_eq!(targets(&moves), vec![(0, 1), (0, 2), (0, 3), (0, 4), (0, 5), (1, 0), (2, 0), (3, 0)]);
    assert_eq!(moves.get(Position::new(0, 5)), Some(normal((0, 0), (0, 5), Some((0, 5)))));
    assert_eq!(moves.get(Position::new(0, 3)), Some(normal((0, 0), (0, 3), None)));
}

#[test]
fn pawn_captures_diagonally_only() {
    let game = custom(&[
        (1, PieceColor::White, (2, 2), PieceKind::Pawn),
        (2, PieceColor::Black, (3, 2), PieceKind::Pawn),
        (3, PieceColor::Black, (3, 3), PieceKind::Knight),
        (4, PieceColor::White, (3, 1), PieceKind::Knight),
    ]);
    let moves = game.generate_moves(0, false);
    assert_eq!(targets(&moves), vec![(3, 3)]);
    assert_eq!(moves.get(Position::new(3, 3)), Some(normal((2, 2), (3, 3), Some((3, 3)))));
}

#[test]
fn real_double_step_leaves_an_en_passant_marker() {
    let mut game = standard();
    let i = index_of(&game, 25);
    let mmove = game.generate_moves(i, false).get(Position::new(3, 4)).unwrap();
    assert!(game.move_is_possible(mmove));
    let animations = game.on_piece_moved(PieceMovedEvent::new(mmove, true, true));
    assert_eq!(animations, vec![(25, Position::new(1, 4), Position::new(3, 4))]);
    assert_eq!(at(&game, 3, 4), 25);
    assert_eq!(at(&game, 1, 4), EMPTY);
    assert!(game.pieces.states[i].has_moved);
    assert_eq!(game.pieces.states[i].position, Position::new(3, 4));
    assert_eq!(game.marker_board.current, vec![Marker { kind: MarkerKind::EnPassant, position: Position::new(2, 4), target: 25 }]);
    assert!(game.marker_board.future.is_empty());
    assert_eq!(game.board_changes.changes, vec![(Position::new(1, 4), 25), (Position::new(3, 4), EMPTY)]);
    let despawned = game.on_move_fully_ended();
    assert!(despawned.is_empty());
    assert!(game.board_changes.changes.is_empty());
    assert_eq!(game.pieces.states.len(), 32);
}

#[test]
fn en_passant_capture_takes_the_pawn() {
    let mut game = custom(&[
        (1, PieceColor::White, (4, 4), PieceKind::Pawn),
        (2, PieceColor::Black, (6, 5), PieceKind::Pawn),
    ]);
    let black = game.generate_moves(1, false);
    let double = black.get(Position::new(4, 5)).unwrap();
    game.on_piece_moved(PieceMovedEvent::new(double, true, true));
    game.on_move_fully_ended();
    let white = game.generate_moves(0, false);
    // the white pawn has not moved yet, so its double step is offered too
    assert_eq!(targets(&white), vec![(5, 4), (5, 5), (6, 4)]);
    let en_passant = white.get(Position::new(5, 5)).unwrap();
    assert_eq!(en_passant, normal((4, 4), (5, 5), Some((4, 5))));
    game.on_piece_moved(PieceMovedEvent::new(en_passant, true, true));
    assert_eq!(at(&game, 5, 5), 1);
    assert_eq!(at(&game, 4, 5), EMPTY);
    assert_eq!(at(&game, 4, 4), EMPTY);
    assert!(game.pieces.states[1].captured);
    assert_eq!(game.board_changes.to_despawn, vec![2]);
    let despawned = game.on_move_fully_ended();
    assert_eq!(despawned, vec![2]);
    assert_eq!(game.pieces.states.len(), 1);
    assert_eq!(game.pieces.states[0].id, 1);
    assert_eq!(game.pieces.rules.len(), 1);
}

fn castling_position() -> Game {
    custom(&[
        (1, PieceColor::White, (0, 4), PieceKind::King),
        (2, PieceColor::White, (0, 7), PieceKind::Rook),
        (3, PieceColor::White, (0, 0), PieceKind::Rook),
        (4, PieceColor::Black, (7, 0), PieceKind::King),
    ])
}

fn castle(king_from: (isize, isize), king_to: (isize, isize), rook_from: (isize, isize), rook_to: (isize, isize)) -> Move {
    Move {
        capture: None,
        move_type: MoveType::Castle(
            NormalMove::new(Position::new(king_from.0, king_from.1), Position::new(king_to.0, king_to.1)),
            NormalMove::new(Position::new(rook_from.0, rook_from.1), Position::new(rook_to.0, rook_to.1)),
        ),
    }
}

#[test]
fn selected_king_is_offered_castling() {
    let game = castling_position();
    assert!(game.castlings_stay_on_board(0));
    let unselected = game.generate_moves(0, false);
    assert_eq!(targets(&unselected), vec![(0, 3), (0, 5), (1, 3), (1, 4), (1, 5)]);
    let selected = game.generate_moves(0, true);
    assert_eq!(targets(&selected), vec![(0, 2), (0, 3), (0, 5), (0, 6), (1, 3), (1, 4), (1, 5)]);
    assert_eq!(selected.get(Position::new(0, 6)), Some(castle((0, 4), (0, 6), (0, 7), (0, 5))));
    assert_eq!(selected.get(Position::new(0, 2)), Some(castle((0, 4), (0, 2), (0, 0), (0, 3))));
}

#[test]
fn castling_moves_both_pieces_and_leaves_markers() {
    let mut game = castling_position();
    let mmove = castle((0, 4), (0, 6), (0, 7), (0, 5));
    assert!(game.move_is_possible(mmove));
    let animations = game.on_piece_moved(PieceMovedEvent::new(mmove, true, true));
    assert_eq!(animations, vec![
        (1, Position::new(0, 4), Position::new(0, 6)),
        (2, Position::new(0, 7), Position::new(0, 5)),
    ]);
    assert_eq!(at(&game, 0, 6), 1);
    assert_eq!(at(&game, 0, 5), 2);
    assert_eq!(at(&game, 0, 4), EMPTY);
    assert_eq!(at(&game, 0, 7), EMPTY);
    assert!(game.pieces.states[0].has_moved && game.pieces.states[1].has_moved);
    assert_eq!(game.marker_board.current, vec![
        Marker { kind: MarkerKind::Castle, position: Position::new(0, 4), target: 1 },
        Marker { kind: MarkerKind::Castle, position: Position::new(0, 5), target: 1 },
    ]);
}

#[test]
fn castling_through_an_attacked_square_is_illegal() {
    let mut game = custom(&[
        (1, PieceColor::White, (0, 4), PieceKind::King),
        (2, PieceColor::White, (0, 7), PieceKind::Rook),
        (3, PieceColor::Black, (2, 6), PieceKind::Knight),
        (4, PieceColor::Black, (7, 0), PieceKind::King),
    ]);
    assert!(game.castlings_stay_on_board(0));
    assert!(game.generate_moves(0, true).contains_key(Position::new(0, 6)));
    let (moves, circles) = game.select_piece(1).unwrap();
    // the knight attacks (0, 5), which the castling king crosses, and (1, 4)
    assert_eq!(targets(&moves), vec![(0, 3), (1, 3), (1, 5)]);
    assert_eq!(circles.len(), 3);
    assert!(circles.iter().all(|&(_, is_capture)| !is_capture));
}

#[test]
fn castling_out_of_check_is_illegal() {
    let mut game = custom(&[
        (1, PieceColor::White, (0, 4), PieceKind::King),
        (2, PieceColor::White, (0, 7), PieceKind::Rook),
        (3, PieceColor::Black, (5, 4), PieceKind::Rook),
        (4, PieceColor::Black, (7, 0), PieceKind::King),
    ]);
    let (moves, _) = game.select_piece(1).unwrap();
    assert_eq!(targets(&moves), vec![(0, 3), (0, 5), (1, 3), (1, 5)]);
    // the trial moves left the board as it was
    assert_eq!(at(&game, 0, 4), 1);
    assert_eq!(at(&game, 0, 7), 2);
    assert!(game.marker_board.current.is_empty());
}

#[test]
fn pinned_piece_cannot_move() {
    let mut game = custom(&[
        (1, PieceColor::White, (0, 4), PieceKind::King),
        (2, PieceColor::White, (2, 4), PieceKind::Knight),
        (3, PieceColor::Black, (5, 4), PieceKind::Rook),
        (4, PieceColor::Black, (7, 0), PieceKind::King),
    ]);
    assert_eq!(game.generate_moves(1, false).entries().len(), 8);
    let (moves, circles) = game.select_piece(2).unwrap();
    assert!(moves.entries().is_empty());
    assert!(circles.is_empty());
    // nothing changed on the board
    assert_eq!(at(&game, 2, 4), 2);
    assert_eq!(at(&game, 5, 4), 3);
    assert!(game.board_changes.changes.is_empty());
}

#[test]
fn king_in_check_must_answer_it() {
    let mut game = custom(&[
        (1, PieceColor::White, (0, 4), PieceKind::King),
        (2, PieceColor::White, (2, 0), PieceKind::Rook),
        (3, PieceColor::Black, (5, 4), PieceKind::Rook),
        (4, PieceColor::Black, (7, 7), PieceKind::King),
    ]);
    assert!(game.in_check(PieceColor::White));
    assert!(!game.in_check(PieceColor::Black));
    let (moves, _) = game.select_piece(2).unwrap();
    // only the block on (2, 4) answers the check
    assert_eq!(targets(&moves), vec![(2, 4)]);
    let (king_moves, _) = game.select_piece(1).unwrap();
    assert_eq!(targets(&king_moves), vec![(0, 3), (0, 5), (1, 3), (1, 5)]);
}

#[test]
fn selecting_a_pawn_shows_its_moves() {
    let mut game = standard();
    let (moves, circles) = game.select_piece(25).unwrap();
    assert!(moves.move_indicator && moves.capture_indicator);
    assert_eq!(targets(&moves), vec![(2, 4), (3, 4)]);
    let mut squares: Vec<Position> = circles.iter().map(|&(p, _)| p).collect();
    squares.sort_by_key(|p| (p.rank, p.file));
    assert_eq!(squares, vec![Position::new(2, 4), Position::new(3, 4)]);
    assert!(game.select_piece(EMPTY).is_none());
    assert!(game.select_piece(99).is_none());
}

#[test]
fn tried_move_is_undone_by_restoring() {
    let mut game = custom(&[
        (1, PieceColor::White, (3, 3), PieceKind::Queen),
        (2, PieceColor::Black, (3, 6), PieceKind::Knight),
    ]);
    let capture = game.generate_moves(0, false).get(Position::new(3, 6)).unwrap();
    let animations = game.on_piece_moved(PieceMovedEvent::new(capture, false, true));
    assert!(animations.is_empty());
    assert_eq!(at(&game, 3, 6), 1);
    assert!(game.pieces.states[1].captured);
    assert!(!game.pieces.states[0].has_moved);
    game.restore_board();
    assert_eq!(at(&game, 3, 6), 2);
    assert_eq!(at(&game, 3, 3), 1);
    assert!(!game.pieces.states[1].captured);
    assert_eq!(game.pieces.states[0].position, Position::new(3, 3));
    assert!(game.board_changes.changes.is_empty() && game.board_changes.to_despawn.is_empty());
}

#[test]
fn move_checks_reject_impossible_moves() {
    let game = castling_position();
    assert!(game.move_is_possible(normal((0, 4), (1, 4), None)));
    assert!(!game.move_is_possible(normal((0, 4), (8, 4), None)));
    assert!(!game.move_is_possible(normal((3, 3), (4, 4), None)));
    assert!(!game.move_is_possible(normal((0, 4), (1, 4), Some((0, 4)))));
    assert!(!game.move_is_possible(castle((0, 4), (1, 6), (0, 7), (0, 5))));
    // a castling of any length along a rank can be made
    assert!(game.move_is_possible(castle((0, 4), (0, 7), (0, 7), (0, 5))));
    assert!(!game.move_is_possible(castle((0, 4), (0, 6), (3, 3), (0, 5))));
}

#[test]
fn castling_off_the_board_is_detected() {
    let game = custom(&[
        (1, PieceColor::White, (0, 6), PieceKind::King),
        (2, PieceColor::White, (0, 7), PieceKind::Rook),
    ]);
    assert!(!game.castlings_stay_on_board(0));
    assert!(game.castlings_stay_on_board(1));
}

#[test]
fn pawn_on_the_last_rank_is_promoted() {
    let mut game = custom(&[
        (1, PieceColor::White, (7, 2), PieceKind::Pawn),
        (2, PieceColor::Black, (0, 5), PieceKind::Pawn),
        (3, PieceColor::White, (4, 4), PieceKind::Pawn),
        (4, PieceColor::White, (0, 0), PieceKind::Rook),
    ]);
    let south = game.promotion_direction(1).unwrap();
    assert_eq!(south, chess_rules::direction::Direction::new(-1, 0));
    assert_eq!(game.promotion_direction(2), Some(chess_rules::direction::Direction::new(1, 0)));
    assert_eq!(game.promotion_direction(3), None);
    assert_eq!(game.promotion_direction(4), None);
    assert_eq!(game.promotion_direction(9), None);

    let (options, cancel) = promotion_menu(Position::new(7, 2), south);
    assert_eq!(options, vec![
        (Position::new(7, 2), PieceKind::Queen),
        (Position::new(6, 2), PieceKind::Rook),
        (Position::new(5, 2), PieceKind::Bishop),
        (Position::new(4, 2), PieceKind::Knight),
    ]);
    assert_eq!(cancel, Position::new(3, 2));
    assert_eq!(promotion_option_clicked(Position::new(5, 2), &options, cancel), PromotionChoice::Choose(PieceKind::Bishop));
    assert_eq!(promotion_option_clicked(Position::new(3, 2), &options, cancel), PromotionChoice::Cancel);
    assert_eq!(promotion_option_clicked(Position::new(5, 3), &options, cancel), PromotionChoice::Nothing);

    game.promote(1, 10, rules_for(PieceKind::Queen, PieceColor::White));
    assert_eq!(at(&game, 7, 2), 10);
    let i = index_of(&game, 10);
    assert_eq!(game.pieces.states[i].color, PieceColor::White);
    assert_eq!(game.pieces.states[i].position, Position::new(7, 2));
    assert!(!game.pieces.states[i].has_moved);
    assert!(game.pieces.rules[i].sliding.is_some());
    assert!(game.pieces.states.iter().all(|s| s.id != 1));
    assert_eq!(game.pieces.states.len(), 4);
}

#[test]
fn removing_a_piece_empties_its_square() {
    let mut game = custom(&[
        (1, PieceColor::White, (2, 2), PieceKind::Knight),
        (2, PieceColor::Black, (5, 5), PieceKind::Bishop),
    ]);
    game.remove_piece(1);
    assert_eq!(at(&game, 2, 2), EMPTY);
    assert_eq!(game.pieces.states.len(), 1);
    assert_eq!(game.pieces.states[0].id, 2);
    game.remove_piece(7);
    assert_eq!(game.pieces.states.len(), 1);
}

#[test]
fn pressing_and_releasing_on_the_board() {
    let game = standard();
    // no piece selected: pressing selects what stands on the square
    assert_eq!(on_board_pressed(&game.board, Position::new(0, 1), None), Some(2));
    assert_eq!(on_board_pressed(&game.board, Position::new(4, 4), None), Some(EMPTY));
    assert_eq!(on_board_pressed(&game.board, Position::new(8, 4), None), None);
    let moves = game.generate_moves(1, false);
    // a square the selected piece can move to keeps the selection
    assert_eq!(on_board_pressed(&game.board, Position::new(2, 2), Some(&moves)), None);
    assert_eq!(on_board_pressed(&game.board, Position::new(1, 3), Some(&moves)), Some(23));

    assert_eq!(on_board_released(Position::new(2, 2), None), ReleaseAction::Nothing);
    assert_eq!(on_board_released(Position::new(2, 2), Some((2, &moves))),
        ReleaseAction::MakeMove(normal((0, 1), (2, 2), None)));
    assert_eq!(on_board_released(Position::new(3, 3), Some((2, &moves))), ReleaseAction::StopFollowing(2));
}

#[test]
fn cancelled_promotion_takes_the_move_back() {
    let mut game = custom(&[
        (1, PieceColor::White, (6, 2), PieceKind::Pawn),
        (2, PieceColor::Black, (7, 3), PieceKind::Rook),
    ]);
    let capture = game.generate_moves(0, false).get(Position::new(7, 3)).unwrap();
    assert_eq!(capture, normal((6, 2), (7, 3), Some((7, 3))));
    game.on_piece_moved(PieceMovedEvent::new(capture, true, true));
    assert_eq!(game.promotion_direction(1), Some(chess_rules::direction::Direction::new(-1, 0)));
    game.restore_changes();
    assert_eq!(at(&game, 6, 2), 1);
    assert_eq!(at(&game, 7, 3), 2);
    assert!(!game.pieces.states[1].captured);
    assert_eq!(game.pieces.states[0].position, Position::new(6, 2));
    // the board is restored; whether the pawn has moved is not
    assert!(game.pieces.states[0].has_moved);
    assert!(game.board_changes.changes.is_empty() && game.board_changes.to_despawn.is_empty());
}

#[test]
fn marker_map_points_at_the_marked_piece() {
    let mut game = custom(&[
        (1, PieceColor::White, (1, 3), PieceKind::Pawn),
        (2, PieceColor::Black, (3, 4), PieceKind::Pawn),
    ]);
    let double = game.generate_moves(0, false).get(Position::new(3, 3)).unwrap();
    game.on_piece_moved(PieceMovedEvent::new(double, true, true));
    let en_passant = chess_rules::move_generator::get_marker_to_piece(&game.marker_board, MarkerKind::EnPassant, &game.pieces);
    assert_eq!(en_passant.get(&(2, 3)).copied(), Some((3, 3)));
    assert_eq!(en_passant.len(), 1);
    let castle = chess_rules::move_generator::get_marker_to_piece(&game.marker_board, MarkerKind::Castle, &game.pieces);
    assert!(castle.is_empty());
    // the black pawn may take the white one en passant
    let black = game.generate_moves(1, false);
    assert_eq!(black.get(Position::new(2, 3)), Some(normal((3, 4), (2, 3), Some((3, 3)))));
}

fn check_position() -> Game {
    custom(&[
        (1, PieceColor::White, (0, 4), PieceKind::King),
        (2, PieceColor::White, (2, 0), PieceKind::Rook),
        (3, PieceColor::White, (0, 7), PieceKind::Rook),
        (4, PieceColor::Black, (5, 4), PieceKind::Rook),
        (5, PieceColor::Black, (2, 6), PieceKind::Knight),
        (6, PieceColor::Black, (7, 7), PieceKind::King),
    ])
}

#[test]
fn legal_moves_made_for_real_leave_no_check() {
    for piece in [1u64, 2, 3] {
        let squares = {
            let mut game = check_position();
            let (moves, _) = game.select_piece(piece).unwrap();
            targets(&moves)
        };
        for (rank, file) in squares {
            let mut game = check_position();
            let (moves, _) = game.select_piece(piece).unwrap();
            let mmove = moves.get(Position::new(rank, file)).unwrap();
            assert!(game.move_is_possible(mmove));
            game.on_piece_moved(PieceMovedEvent::new(mmove, true, true));
            assert!(!game.in_check(PieceColor::White), "piece {} to ({}, {})", piece, rank, file);
        }
    }
    // and a move that was dropped would have left the king attacked
    let mut game = check_position();
    let dropped = game.generate_moves(0, false).get(Position::new(1, 4)).unwrap();
    game.on_piece_moved(PieceMovedEvent::new(dropped, true, true));
    assert!(game.in_check(PieceColor::White));
}
