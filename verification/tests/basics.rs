use chess_rules::board::{Board, BoardChanges};
use chess_rules::direction::Direction;
use chess_rules::markers::{Marker, MarkerBoard, MarkerKind, MarkerVisibilityState};
use chess_rules::moves::{Move, MovePriority, MoveType, Moves, NormalMove, PieceMovedEvent};
use chess_rules::pieces::PieceColor;
use chess_rules::position::Position;
use chess_rules::preset_pieces::{bishop, black_pawn, king, knight, queen, rook, white_pawn};
use chess_rules::setup::{rules_for, standard_setup, PieceKind};

fn step(from: Position, to: Position, capture: Option<Position>) -> Move {
    Move { capture, move_type: MoveType::Normal(NormalMove::new(from, to)) }
}

#[test]
fn position_add_and_sub() {
    let p = Position::new(2, 3);
    assert_eq!(p.add(Direction::new(1, -1)), Position::new(3, 2));
    assert_eq!(Position::new(5, 1).sub(p), Direction::new(3, -2));
    let mut q = p;
    q.add_assign(Direction::new(-2, 4));
    assert_eq!(q, Position::new(0, 7));
    assert_eq!(p.to_key(), (2, 3));
}

#[test]
fn position_difference_leads_back() {
    let a = Position::new(6, 1);
    let b = Position::new(2, 7);
    assert_eq!(a.add(b.sub(a)), b);
}

#[test]
fn direction_arithmetic() {
    assert_eq!(Direction::new(-5, 0).normalize(), Direction::new(-1, 0));
    assert_eq!(Direction::new(3, -7).normalize(), Direction::new(1, -1));
    assert_eq!(Direction::new(1, -1).mul(3), Direction::new(3, -3));
    assert_eq!(Direction::new(1, 2).add(Direction::new(-1, 1)), Direction::new(0, 3));
    assert_eq!(Direction::new(1, 2).sub(Direction::new(-1, 1)), Direction::new(2, 1));
    assert_eq!(Direction::north(), Direction::new(1, 0));
    assert_eq!(Direction::south(), Direction::new(-1, 0));
}

#[test]
fn direction_sets() {
    assert_eq!(Direction::orthogonal(), vec![
        Direction::new(1, 0), Direction::new(-1, 0), Direction::new(0, 1), Direction::new(0, -1),
    ]);
    assert_eq!(Direction::diagonal(), vec![
        Direction::new(1, 1), Direction::new(1, -1), Direction::new(-1, 1), Direction::new(-1, -1),
    ]);
    let monarch = Direction::monarch();
    assert_eq!(monarch.len(), 8);
    assert_eq!(&monarch[..4], &Direction::orthogonal()[..]);
    assert_eq!(&monarch[4..], &Direction::diagonal()[..]);
    let knight = Direction::knight();
    assert_eq!(knight.len(), 8);
    for d in &knight {
        assert_eq!(d.drank.abs() + d.dfile.abs(), 3);
        assert!(d.drank != 0 && d.dfile != 0);
    }
}

#[test]
fn new_board_is_empty() {
    let board = Board::new(7);
    assert_eq!(board.pieces.len(), 64);
    for rank in 0..8 {
        for file in 0..8 {
            let p = Position::new(rank, file);
            assert!(board.is_in_bounds(p));
            assert!(board.is_empty(p));
            assert_eq!(board.index(p), 7);
        }
    }
    assert!(!board.is_in_bounds(Position::new(8, 0)));
    assert!(!board.is_in_bounds(Position::new(0, -1)));
    assert!(!board.is_empty(Position::new(-1, 3)));
}

#[test]
fn board_set_and_index() {
    let mut board = Board::new(0);
    board.set(Position::new(3, 5), 42);
    assert_eq!(board.index(Position::new(3, 5)), 42);
    assert!(!board.is_empty(Position::new(3, 5)));
    assert_eq!(board.pieces[3 * 8 + 5], 42);
    assert!(board.is_empty(Position::new(5, 3)));
}

#[test]
fn board_changes_clear_hands_back_captures() {
    let mut changes = BoardChanges::new();
    changes.changes.push((Position::new(1, 1), 3));
    changes.to_despawn.push(9);
    changes.to_despawn.push(4);
    let despawned = changes.clear();
    assert_eq!(despawned, vec![9, 4]);
    assert!(changes.changes.is_empty());
    assert!(changes.to_despawn.is_empty());
}

#[test]
fn move_priorities() {
    let target = Position::new(4, 4);
    let from = Position::new(3, 3);
    assert_eq!(MovePriority::get_priority(target, None), MovePriority::NoMove);
    assert_eq!(MovePriority::get_priority(target, Some(step(from, target, None))), MovePriority::NoCapture);
    assert_eq!(MovePriority::get_priority(target, Some(step(from, target, Some(target)))), MovePriority::NormalCapture);
    assert_eq!(MovePriority::get_priority(target, Some(step(from, target, Some(Position::new(3, 4))))), MovePriority::MarkerCapture);
    assert_eq!(MovePriority::NoMove.get_rank(), 0);
    assert_eq!(MovePriority::NoCapture.get_rank(), 1);
    assert_eq!(MovePriority::NormalCapture.get_rank(), 2);
    assert_eq!(MovePriority::MarkerCapture.get_rank(), 3);
}

#[test]
fn moves_keep_the_higher_priority() {
    let target = Position::new(2, 2);
    let from = Position::new(1, 1);
    let plain = step(from, target, None);
    let capture = step(from, target, Some(target));
    let marker_capture = step(from, target, Some(Position::new(1, 2)));

    let mut moves = Moves::new();
    assert!(moves.entries().is_empty());
    assert_eq!(moves.insert(target, plain), Some(false));
    assert_eq!(moves.get(target), Some(plain));
    assert_eq!(moves.insert(target, capture), Some(true));
    assert_eq!(moves.get(target), Some(capture));
    // a lower or equal priority does not replace the kept move
    assert_eq!(moves.insert(target, plain), None);
    assert_eq!(moves.insert(target, capture), None);
    assert_eq!(moves.get(target), Some(capture));
    assert_eq!(moves.insert(target, marker_capture), Some(true));
    assert_eq!(moves.get(target), Some(marker_capture));
    assert!(moves.contains_key(target));
    assert!(!moves.contains_key(from));
    assert_eq!(moves.get(from), None);
    assert_eq!(moves.entries(), vec![((2, 2), marker_capture)]);
}

#[test]
fn moves_without_indicators_show_no_circles() {
    let mut moves = Moves::new_no_move_indicators();
    let a = step(Position::new(0, 0), Position::new(0, 1), None);
    let b = step(Position::new(0, 0), Position::new(1, 0), Some(Position::new(1, 0)));
    assert_eq!(moves.insert(Position::new(0, 1), a), None);
    assert_eq!(moves.insert(Position::new(1, 0), b), None);
    assert_eq!(moves.get(Position::new(0, 1)), Some(a));
    assert_eq!(moves.get(Position::new(1, 0)), Some(b));
    assert_eq!(moves.entries().len(), 2);
    moves.push_black_circle(11);
    assert_eq!(moves.black_circles, vec![11]);
}

#[test]
fn marker_board_advances_and_restores() {
    let m1 = Marker { kind: MarkerKind::EnPassant, position: Position::new(2, 4), target: 5 };
    let m2 = Marker { kind: MarkerKind::Castle, position: Position::new(0, 4), target: 6 };
    let mut board = MarkerBoard::new();
    board.insert(m1);
    assert_eq!(board.future, vec![m1]);
    board.advance_move();
    assert_eq!(board.current, vec![m1]);
    assert!(board.future.is_empty());
    board.insert(m2);
    board.advance_move();
    assert_eq!(board.past, vec![m1]);
    assert_eq!(board.current, vec![m2]);
    board.restore_previous();
    assert_eq!(board.current, vec![m1]);
    assert!(board.past.is_empty());
    assert!(board.future.is_empty());
    assert_eq!(m2.get_entity(), 6);
}

#[test]
fn only_current_markers_are_shown_and_only_when_asked() {
    let m1 = Marker { kind: MarkerKind::EnPassant, position: Position::new(5, 2), target: 3 };
    let mut board = MarkerBoard::new();
    board.insert(m1);
    assert!(board.visible_markers(MarkerVisibilityState(true)).is_empty());
    board.advance_move();
    assert_eq!(board.visible_markers(MarkerVisibilityState(true)), vec![m1]);
    assert!(board.visible_markers(MarkerVisibilityState(false)).is_empty());
}

#[test]
fn marker_visibility_toggles() {
    let hidden = MarkerVisibilityState(false);
    assert_eq!(hidden.toggled(), MarkerVisibilityState(true));
    assert_eq!(hidden.toggled().toggled(), hidden);
}

#[test]
fn preset_rules() {
    let k = knight();
    assert_eq!(k.single.as_ref().unwrap().0, Direction::knight());
    assert!(k.sliding.is_none() && !k.check_detector && !k.promoting);

    let b = bishop();
    assert_eq!(b.sliding.as_ref().unwrap().0, Direction::diagonal());
    let r = rook();
    assert_eq!(r.sliding.as_ref().unwrap().0, Direction::orthogonal());
    assert!(r.castle_bottom && !r.castle_top);
    let q = queen();
    assert_eq!(q.sliding.as_ref().unwrap().0, Direction::monarch());
    let kg = king();
    assert_eq!(kg.single.as_ref().unwrap().0, Direction::monarch());
    assert!(kg.castle_top && kg.check_detector && !kg.castle_bottom);

    let w = white_pawn();
    assert_eq!(w.double_pawn.unwrap().0, Direction::new(1, 0));
    assert_eq!(w.move_only.as_ref().unwrap().0.0, vec![Direction::new(1, 0)]);
    assert_eq!(w.capture_only.as_ref().unwrap().0.0, vec![Direction::new(1, -1), Direction::new(1, 1)]);
    assert!(w.captures_en_passant && w.promoting);
    let bp = black_pawn();
    assert_eq!(bp.double_pawn.unwrap().0, Direction::new(-1, 0));
    assert_eq!(bp.capture_only.as_ref().unwrap().0.0, vec![Direction::new(-1, -1), Direction::new(-1, 1)]);
}

#[test]
fn rules_by_kind() {
    assert!(rules_for(PieceKind::Pawn, PieceColor::Black).promoting);
    assert_eq!(rules_for(PieceKind::Pawn, PieceColor::Black).double_pawn.unwrap().0, Direction::new(-1, 0));
    assert!(rules_for(PieceKind::King, PieceColor::White).check_detector);
    assert!(rules_for(PieceKind::Rook, PieceColor::White).castle_bottom);
    assert!(rules_for(PieceKind::Queen, PieceColor::White).sliding.is_some());
}

#[test]
fn standard_setup_lists_the_pieces() {
    let setup = standard_setup();
    assert_eq!(setup.len(), 32);
    assert_eq!(setup[0], (PieceColor::White, Position::new(0, 0), PieceKind::Rook));
    assert_eq!(setup[3], (PieceColor::White, Position::new(0, 3), PieceKind::Queen));
    assert_eq!(setup[4], (PieceColor::White, Position::new(0, 4), PieceKind::King));
    assert_eq!(setup[12], (PieceColor::Black, Position::new(7, 4), PieceKind::King));
    assert_eq!(setup[16], (PieceColor::White, Position::new(1, 0), PieceKind::Pawn));
    assert_eq!(setup[17], (PieceColor::Black, Position::new(6, 0), PieceKind::Pawn));
    assert_eq!(setup[31], (PieceColor::Black, Position::new(6, 7), PieceKind::Pawn));
}

#[test]
fn piece_moved_event_holds_its_fields() {
    let m = step(Position::new(1, 0), Position::new(2, 0), None);
    let e = PieceMovedEvent::new(m, true, false);
    assert_eq!(e.mmove, m);
    assert!(e.is_real);
    assert!(!e.advance_move);
}
