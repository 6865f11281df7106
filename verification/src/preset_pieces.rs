use vstd::prelude::*;

use crate::direction::Direction;
use crate::pieces::{
    CaptureOnly, DoublePawnMoveGenerator, MoveOnly, PieceRules, SingleMoveGenerator, SlidingMoveGenerator,
};

verus! {

/// The rules of a piece with no generator and no part in the rules.
pub open spec fn plain(r: PieceRules) -> bool {
    &&& !r.captures_en_passant
    &&& !r.castle_top
    &&& !r.castle_bottom
    &&& !r.check_detector
    &&& !r.promoting
}

/// The rules of a pawn moving along `drank`.
pub open spec fn pawn_rules(r: PieceRules, drank: isize) -> bool {
    &&& r.double_pawn == Some(DoublePawnMoveGenerator(Direction { drank, dfile: 0 }))
    &&& r.move_only matches Some(g) && g.0.0@ == seq![Direction { drank, dfile: 0 }]
    &&& r.capture_only matches Some(g) && g.0.0@ == seq![Direction { drank, dfile: -1isize }, Direction { drank, dfile: 1 }]
    &&& r.single.is_none()
    &&& r.sliding.is_none()
    &&& r.captures_en_passant
    &&& r.promoting
    &&& !r.castle_top
    &&& !r.castle_bottom
    &&& !r.check_detector
}

/// The rules of a knight.
pub open spec fn knight_rules(r: PieceRules) -> bool {
    &&& plain(r)
    &&& r.single matches Some(g) && g.0@ == Direction::spec_knight()
    &&& r.move_only.is_none()
    &&& r.capture_only.is_none()
    &&& r.sliding.is_none()
    &&& r.double_pawn.is_none()
}

/// The rules of a piece of the standard set that slides along `dirs` and has no other generator.
pub open spec fn slider_rules(r: PieceRules, dirs: Seq<Direction>) -> bool {
    &&& r.sliding matches Some(g) && g.0@ == dirs
    &&& r.single.is_none()
    &&& r.move_only.is_none()
    &&& r.capture_only.is_none()
    &&& r.double_pawn.is_none()
}

/// The rules of a bishop.
pub open spec fn bishop_rules(r: PieceRules) -> bool {
    plain(r) && slider_rules(r, Direction::spec_diagonal())
}

/// The rules of a rook.
pub open spec fn rook_rules(r: PieceRules) -> bool {
    &&& slider_rules(r, Direction::spec_orthogonal())
    &&& r.castle_bottom
    &&& !r.castle_top
    &&& !r.captures_en_passant
    &&& !r.check_detector
    &&& !r.promoting
}

/// The rules of a queen.
pub open spec fn queen_rules(r: PieceRules) -> bool {
    plain(r) && slider_rules(r, Direction::spec_monarch())
}

/// The rules of a king.
pub open spec fn king_rules(r: PieceRules) -> bool {
    &&& r.single matches Some(g) && g.0@ == Direction::spec_monarch()
    &&& r.sliding.is_none()
    &&& r.move_only.is_none()
    &&& r.capture_only.is_none()
    &&& r.double_pawn.is_none()
    &&& r.castle_top
    &&& r.check_detector
    &&& !r.castle_bottom
    &&& !r.captures_en_passant
    &&& !r.promoting
}

/// A pawn moving along `drank`: one step forward, two from the start,
/// captures one step diagonally forward (en passant too), and promotes.
pub fn pawn(drank: isize) -> (r: PieceRules)
    ensures
        isize::MIN / 2 + 8 <= drank <= isize::MAX / 2 - 8 ==> r.wf(),
        pawn_rules(r, drank),
{
    let forward = vec![Direction::new(drank, 0)];
    let diagonal = vec![Direction::new(drank, -1), Direction::new(drank, 1)];
    assert(forward@ =~= seq![Direction { drank, dfile: 0 }]);
    assert(diagonal@ =~= seq![Direction { drank, dfile: -1isize }, Direction { drank, dfile: 1 }]);
    PieceRules {
        single: None,
        move_only: Some(MoveOnly(SingleMoveGenerator(forward))),
        capture_only: Some(CaptureOnly(SingleMoveGenerator(diagonal))),
        sliding: None,
        double_pawn: Some(DoublePawnMoveGenerator(Direction::new(drank, 0))),
        captures_en_passant: true,
        castle_top: false,
        castle_bottom: false,
        check_detector: false,
        promoting: true,
    }
}

/// A pawn moving towards higher ranks.
pub fn white_pawn() -> (r: PieceRules)
    ensures
        r.wf(),
        pawn_rules(r, 1),
{
    pawn(1)
}

/// A pawn moving towards lower ranks.
pub fn black_pawn() -> (r: PieceRules)
    ensures
        r.wf(),
        pawn_rules(r, -1isize),
{
    pawn(-1)
}

/// A knight: the eight jumps, each a move or a capture.
pub fn knight() -> (r: PieceRules)
    ensures
        r.wf(),
        knight_rules(r),
{
    PieceRules {
        single: Some(SingleMoveGenerator(Direction::knight())),
        move_only: None,
        capture_only: None,
        sliding: None,
        double_pawn: None,
        captures_en_passant: false,
        castle_top: false,
        castle_bottom: false,
        check_detector: false,
        promoting: false,
    }
}

/// A bishop: slides along the diagonals.
pub fn bishop() -> (r: PieceRules)
    ensures
        r.wf(),
        bishop_rules(r),
{
    PieceRules {
        single: None,
        move_only: None,
        capture_only: None,
        sliding: Some(SlidingMoveGenerator(Direction::diagonal())),
        double_pawn: None,
        captures_en_passant: false,
        castle_top: false,
        castle_bottom: false,
        check_detector: false,
        promoting: false,
    }
}

/// A rook: slides along ranks and files, and is castled with.
pub fn rook() -> (r: PieceRules)
    ensures
        r.wf(),
        rook_rules(r),
{
    PieceRules {
        single: None,
        move_only: None,
        capture_only: None,
        sliding: Some(SlidingMoveGenerator(Direction::orthogonal())),
        double_pawn: None,
        captures_en_passant: false,
        castle_top: false,
        castle_bottom: true,
        check_detector: false,
        promoting: false,
    }
}

/// A queen: slides in all eight directions.
pub fn queen() -> (r: PieceRules)
    ensures
        r.wf(),
        queen_rules(r),
{
    PieceRules {
        single: None,
        move_only: None,
        capture_only: None,
        sliding: Some(SlidingMoveGenerator(Direction::monarch())),
        double_pawn: None,
        captures_en_passant: false,
        castle_top: false,
        castle_bottom: false,
        check_detector: false,
        promoting: false,
    }
}

/// A king: one step in all eight directions; it castles, and must not be left attacked.
pub fn king() -> (r: PieceRules)
    ensures
        r.wf(),
        king_rules(r),
{
    PieceRules {
        single: Some(SingleMoveGenerator(Direction::monarch())),
        move_only: None,
        capture_only: None,
        sliding: None,
        double_pawn: None,
        captures_en_passant: false,
        castle_top: true,
        castle_bottom: false,
        check_detector: true,
        promoting: false,
    }
}

} // verus!
