use vstd::prelude::*;

use crate::game::{do_move_spec, restore_all, restore_changes_spec, view_wf, Game, GameView};
use crate::legality::{castle_targets_ok, lemma_gen_moves_ok, map_ok};
use crate::move_generator::{gen_moves, key_pos};
use crate::moves::{map_get, spec_priority, Move, MoveType, Moves, PieceMovedEvent};
use crate::piece_moved::{
    add_future, advance_spec, apply_move_spec, lemma_apply_move_wf, lemma_restore_undoes_apply, move_ok,
    moved_spec, normal_spec,
};
use crate::pieces::{has_id, index_of, PieceColor};
use crate::position::Position;

verus! {

/// The piece `e` is offered a move that captures the piece on `t`.
pub open spec fn attacks_square(w: GameView, e: int, t: Position) -> bool {
    exists|k: (isize, isize)| #[trigger] gen_moves(w, e, false).contains_key(k) && gen_moves(w, e, false)[k].capture == Some(t)
}

/// The piece `e` is an enemy in play of the color.
pub open spec fn is_enemy_piece(w: GameView, e: int, color: PieceColor) -> bool {
    0 <= e < w.states.len() && w.states[e].color != color && !w.states[e].captured
}

/// The piece `d` is a piece of the color that must not be left attacked.
pub open spec fn is_check_detector(w: GameView, d: int, color: PieceColor) -> bool {
    0 <= d < w.states.len() && w.states[d].color == color && w.rules[d].check_detector
}

/// Some enemy in play is offered a capture of a check detector of the color.
pub open spec fn in_check(w: GameView, color: PieceColor) -> bool {
    exists|e: int, d: int| #![trigger is_enemy_piece(w, e, color), is_check_detector(w, d, color)]
        is_enemy_piece(w, e, color) && is_check_detector(w, d, color) && attacks_square(w, e, w.states[d].position)
}

/// The move does not leave a check detector of the color attacked.
pub open spec fn is_legal(v: GameView, color: PieceColor, m: Move) -> bool {
    !in_check(apply_move_spec(v, m, false, true), color)
}

/// The moves of the map that are legal for a piece of the color.
pub open spec fn legal_moves_spec(v: GameView, color: PieceColor, moves: Map<(isize, isize), Move>) -> Map<(isize, isize), Move> {
    Map::new(|k: (isize, isize)| moves.contains_key(k) && is_legal(v, color, moves[k]), |k: (isize, isize)| moves[k])
}

/// The state after undoing the recorded changes and taking the markers back.
pub open spec fn restore_board_spec(v: GameView) -> GameView {
    let r = restore_changes_spec(v);
    GameView { past: Seq::empty(), current: v.past, future: Seq::empty(), ..r }
}

/// After a move's markers become the current ones, taking the move back makes
/// the markers that were current before it current again.
pub proof fn lemma_restore_takes_markers_back(v: GameView)
    ensures
        restore_board_spec(advance_spec(v)).current == v.current,
        restore_board_spec(advance_spec(v)).past.len() == 0,
        restore_board_spec(advance_spec(v)).future.len() == 0,
{
}

/// A move does not look at the markers before the current ones.
pub proof fn lemma_apply_ignores_past(v: GameView, m: Move, is_real: bool, p: Seq<crate::markers::Marker>)
    ensures
        apply_move_spec(GameView { past: p, ..v }, m, is_real, true) == apply_move_spec(v, m, is_real, true),
{
    reveal(do_move_spec);
    let vp = GameView { past: p, ..v };
    assert(moved_spec(vp, m, is_real) == GameView { past: p, ..moved_spec(v, m, is_real) });
}

/// Making a move that is not real and then restoring the board gives back the
/// state before it, except the markers before the current ones, which are dropped.
pub proof fn lemma_simulation_round_trip(v: GameView, m: Move)
    requires
        view_wf(v),
        move_ok(v, m),
        v.changes.len() == 0,
        v.to_despawn.len() == 0,
        v.future.len() == 0,
    ensures
        restore_board_spec(apply_move_spec(v, m, false, true)) == (GameView { past: Seq::empty(), ..v }),
{
    let w = apply_move_spec(v, m, false, true);
    lemma_restore_undoes_apply(v, m, true);
    lemma_apply_move_wf(v, m, false, true);
    assert(w.changes.skip(0) =~= w.changes);
    assert(Seq::<(Position, u64)>::empty() =~= v.changes);
    assert(Seq::<u64>::empty() =~= v.to_despawn);
    assert(Seq::<crate::markers::Marker>::empty() =~= v.future);
}

/// Whether a move can be made does not depend on the markers before the current ones.
pub proof fn lemma_move_ok_ignores_past(v: GameView, m: Move, p: Seq<crate::markers::Marker>)
    ensures
        move_ok(GameView { past: p, ..v }, m) == move_ok(v, m),
{
    reveal(do_move_spec);
}

/// The circles show the moves of the map: one circle on each target square,
/// telling whether its move captures.
pub open spec fn circles_of(moves: Map<(isize, isize), Move>, circles: Seq<(Position, bool)>) -> bool {
    &&& forall|j: int| #![trigger circles[j]] 0 <= j < circles.len() ==>
        moves.contains_key(circles[j].0.key()) && circles[j].1 == moves[circles[j].0.key()].capture.is_some()
    &&& forall|k: (isize, isize)| #[trigger] moves.contains_key(k) ==>
        exists|j: int| 0 <= j < circles.len() && circles[j].0.key() == k
    &&& forall|a: int, b: int| 0 <= a < b < circles.len() ==> circles[a].0 != circles[b].0
}

/// Whether a move of the map captures the piece on `target`.
pub fn captures(moves: &Moves, target: Position) -> (r: bool)
    ensures
        r == exists|k: (isize, isize)| #[trigger] moves@.contains_key(k) && moves@[k].capture == Some(target),
{
    let entries = moves.entries();
    let mut i: usize = 0;
    while i < entries.len()
        invariant
            i <= entries@.len(),
            forall|ii: int| #![trigger entries@[ii]] 0 <= ii < entries@.len() ==>
                moves@.contains_key(entries@[ii].0) && moves@[entries@[ii].0] == entries@[ii].1,
            forall|ii: int| #![trigger entries@[ii]] 0 <= ii < i ==> entries@[ii].1.capture != Some(target),
        decreases entries@.len() - i,
    {
        if entries[i].1.capture == Some(target) {
            assert(moves@.contains_key(entries@[i as int].0));
            return true;
        }
        i = i + 1;
    }
    assert forall|k: (isize, isize)| #[trigger] moves@.contains_key(k) implies moves@[k].capture != Some(target) by {
        let ii = choose|ii: int| 0 <= ii < entries@.len() && entries@[ii].0 == k;
        assert(entries@[ii].0 == k);
    }
    false
}

impl Game {
    /// Whether an enemy in play is offered a capture of a check detector of the color.
    pub fn in_check(&self, color: PieceColor) -> (r: bool)
        requires
            self.wf(),
        ensures
            r == in_check(self@, color),
    {
        let mut e: usize = 0;
        while e < self.pieces.states.len()
            invariant
                self.wf(),
                e <= self@.states.len(),
                forall|ee: int, d: int| #![trigger is_enemy_piece(self@, ee, color), is_check_detector(self@, d, color)]
                    0 <= ee < e && is_enemy_piece(self@, ee, color) && is_check_detector(self@, d, color)
                    ==> !attacks_square(self@, ee, self@.states[d].position),
            decreases self@.states.len() - e,
        {
            let state = self.pieces.states[e];
            if state.color != color && !state.captured {
                let moves = self.generate_moves(e, false);
                let mut d: usize = 0;
                while d < self.pieces.states.len()
                    invariant
                        self.wf(),
                        e < self@.states.len(),
                        is_enemy_piece(self@, e as int, color),
                        moves@ == gen_moves(self@, e as int, false),
                        d <= self@.states.len(),
                        forall|dd: int| #![trigger is_check_detector(self@, dd, color)]
                            0 <= dd < d && is_check_detector(self@, dd, color)
                            ==> !attacks_square(self@, e as int, self@.states[dd].position),
                    decreases self@.states.len() - d,
                {
                    if self.pieces.states[d].color == color && self.pieces.rules[d].check_detector {
                        if captures(&moves, self.pieces.states[d].position) {
                            assert(is_check_detector(self@, d as int, color));
                            assert(attacks_square(self@, e as int, self@.states[d as int].position));
                            return true;
                        }
                    }
                    d = d + 1;
                }
            }
            e = e + 1;
        }
        false
    }
}


impl Game {
    /// Undoes the recorded changes and takes the markers back to the ones
    /// before the last move.
    pub fn restore_board(&mut self)
        requires
            old(self).wf(),
        ensures
            final(self)@ == restore_board_spec(old(self)@),
            final(self).board.wf(),
            final(self).pieces.wf(),
    {
        self.restore_changes();
        self.marker_board.restore_previous();
        assert(self.marker_board.future@ =~= Seq::<crate::markers::Marker>::empty());
        assert(self.marker_board.past@ =~= Seq::<crate::markers::Marker>::empty());
    }

    /// Keeps the moves of the map that do not leave a check detector of the
    /// color attacked: each is made for trial, the enemies' moves are
    /// generated, and the board is restored. The kept moves are shown; the
    /// result lists the black circles to be shown, each with its square and
    /// whether it marks a capture.
    pub fn check_illegal_moves(&mut self, color: PieceColor, moves: &Moves) -> (r: (Moves, Vec<(Position, bool)>))
        requires
            old(self).wf(),
            old(self)@.changes.len() == 0,
            old(self)@.to_despawn.len() == 0,
            old(self)@.future.len() == 0,
            map_ok(old(self)@, moves@),
        ensures
            final(self).wf(),
            final(self)@ == (GameView { past: final(self)@.past, ..old(self)@ }),
            final(self)@.past == (if moves@.dom() == Set::<(isize, isize)>::empty() { old(self)@.past } else { Seq::empty() }),
            r.0@ == legal_moves_spec(old(self)@, color, moves@),
            r.0.move_indicator,
            r.0.capture_indicator,
            circles_of(r.0@, r.1@),
    {
        let ghost v = self@;
        let entries = moves.entries();
        let mut new_moves = Moves::new();
        let mut circles: Vec<(Position, bool)> = Vec::new();
        let mut idx: usize = 0;
        while idx < entries.len()
            invariant
                self.wf(),
                self@ == (GameView { past: self@.past, ..v }),
                self@.past == (if idx == 0 { v.past } else { Seq::empty() }),
                view_wf(v),
                v.changes.len() == 0,
                v.to_despawn.len() == 0,
                v.future.len() == 0,
                map_ok(v, moves@),
                idx <= entries@.len(),
                forall|ii: int| #![trigger entries@[ii]] 0 <= ii < entries@.len() ==>
                    moves@.contains_key(entries@[ii].0) && moves@[entries@[ii].0] == entries@[ii].1,
                forall|k: (isize, isize)| #[trigger] moves@.contains_key(k) ==>
                    exists|ii: int| 0 <= ii < entries@.len() && entries@[ii].0 == k,
                forall|a: int, b: int| 0 <= a < b < entries@.len() ==> entries@[a].0 != entries@[b].0,
                new_moves.move_indicator,
                new_moves.capture_indicator,
                forall|k: (isize, isize)| #[trigger] new_moves@.contains_key(k) <==>
                    exists|ii: int| 0 <= ii < idx && entries@[ii].0 == k && is_legal(v, color, entries@[ii].1),
                forall|k: (isize, isize)| #[trigger] new_moves@.contains_key(k) ==> new_moves@[k] == moves@[k],
                forall|j: int| #![trigger circles@[j]] 0 <= j < circles@.len() ==>
                    new_moves@.contains_key(circles@[j].0.key()) && circles@[j].1 == new_moves@[circles@[j].0.key()].capture.is_some(),
                forall|k: (isize, isize)| #[trigger] new_moves@.contains_key(k) ==>
                    exists|j: int| 0 <= j < circles@.len() && circles@[j].0.key() == k,
                forall|a: int, b: int| 0 <= a < b < circles@.len() ==> circles@[a].0 != circles@[b].0,
            decreases entries@.len() - idx,
        {
            let (key, mmove) = entries[idx];
            let ghost vp = self@;
            assert(moves@.contains_key(key));
            assert(move_ok(v, mmove));
            assert(vp == (GameView { past: vp.past, ..v }));
            assert(move_ok(vp, mmove)) by {
                assert(vp.board == v.board && vp.states == v.states && vp.empty == v.empty);
                assert(vp == (GameView { past: vp.past, ..v }));
                crate::checks::lemma_move_ok_ignores_past(v, mmove, vp.past);
            }
            proof {
                lemma_apply_ignores_past(v, mmove, false, vp.past);
            }
            self.on_piece_moved(PieceMovedEvent::new(mmove, false, true));
            let attacked = self.in_check(color);
            assert(attacked == !is_legal(v, color, mmove));
            proof {
                lemma_simulation_round_trip(v, mmove);
                lemma_apply_move_wf(v, mmove, false, true);
            }
            self.restore_board();
            assert(self@ == (GameView { past: Seq::empty(), ..v }));
            let position = Position::new(key.0, key.1);
            assert(position.key() == key);
            if !attacked {
                assert(!new_moves@.contains_key(key)) by {
                    if new_moves@.contains_key(key) {
                        let ii = choose|ii: int| 0 <= ii < idx && entries@[ii].0 == key && is_legal(v, color, entries@[ii].1);
                        assert(entries@[ii].0 != entries@[idx as int].0);
                    }
                }
                assert(spec_priority(position, map_get(new_moves@, key)).rank() == 0);
                let ghost before = new_moves@;
                let ghost circles_before = circles@;
                let circle = new_moves.insert(position, mmove);
                assert(new_moves@ == before.insert(key, mmove));
                if let Some(is_capture) = circle {
                    circles.push((position, is_capture));
                    assert forall|a: int, b: int| 0 <= a < b < circles@.len() implies circles@[a].0 != circles@[b].0 by {
                        if b == circles@.len() - 1 {
                            assert(before.contains_key(circles@[a].0.key()));
                        }
                    }
                    assert forall|k: (isize, isize)| #[trigger] new_moves@.contains_key(k) implies
                        exists|j: int| 0 <= j < circles@.len() && circles@[j].0.key() == k by {
                        if k == key {
                            assert(circles@[circles@.len() - 1].0.key() == k);
                        } else {
                            assert(before.contains_key(k));
                            let j = choose|j: int| 0 <= j < circles_before.len() && circles_before[j].0.key() == k;
                            assert(circles@[j] == circles_before[j]);
                        }
                    }
                }
            }
            idx = idx + 1;
        }
        proof {
            if entries@.len() == 0 {
                assert(moves@.dom() =~= Set::<(isize, isize)>::empty()) by {
                    assert forall|k: (isize, isize)| !#[trigger] moves@.contains_key(k) by {
                        if moves@.contains_key(k) {
                            let ii = choose|ii: int| 0 <= ii < entries@.len() && entries@[ii].0 == k;
                        }
                    }
                }
            } else {
                assert(moves@.contains_key(entries@[0].0));
                assert(moves@.dom().contains(entries@[0].0));
                assert(moves@.dom() != Set::<(isize, isize)>::empty());
            }
            let l = legal_moves_spec(v, color, moves@);
            assert forall|k: (isize, isize)| new_moves@.contains_key(k) <==> l.contains_key(k) by {
                if l.contains_key(k) {
                    let ii = choose|ii: int| 0 <= ii < entries@.len() && entries@[ii].0 == k;
                    assert(entries@[ii].0 == k);
                }
            }
            assert(new_moves@ =~= l);
        }
        (new_moves, circles)
    }
}


impl Game {
    /// Selects the piece with the id: its moves are generated, castlings
    /// included, and those that leave a check detector of its color attacked are
    /// dropped. The result holds the legal moves and their circles; `None` when
    /// the id is no piece in play.
    pub fn select_piece(&mut self, id: u64) -> (r: Option<(Moves, Vec<(Position, bool)>)>)
        requires
            old(self).wf(),
            old(self)@.changes.len() == 0,
            old(self)@.to_despawn.len() == 0,
            old(self)@.future.len() == 0,
            has_id(old(self)@.states, id) && !old(self)@.states[index_of(old(self)@.states, id)].captured
                && old(self)@.rules[index_of(old(self)@.states, id)].castle_top
                ==> castle_targets_ok(old(self)@, index_of(old(self)@.states, id)),
        ensures
            final(self).wf(),
            final(self)@ == (GameView { past: final(self)@.past, ..old(self)@ }),
            r is None ==> final(self)@ == old(self)@,
            r matches Some(x) ==> final(self)@.past == (if gen_moves(old(self)@, index_of(old(self)@.states, id), true).dom()
                == Set::<(isize, isize)>::empty() { old(self)@.past } else { Seq::empty() }),
            r is None <==> !(has_id(old(self)@.states, id) && !old(self)@.states[index_of(old(self)@.states, id)].captured),
            r matches Some(x) ==> {
                let v = old(self)@;
                let i = index_of(v.states, id);
                &&& x.0@ == legal_moves_spec(v, v.states[i].color, gen_moves(v, i, true))
                &&& x.0.move_indicator
                &&& x.0.capture_indicator
                &&& circles_of(x.0@, x.1@)
            },
    {
        let ghost v = self@;
        match self.pieces.find(id) {
            None => None,
            Some(i) => {
                let state = self.pieces.states[i];
                if state.captured {
                    return None;
                }
                let moves = self.generate_moves(i, true);
                proof {
                    lemma_gen_moves_ok(v, i as int, true);
                }
                let r = self.check_illegal_moves(state.color, &moves);
                Some(r)
            },
        }
    }
}

} // verus!
