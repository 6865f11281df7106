use vstd::prelude::*;

use crate::board::{board_at, lemma_square_injective, square};
use crate::game::{at, board_sync, markers_in_bounds, view_wf, Game, GameView};
use crate::pieces::{has_id, ids_unique, index_of, lemma_index_of, lemma_index_of_range, lemma_remove_id, PieceState};
use crate::position::Position;

verus! {

/// The state without the piece of the id: its state and rules leave the
/// registry, and its square, when it stands on one, becomes empty.
pub open spec fn remove_piece_spec(v: GameView, id: u64) -> GameView {
    if has_id(v.states, id) {
        let k = index_of(v.states, id);
        let s = v.states[k];
        GameView {
            board: if s.captured { v.board } else { v.board.update(square(s.position), v.empty) },
            states: v.states.remove(k),
            rules: v.rules.remove(k),
            ..v
        }
    } else {
        v
    }
}

/// The state without the pieces of the ids, removed in order.
pub open spec fn remove_all_spec(v: GameView, ids: Seq<u64>) -> GameView
    decreases ids.len(),
{
    if ids.len() == 0 {
        v
    } else {
        remove_piece_spec(remove_all_spec(v, ids.drop_last()), ids.last())
    }
}

/// Removing a piece keeps the state consistent; every other piece keeps its
/// state and rules.
pub proof fn lemma_remove_piece_wf(v: GameView, id: u64)
    requires
        view_wf(v),
    ensures
        view_wf(remove_piece_spec(v, id)),
        forall|x: u64| #[trigger] has_id(remove_piece_spec(v, id).states, x) == (has_id(v.states, x) && x != id),
        forall|x: u64| has_id(v.states, x) && x != id ==> {
            &&& #[trigger] remove_piece_spec(v, id).states[index_of(remove_piece_spec(v, id).states, x)] == v.states[index_of(v.states, x)]
            &&& remove_piece_spec(v, id).rules[index_of(remove_piece_spec(v, id).states, x)] == v.rules[index_of(v.states, x)]
        },
{
    if has_id(v.states, id) {
        let w = remove_piece_spec(v, id);
        let k = index_of(v.states, id);
        lemma_index_of_range(v.states, id);
        let s = v.states[k];
        lemma_remove_id(v.states, k);
        assert(s.position.in_bounds());
        assert forall|j: int| 0 <= j < w.states.len() implies (#[trigger] w.states[j]).position.in_bounds() by {
            let j0 = if j < k { j } else { j + 1 };
            assert(w.states[j] == v.states[j0]);
        }
        assert forall|j: int| 0 <= j < w.states.len() && !(#[trigger] w.states[j]).captured
            implies board_at(w.board, w.states[j].position) == w.states[j].id by {
            let j0 = if j < k { j } else { j + 1 };
            assert(w.states[j] == v.states[j0]);
            let pj = v.states[j0].position;
            assert(board_at(v.board, pj) == v.states[j0].id);
            if !s.captured {
                lemma_square_injective(pj, s.position);
                if pj == s.position {
                    assert(board_at(v.board, s.position) == s.id);
                    assert(v.states[j0].id != s.id);
                }
            }
        }
        assert forall|p: Position| p.in_bounds() && #[trigger] board_at(w.board, p) != w.empty implies {
            &&& has_id(w.states, board_at(w.board, p))
            &&& !w.states[index_of(w.states, board_at(w.board, p))].captured
            &&& w.states[index_of(w.states, board_at(w.board, p))].position == p
        } by {
            if !s.captured {
                lemma_square_injective(p, s.position);
            }
            let z = board_at(v.board, p);
            assert(board_at(w.board, p) == z);
            lemma_index_of_range(v.states, z);
            assert(z != id);
        }
        assert forall|j: int| 0 <= j < w.rules.len() implies (#[trigger] w.rules[j]).wf() by {
            let j0 = if j < k { j } else { j + 1 };
            assert(w.rules[j] == v.rules[j0]);
        }
        assert(!has_id(w.states, w.empty));
        assert forall|x: u64| has_id(v.states, x) && x != id implies {
            &&& #[trigger] w.states[index_of(w.states, x)] == v.states[index_of(v.states, x)]
            &&& w.rules[index_of(w.states, x)] == v.rules[index_of(v.states, x)]
        } by {
            lemma_index_of_range(v.states, x);
            let j = index_of(v.states, x);
            let j2 = if j < k { j } else { j - 1 };
            assert(w.states[j2] == v.states[j]);
            lemma_index_of(w.states, j2);
            assert(w.rules[j2] == v.rules[j]);
        }
        assert(board_sync(w.board, w.empty, w.states));
        assert(markers_in_bounds(w.past) && markers_in_bounds(w.current) && markers_in_bounds(w.future));
    }
}

/// Removing the pieces of the ids keeps the state consistent; afterwards a
/// piece is in the game exactly when it was before and its id is not listed.
pub proof fn lemma_remove_all(v: GameView, ids: Seq<u64>)
    requires
        view_wf(v),
    ensures
        view_wf(remove_all_spec(v, ids)),
        forall|x: u64| #[trigger] has_id(remove_all_spec(v, ids).states, x) == (has_id(v.states, x) && !ids.contains(x)),
    decreases ids.len(),
{
    if ids.len() > 0 {
        let pre = ids.drop_last();
        lemma_remove_all(v, pre);
        lemma_remove_piece_wf(remove_all_spec(v, pre), ids.last());
        assert forall|x: u64| #[trigger] has_id(remove_all_spec(v, ids).states, x) == (has_id(v.states, x) && !ids.contains(x)) by {
            if pre.contains(x) {
                let j = choose|j: int| 0 <= j < pre.len() && pre[j] == x;
                assert(ids[j] == x);
            }
            if ids.contains(x) && x != ids.last() {
                let j = choose|j: int| 0 <= j < ids.len() && ids[j] == x;
                assert(j != ids.len() - 1);
                assert(pre[j] == x);
            }
            if x == ids.last() {
                assert(ids[ids.len() - 1] == x);
            }
        }
    }
}

impl Game {
    /// Takes the piece with the id out of the game: it leaves the registry and,
    /// when it stands on a square, the square becomes empty.
    pub fn remove_piece(&mut self, id: u64)
        requires
            old(self).wf(),
        ensures
            final(self).wf(),
            final(self)@ == remove_piece_spec(old(self)@, id),
    {
        let ghost v = self@;
        proof {
            lemma_remove_piece_wf(v, id);
        }
        if let Some(k) = self.pieces.find(id) {
            let state = self.pieces.states[k];
            if !state.captured {
                let empty = self.board.empty_piece;
                self.board.set(state.position, empty);
            }
            self.pieces.states.remove(k);
            self.pieces.rules.remove(k);
        }
    }

    /// The move is over: the record of changes is forgotten and the pieces it
    /// captured are taken out of the game. Returns those pieces, to be removed
    /// from view.
    pub fn on_move_fully_ended(&mut self) -> (despawned: Vec<u64>)
        requires
            old(self).wf(),
        ensures
            final(self).wf(),
            despawned@ == old(self)@.to_despawn,
            final(self)@ == remove_all_spec(
                GameView { changes: Seq::empty(), to_despawn: Seq::empty(), ..old(self)@ },
                old(self)@.to_despawn,
            ),
    {
        let ghost v = self@;
        let despawned = self.board_changes.clear();
        let ghost v0 = GameView { changes: Seq::empty(), to_despawn: Seq::empty(), ..v };
        assert(self.board_changes.changes@ =~= Seq::<(Position, u64)>::empty());
        assert(self.board_changes.to_despawn@ =~= Seq::<u64>::empty());
        assert(self@ == v0);
        assert(despawned@.take(0) =~= Seq::<u64>::empty());
        let mut i: usize = 0;
        while i < despawned.len()
            invariant
                self.wf(),
                despawned@ == v.to_despawn,
                i <= despawned@.len(),
                self@ == remove_all_spec(v0, despawned@.take(i as int)),
            decreases despawned@.len() - i,
        {
            assert(despawned@.take(i + 1).drop_last() =~= despawned@.take(i as int));
            assert(despawned@.take(i + 1).last() == despawned@[i as int]);
            self.remove_piece(despawned[i]);
            i = i + 1;
        }
        assert(despawned@.take(i as int) =~= despawned@);
        despawned
    }
}

} // verus!
