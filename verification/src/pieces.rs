use vstd::prelude::*;

use crate::direction::Direction;
use crate::position::Position;

verus! {

/// The side a piece plays for.
#[derive(PartialEq, Eq, Structural, Debug, Clone, Copy)]
pub enum PieceColor {
    White,
    Black,
}

/// Moves a piece one step in each of its directions.
pub struct SingleMoveGenerator(pub Vec<Direction>);

/// Moves a piece along each of its directions until something blocks it.
pub struct SlidingMoveGenerator(pub Vec<Direction>);

/// Moves an unmoved pawn two steps in its direction.
#[derive(Clone, Copy)]
pub struct DoublePawnMoveGenerator(pub Direction);

/// A generator whose moves never capture.
pub struct MoveOnly(pub SingleMoveGenerator);

/// A generator whose moves only capture.
pub struct CaptureOnly(pub SingleMoveGenerator);

/// How a piece moves and what part it plays in the rules.
pub struct PieceRules {
    /// Single steps that move or capture.
    pub single: Option<SingleMoveGenerator>,
    /// Single steps that only move.
    pub move_only: Option<MoveOnly>,
    /// Single steps that only capture.
    pub capture_only: Option<CaptureOnly>,
    /// Slides that move or capture.
    pub sliding: Option<SlidingMoveGenerator>,
    /// The double step of an unmoved pawn.
    pub double_pawn: Option<DoublePawnMoveGenerator>,
    /// Whether its captures also take en passant markers (every piece takes castle markers).
    pub captures_en_passant: bool,
    /// Whether it is the piece that castles (the king).
    pub castle_top: bool,
    /// Whether it is the piece that is castled with (a rook).
    pub castle_bottom: bool,
    /// Whether a move that leaves it attacked is illegal.
    pub check_detector: bool,
    /// Whether it is offered promotion on the first and last rank.
    pub promoting: bool,
}

/// A step of a generator: taken once or twice from a square of the board, it
/// stays within the range of `isize`.
pub open spec fn step_ok(d: Direction) -> bool {
    &&& isize::MIN / 2 + 8 <= d.drank <= isize::MAX / 2 - 8
    &&& isize::MIN / 2 + 8 <= d.dfile <= isize::MAX / 2 - 8
}

pub open spec fn steps_ok(dirs: Seq<Direction>) -> bool {
    forall|i: int| 0 <= i < dirs.len() ==> step_ok(#[trigger] dirs[i])
}

impl PieceRules {
    /// The steps of each generator are distinct and small enough that no
    /// position arithmetic overflows.
    pub open spec fn wf(&self) -> bool {
        &&& (self.single matches Some(g) ==> steps_ok(g.0@) && g.0@.no_duplicates())
        &&& (self.move_only matches Some(g) ==> steps_ok(g.0.0@) && g.0.0@.no_duplicates())
        &&& (self.capture_only matches Some(g) ==> steps_ok(g.0.0@) && g.0.0@.no_duplicates())
        &&& (self.sliding matches Some(g) ==> steps_ok(g.0@) && g.0@.no_duplicates())
        &&& (self.double_pawn matches Some(g) ==> step_ok(g.0))
        &&& !(self.castle_top && self.castle_bottom)
    }
}

/// What changes about a piece during play.
#[derive(PartialEq, Eq, Structural, Debug, Clone, Copy)]
pub struct PieceState {
    pub id: u64,
    pub color: PieceColor,
    pub position: Position,
    pub has_moved: bool,
    pub captured: bool,
}

/// The pieces in play: their states, and their rules at the same indices.
pub struct Pieces {
    pub states: Vec<PieceState>,
    pub rules: Vec<PieceRules>,
}

/// No two states share an id.
pub open spec fn ids_unique(states: Seq<PieceState>) -> bool {
    forall|i: int, j: int| 0 <= i < states.len() && 0 <= j < states.len() && i != j
        ==> (#[trigger] states[i]).id != (#[trigger] states[j]).id
}

/// Whether some state has the id.
pub open spec fn has_id(states: Seq<PieceState>, id: u64) -> bool {
    exists|i: int| 0 <= i < states.len() && (#[trigger] states[i]).id == id
}

/// The index of the state with the id, or -1.
pub open spec fn index_of(states: Seq<PieceState>, id: u64) -> int {
    if has_id(states, id) {
        choose|i: int| 0 <= i < states.len() && (#[trigger] states[i]).id == id
    } else {
        -1
    }
}

/// With unique ids, `index_of` finds the one state with the id.
pub proof fn lemma_index_of(states: Seq<PieceState>, i: int)
    requires
        ids_unique(states),
        0 <= i < states.len(),
    ensures
        index_of(states, states[i].id) == i,
{
    let id = states[i].id;
    assert(has_id(states, id));
    let j = choose|j: int| 0 <= j < states.len() && (#[trigger] states[j]).id == id;
    assert(states[j].id == id);
}

/// The index of the state with the id lies in range and holds the id, or there is no such state.
pub proof fn lemma_index_of_range(states: Seq<PieceState>, id: u64)
    ensures
        has_id(states, id) ==> 0 <= index_of(states, id) < states.len() && states[index_of(states, id)].id == id,
        !has_id(states, id) ==> index_of(states, id) == -1,
{
}

/// Replacing a state by one with the same id keeps ids unique and every index.
pub proof fn lemma_update_same_id(states: Seq<PieceState>, i: int, x: PieceState)
    requires
        ids_unique(states),
        0 <= i < states.len(),
        x.id == states[i].id,
    ensures
        ids_unique(states.update(i, x)),
        forall|id: u64| has_id(states.update(i, x), id) == has_id(states, id),
        forall|id: u64| #[trigger] index_of(states.update(i, x), id) == index_of(states, id),
{
    let s2 = states.update(i, x);
    assert forall|a: int, b: int| 0 <= a < s2.len() && 0 <= b < s2.len() && a != b
        implies (#[trigger] s2[a]).id != (#[trigger] s2[b]).id by {
        assert(states[a].id == s2[a].id);
        assert(states[b].id == s2[b].id);
    }
    assert forall|id: u64| has_id(s2, id) == has_id(states, id) by {
        if has_id(s2, id) {
            let j = choose|j: int| 0 <= j < s2.len() && (#[trigger] s2[j]).id == id;
            assert(states[j].id == id);
        }
        if has_id(states, id) {
            let j = choose|j: int| 0 <= j < states.len() && (#[trigger] states[j]).id == id;
            assert(s2[j].id == id);
        }
    }
    assert forall|id: u64| #[trigger] index_of(s2, id) == index_of(states, id) by {
        if has_id(states, id) {
            let j = index_of(states, id);
            lemma_index_of_range(states, id);
            assert(s2[j].id == id);
            lemma_index_of(s2, j);
        }
    }
}

/// Adding a state with a new id keeps ids unique and every index.
pub proof fn lemma_push_new_id(states: Seq<PieceState>, x: PieceState)
    requires
        ids_unique(states),
        !has_id(states, x.id),
    ensures
        ids_unique(states.push(x)),
        forall|id: u64| #[trigger] has_id(states.push(x), id) == (has_id(states, id) || id == x.id),
        forall|id: u64| has_id(states, id) ==> #[trigger] index_of(states.push(x), id) == index_of(states, id),
        index_of(states.push(x), x.id) == states.len(),
{
    let s2 = states.push(x);
    assert forall|a: int, b: int| 0 <= a < s2.len() && 0 <= b < s2.len() && a != b
        implies (#[trigger] s2[a]).id != (#[trigger] s2[b]).id by {
        if a == states.len() {
            assert(s2[b] == states[b]);
        } else if b == states.len() {
            assert(s2[a] == states[a]);
        } else {
            assert(s2[a] == states[a] && s2[b] == states[b]);
        }
    }
    assert forall|id: u64| #[trigger] has_id(s2, id) == (has_id(states, id) || id == x.id) by {
        if has_id(states, id) {
            let j = choose|j: int| 0 <= j < states.len() && (#[trigger] states[j]).id == id;
            assert(s2[j].id == id);
        }
        if id == x.id {
            assert(s2[states.len() as int].id == id);
        }
        if has_id(s2, id) && id != x.id {
            let j = choose|j: int| 0 <= j < s2.len() && (#[trigger] s2[j]).id == id;
            assert(states[j].id == id);
        }
    }
    assert forall|id: u64| has_id(states, id) implies #[trigger] index_of(s2, id) == index_of(states, id) by {
        lemma_index_of_range(states, id);
        let j = index_of(states, id);
        assert(s2[j].id == id);
        lemma_index_of(s2, j);
    }
    lemma_index_of(s2, states.len() as int);
}

/// Removing a state keeps ids unique; every other id keeps its state.
pub proof fn lemma_remove_id(states: Seq<PieceState>, k: int)
    requires
        ids_unique(states),
        0 <= k < states.len(),
    ensures
        ids_unique(states.remove(k)),
        forall|id: u64| #[trigger] has_id(states.remove(k), id) == (has_id(states, id) && id != states[k].id),
        forall|id: u64| has_id(states, id) && id != states[k].id ==>
            #[trigger] states.remove(k)[index_of(states.remove(k), id)] == states[index_of(states, id)],
{
    let s2 = states.remove(k);
    assert forall|a: int, b: int| 0 <= a < s2.len() && 0 <= b < s2.len() && a != b
        implies (#[trigger] s2[a]).id != (#[trigger] s2[b]).id by {
        let a0 = if a < k { a } else { a + 1 };
        let b0 = if b < k { b } else { b + 1 };
        assert(s2[a] == states[a0] && s2[b] == states[b0]);
    }
    assert forall|id: u64| #[trigger] has_id(s2, id) == (has_id(states, id) && id != states[k].id) by {
        if has_id(s2, id) {
            let j = choose|j: int| 0 <= j < s2.len() && (#[trigger] s2[j]).id == id;
            let j0 = if j < k { j } else { j + 1 };
            assert(states[j0].id == id);
            assert(j0 != k);
        }
        if has_id(states, id) && id != states[k].id {
            let j = choose|j: int| 0 <= j < states.len() && (#[trigger] states[j]).id == id;
            assert(j != k);
            let j2 = if j < k { j } else { j - 1 };
            assert(s2[j2].id == id);
        }
    }
    assert forall|id: u64| has_id(states, id) && id != states[k].id implies
        #[trigger] s2[index_of(s2, id)] == states[index_of(states, id)] by {
        lemma_index_of_range(states, id);
        let j = index_of(states, id);
        assert(j != k);
        let j2 = if j < k { j } else { j - 1 };
        assert(s2[j2] == states[j]);
        lemma_index_of(s2, j2);
    }
}

/// The color of the piece with the id, if it is in play.
pub open spec fn color_of(states: Seq<PieceState>, id: u64) -> Option<PieceColor> {
    if has_id(states, id) {
        Some(states[index_of(states, id)].color)
    } else {
        None
    }
}

/// The states with the piece of the id marked captured.
pub open spec fn set_captured_spec(states: Seq<PieceState>, id: u64) -> Seq<PieceState> {
    if has_id(states, id) {
        let i = index_of(states, id);
        states.update(i, PieceState { captured: true, ..states[i] })
    } else {
        states
    }
}

/// The states with the piece of the id moved to `p`.
pub open spec fn set_position_spec(states: Seq<PieceState>, id: u64, p: Position) -> Seq<PieceState> {
    if has_id(states, id) {
        let i = index_of(states, id);
        states.update(i, PieceState { position: p, ..states[i] })
    } else {
        states
    }
}

/// The states with the piece of the id marked as having moved.
pub open spec fn set_moved_spec(states: Seq<PieceState>, id: u64) -> Seq<PieceState> {
    if has_id(states, id) {
        let i = index_of(states, id);
        states.update(i, PieceState { has_moved: true, ..states[i] })
    } else {
        states
    }
}

/// The states with the piece of the id back on `p` and no longer captured.
pub open spec fn restore_piece_spec(states: Seq<PieceState>, id: u64, p: Position) -> Seq<PieceState> {
    if has_id(states, id) {
        let i = index_of(states, id);
        states.update(i, PieceState { position: p, captured: false, ..states[i] })
    } else {
        states
    }
}

impl Pieces {
    pub open spec fn wf(&self) -> bool {
        &&& self.states@.len() == self.rules@.len()
        &&& ids_unique(self.states@)
    }

    pub fn new() -> (p: Self)
        ensures
            p.wf(),
            p.states@.len() == 0,
    {
        Pieces { states: Vec::new(), rules: Vec::new() }
    }

    /// The index of the piece with the id, if it is in play.
    pub fn find(&self, id: u64) -> (r: Option<usize>)
        requires
            self.wf(),
        ensures
            r.is_some() == has_id(self.states@, id),
            r matches Some(i) ==> i == index_of(self.states@, id) && i < self.states@.len(),
    {
        let mut i: usize = 0;
        while i < self.states.len()
            invariant
                self.wf(),
                0 <= i <= self.states@.len(),
                forall|j: int| 0 <= j < i ==> (#[trigger] self.states@[j]).id != id,
            decreases self.states@.len() - i,
        {
            if self.states[i].id == id {
                proof {
                    lemma_index_of(self.states@, i as int);
                }
                return Some(i);
            }
            i = i + 1;
        }
        None
    }

    /// Marks the piece with the id captured.
    pub fn set_captured(&mut self, id: u64)
        requires
            old(self).wf(),
        ensures
            final(self).wf(),
            final(self).states@ == set_captured_spec(old(self).states@, id),
            final(self).rules == old(self).rules,
    {
        if let Some(i) = self.find(id) {
            let mut s = self.states[i];
            s.captured = true;
            self.states.set(i, s);
        }
    }

    /// Moves the piece with the id to `p`.
    pub fn set_position(&mut self, id: u64, p: Position)
        requires
            old(self).wf(),
        ensures
            final(self).wf(),
            final(self).states@ == set_position_spec(old(self).states@, id, p),
            final(self).rules == old(self).rules,
    {
        if let Some(i) = self.find(id) {
            let mut s = self.states[i];
            s.position = p;
            self.states.set(i, s);
        }
    }

    /// Marks the piece with the id as having moved.
    pub fn set_moved(&mut self, id: u64)
        requires
            old(self).wf(),
        ensures
            final(self).wf(),
            final(self).states@ == set_moved_spec(old(self).states@, id),
            final(self).rules == old(self).rules,
    {
        if let Some(i) = self.find(id) {
            let mut s = self.states[i];
            s.has_moved = true;
            self.states.set(i, s);
        }
    }

    /// Puts the piece with the id back on `p`, no longer captured.
    pub fn restore_piece(&mut self, id: u64, p: Position)
        requires
            old(self).wf(),
        ensures
            final(self).wf(),
            final(self).states@ == restore_piece_spec(old(self).states@, id, p),
            final(self).rules == old(self).rules,
    {
        if let Some(i) = self.find(id) {
            let mut s = self.states[i];
            s.position = p;
            s.captured = false;
            self.states.set(i, s);
        }
    }

    /// The color of the piece with the id, if it is in play.
    pub fn get_color(&self, id: u64) -> (r: Option<PieceColor>)
        requires
            self.wf(),
        ensures
            r == color_of(self.states@, id),
    {
        match self.find(id) {
            Some(i) => Some(self.states[i].color),
            None => None,
        }
    }
}

} // verus!
