use bevy::platform::collections::HashMap;
use bevy::platform::hash::FixedHasher;
use vstd::prelude::*;

use crate::position::Position;

verus! {

/// A move of one piece from one square to another.
#[derive(PartialEq, Eq, Debug, Clone, Copy)]
pub struct NormalMove {
    pub from: Position,
    pub to: Position,
}

impl NormalMove {
    pub fn new(from: Position, to: Position) -> (m: Self)
        ensures
            m.from == from,
            m.to == to,
    {
        NormalMove { from, to }
    }
}

/// What a move does on the board.
#[derive(PartialEq, Eq, Debug, Clone, Copy)]
pub enum MoveType {
    /// One piece moves.
    Normal(NormalMove),
    /// A pawn moves two squares and leaves an en passant marker behind it.
    DoublePawn(NormalMove),
    /// The king move, then the rook move; castle markers are left on the squares the king crossed.
    Castle(NormalMove, NormalMove),
}

/// A move, and the square of the piece it captures, if any.
#[derive(PartialEq, Eq, Debug, Clone, Copy)]
pub struct Move {
    pub capture: Option<Position>,
    pub move_type: MoveType,
}

/// A move to be made. A move that is not real is only tried: it marks no piece
/// as having moved and is not shown. With `advance_move`, the markers it leaves
/// become the current ones.
#[derive(PartialEq, Eq, Debug, Clone, Copy)]
pub struct PieceMovedEvent {
    pub mmove: Move,
    pub is_real: bool,
    pub advance_move: bool,
}

impl PieceMovedEvent {
    pub fn new(mmove: Move, is_real: bool, advance_move: bool) -> (e: Self)
        ensures
            e.mmove == mmove,
            e.is_real == is_real,
            e.advance_move == advance_move,
    {
        PieceMovedEvent { mmove, is_real, advance_move }
    }
}

/// How strongly a move claims its target square: a move replaces another move
/// to the same square only when its priority is higher.
#[derive(PartialEq, Eq, Debug, Clone, Copy)]
pub enum MovePriority {
    NoMove,
    NoCapture,
    NormalCapture,
    MarkerCapture,
}

/// The priority of `mmove` as a move to `position`.
pub open spec fn spec_priority(position: Position, mmove: Option<Move>) -> MovePriority {
    match mmove {
        None => MovePriority::NoMove,
        Some(m) => match m.capture {
            None => MovePriority::NoCapture,
            Some(c) => if c == position {
                MovePriority::NormalCapture
            } else {
                MovePriority::MarkerCapture
            },
        },
    }
}

impl MovePriority {
    /// The rank of the priority: the variants in increasing order.
    pub open spec fn rank(self) -> int {
        match self {
            MovePriority::NoMove => 0,
            MovePriority::NoCapture => 1,
            MovePriority::NormalCapture => 2,
            MovePriority::MarkerCapture => 3,
        }
    }

    pub fn get_rank(&self) -> (r: u8)
        ensures
            r == self.rank(),
    {
        match self {
            MovePriority::NoMove => 0,
            MovePriority::NoCapture => 1,
            MovePriority::NormalCapture => 2,
            MovePriority::MarkerCapture => 3,
        }
    }

    pub fn get_priority(position: Position, mmove: Option<Move>) -> (p: MovePriority)
        ensures
            p == spec_priority(position, mmove),
    {
        match mmove {
            None => MovePriority::NoMove,
            Some(m) => match m.capture {
                None => MovePriority::NoCapture,
                Some(c) => if c == position {
                    MovePriority::NormalCapture
                } else {
                    MovePriority::MarkerCapture
                },
            },
        }
    }
}

/// The hash map of `bevy::platform::collections`, opaque to the proofs: what a
/// map holds is named by `move_map_contents` and `marker_map_contents`.
#[verifier::external_type_specification]
#[verifier::external_body]
#[verifier::reject_recursive_types(K)]
#[verifier::reject_recursive_types(V)]
#[verifier::reject_recursive_types(S)]
pub struct ExHashMap<K, V, S>(HashMap<K, V, S>);

/// The fixed hasher that `bevy::platform` maps use by default, opaque to the proofs.
#[verifier::external_type_specification]
#[verifier::external_body]
pub struct ExFixedHasher(FixedHasher);

/// A map from square keys to moves.
pub type MoveMap = HashMap<(isize, isize), Move>;

/// The contents of a move map: the move stored for each square key.
pub uninterp spec fn move_map_contents(m: MoveMap) -> Map<(isize, isize), Move>;

/// `bevy::platform::collections::HashMap::new`: claimed to hold no entry.
#[verifier::external_body]
fn move_map_new() -> (map: MoveMap)
    ensures
        move_map_contents(map) == no_moves(),
{
    HashMap::new()
}

/// `bevy::platform::collections::HashMap::insert`: claimed to map the key to the
/// value afterwards, every other key as before.
#[verifier::external_body]
fn move_map_insert(m: &mut MoveMap, k: (isize, isize), v: Move)
    ensures
        move_map_contents(*final(m)) == move_map_contents(*old(m)).insert(k, v),
{
    m.insert(k, v);
}

/// `bevy::platform::collections::HashMap::get`: claimed to give the value stored
/// for the key, or `None` when the key has no entry.
#[verifier::external_body]
fn move_map_get(m: &MoveMap, k: (isize, isize)) -> (r: Option<Move>)
    ensures
        r == map_get(move_map_contents(*m), k),
{
    m.get(&k).copied()
}

/// `bevy::platform::collections::HashMap::iter`, collected: claimed to list every
/// entry exactly once, in an order that nothing here promises.
#[verifier::external_body]
fn move_map_entries(m: &MoveMap) -> (r: Vec<((isize, isize), Move)>)
    ensures
        forall|i: int| #![trigger r@[i]] 0 <= i < r@.len() ==>
            move_map_contents(*m).contains_key(r@[i].0) && move_map_contents(*m)[r@[i].0] == r@[i].1,
        forall|k: (isize, isize)| #[trigger] move_map_contents(*m).contains_key(k) ==>
            exists|i: int| 0 <= i < r@.len() && r@[i].0 == k,
        forall|i: int, j: int| 0 <= i < j < r@.len() ==> r@[i].0 != r@[j].0,
{
    m.iter().map(|(k, v)| (*k, *v)).collect()
}

/// The map with no moves.
pub open spec fn no_moves() -> Map<(isize, isize), Move> {
    Map::empty()
}

/// The value of `m` at `k`, or `None`.
pub open spec fn map_get<K, V>(m: Map<K, V>, k: K) -> Option<V> {
    if m.contains_key(k) {
        Some(m[k])
    } else {
        None
    }
}

/// `m` after offering it the move `mv` to the square `p`: the move is stored
/// when its priority is higher than that of the move stored there.
pub open spec fn priority_insert(m: Map<(isize, isize), Move>, p: Position, mv: Move) -> Map<(isize, isize), Move> {
    if spec_priority(p, Some(mv)).rank() > spec_priority(p, map_get(m, p.key())).rank() {
        m.insert(p.key(), mv)
    } else {
        m
    }
}

/// `m` after offering it each candidate of `cands` in turn.
pub open spec fn insert_all(m: Map<(isize, isize), Move>, cands: Seq<(Position, Move)>) -> Map<(isize, isize), Move>
    decreases cands.len(),
{
    if cands.len() == 0 {
        m
    } else {
        priority_insert(insert_all(m, cands.drop_last()), cands.last().0, cands.last().1)
    }
}

/// Offering candidates one after another is offering their concatenation.
pub proof fn lemma_insert_all_concat(m: Map<(isize, isize), Move>, a: Seq<(Position, Move)>, b: Seq<(Position, Move)>)
    ensures
        insert_all(m, a + b) == insert_all(insert_all(m, a), b),
    decreases b.len(),
{
    if b.len() == 0 {
        assert(a + b =~= a);
    } else {
        assert((a + b).drop_last() =~= a + b.drop_last());
        lemma_insert_all_concat(m, a, b.drop_last());
    }
}

/// Offering a move keeps every square that had a move, leaves a move on the
/// offered square, changes no other square, and never lowers the priority kept
/// on the offered square: it ends with the higher of the two.
pub proof fn lemma_priority_insert_monotone(m: Map<(isize, isize), Move>, p: Position, mv: Move)
    ensures
        forall|k: (isize, isize)| #[trigger] m.contains_key(k) ==> priority_insert(m, p, mv).contains_key(k),
        priority_insert(m, p, mv).contains_key(p.key()),
        forall|k: (isize, isize)| k != p.key() ==> #[trigger] map_get(priority_insert(m, p, mv), k) == map_get(m, k),
        spec_priority(p, map_get(priority_insert(m, p, mv), p.key())).rank() >= spec_priority(p, Some(mv)).rank(),
        spec_priority(p, map_get(priority_insert(m, p, mv), p.key())).rank() >= spec_priority(p, map_get(m, p.key())).rank(),
        spec_priority(p, map_get(priority_insert(m, p, mv), p.key())) == spec_priority(p, Some(mv))
            || map_get(priority_insert(m, p, mv), p.key()) == map_get(m, p.key()),
{
}

/// The squares with a move after offering candidates: those that had one, and
/// the target square of each candidate.
pub proof fn lemma_insert_all_keys(m: Map<(isize, isize), Move>, cands: Seq<(Position, Move)>)
    ensures
        forall|k: (isize, isize)| #[trigger] insert_all(m, cands).contains_key(k) <==>
            (m.contains_key(k) || exists|j: int| 0 <= j < cands.len() && (#[trigger] cands[j]).0.key() == k),
    decreases cands.len(),
{
    if cands.len() > 0 {
        let pre = cands.drop_last();
        lemma_insert_all_keys(m, pre);
        lemma_priority_insert_monotone(insert_all(m, pre), cands.last().0, cands.last().1);
        assert forall|k: (isize, isize)| #[trigger] insert_all(m, cands).contains_key(k) <==>
            (m.contains_key(k) || exists|j: int| 0 <= j < cands.len() && (#[trigger] cands[j]).0.key() == k) by {
            if exists|j: int| 0 <= j < cands.len() && (#[trigger] cands[j]).0.key() == k {
                let j = choose|j: int| 0 <= j < cands.len() && (#[trigger] cands[j]).0.key() == k;
                if j < cands.len() - 1 {
                    assert(pre[j] == cands[j]);
                }
            }
            if exists|j: int| 0 <= j < pre.len() && (#[trigger] pre[j]).0.key() == k {
                let j = choose|j: int| 0 <= j < pre.len() && (#[trigger] pre[j]).0.key() == k;
                assert(cands[j] == pre[j]);
            }
            if insert_all(m, cands).contains_key(k) && k != cands.last().0.key() {
                assert(map_get(insert_all(m, cands), k) == map_get(insert_all(m, pre), k));
            }
        }
    }
}

/// Offering one more candidate after a sequence.
pub proof fn lemma_insert_all_push(m: Map<(isize, isize), Move>, a: Seq<(Position, Move)>, c: (Position, Move))
    ensures
        insert_all(m, a.push(c)) == priority_insert(insert_all(m, a), c.0, c.1),
{
    assert(a.push(c).drop_last() =~= a);
}

/// Offering no candidate leaves the map as it is.
pub proof fn lemma_insert_all_none(m: Map<(isize, isize), Move>)
    ensures
        insert_all(m, Seq::empty()) == m,
{
}

/// Offering one candidate.
pub proof fn lemma_insert_all_one(m: Map<(isize, isize), Move>, c: (Position, Move))
    ensures
        insert_all(m, seq![c]) == priority_insert(m, c.0, c.1),
        insert_all(m, Seq::empty()) == m,
{
    lemma_insert_all_push(m, Seq::empty(), c);
    assert(Seq::<(Position, Move)>::empty().push(c) =~= seq![c]);
}

/// The moves of one piece: the move kept for each target square, the black
/// circles shown for them, and whether new moves get a circle.
pub struct Moves {
    pub positions: MoveMap,
    pub black_circles: Vec<u64>,
    pub move_indicator: bool,
    pub capture_indicator: bool,
}

impl View for Moves {
    type V = Map<(isize, isize), Move>;

    open spec fn view(&self) -> Map<(isize, isize), Move> {
        move_map_contents(self.positions)
    }
}

impl Moves {
    /// No moves; new moves are shown with move and capture indicators.
    pub fn new() -> (m: Self)
        ensures
            m@ == no_moves(),
            m.black_circles@ == Seq::<u64>::empty(),
            m.move_indicator,
            m.capture_indicator,
    {
        Moves { positions: move_map_new(), black_circles: Vec::new(), move_indicator: true, capture_indicator: true }
    }

    /// No moves; new moves are not shown.
    pub fn new_no_move_indicators() -> (m: Self)
        ensures
            m@ == no_moves(),
            m.black_circles@ == Seq::<u64>::empty(),
            !m.move_indicator,
            !m.capture_indicator,
    {
        Moves { positions: move_map_new(), black_circles: Vec::new(), move_indicator: false, capture_indicator: false }
    }

    /// The move kept for the square `position`, if any.
    pub fn get(&self, position: Position) -> (r: Option<Move>)
        ensures
            r == map_get(self@, position.key()),
    {
        move_map_get(&self.positions, position.to_key())
    }

    pub fn contains_key(&self, position: Position) -> (r: bool)
        ensures
            r == self@.contains_key(position.key()),
    {
        move_map_get(&self.positions, position.to_key()).is_some()
    }

    /// The kept moves with their squares, in no promised order.
    pub fn entries(&self) -> (r: Vec<((isize, isize), Move)>)
        ensures
            forall|i: int| #![trigger r@[i]] 0 <= i < r@.len() ==>
                self@.contains_key(r@[i].0) && self@[r@[i].0] == r@[i].1,
            forall|k: (isize, isize)| #[trigger] self@.contains_key(k) ==>
                exists|i: int| 0 <= i < r@.len() && r@[i].0 == k,
            forall|i: int, j: int| 0 <= i < j < r@.len() ==> r@[i].0 != r@[j].0,
    {
        move_map_entries(&self.positions)
    }

    /// Offers `mmove` for the square `position`. It is kept when its priority
    /// is higher than that of the move kept there. The result says whether a
    /// black circle is to be shown for it, and which: `Some(true)` for a capture
    /// indicator, `Some(false)` for a move indicator.
    pub fn insert(&mut self, position: Position, mmove: Move) -> (circle: Option<bool>)
        ensures
            final(self)@ == priority_insert(old(self)@, position, mmove),
            final(self).black_circles == old(self).black_circles,
            final(self).move_indicator == old(self).move_indicator,
            final(self).capture_indicator == old(self).capture_indicator,
            circle == (if spec_priority(position, Some(mmove)).rank()
                > spec_priority(position, map_get(old(self)@, position.key())).rank() {
                if mmove.capture.is_some() {
                    if old(self).capture_indicator { Some(true) } else { None }
                } else {
                    if old(self).move_indicator { Some(false) } else { None }
                }
            } else {
                None
            }),
    {
        let current = move_map_get(&self.positions, position.to_key());
        let new_rank = MovePriority::get_priority(position, Some(mmove)).get_rank();
        let old_rank = MovePriority::get_priority(position, current).get_rank();
        if new_rank > old_rank {
            move_map_insert(&mut self.positions, position.to_key(), mmove);
            match mmove.capture {
                Some(_) => if self.capture_indicator { Some(true) } else { None },
                None => if self.move_indicator { Some(false) } else { None },
            }
        } else {
            None
        }
    }

    /// Records the entity of a black circle shown for these moves.
    pub fn push_black_circle(&mut self, circle: u64)
        ensures
            final(self)@ == old(self)@,
            final(self).black_circles@ == old(self).black_circles@.push(circle),
            final(self).move_indicator == old(self).move_indicator,
            final(self).capture_indicator == old(self).capture_indicator,
    {
        self.black_circles.push(circle);
    }
}

} // verus!
