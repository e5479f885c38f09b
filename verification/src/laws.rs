//! Laws of the board engine, stated over its specifications and proved
//! once and for all.

use vstd::prelude::*;

use crate::board::Board;
use crate::board::Spot;
use crate::board::in_start_zone;
use crate::board::is_fresh_board;
use crate::board::on_board;
use crate::board::setup_spot;
use crate::hex::HexCoord;
use crate::hex::is_neighbor;
use crate::moves::can_jump;
use crate::moves::jump_reachable;
use crate::moves::jump_step;
use crate::moves::legal_move;
use crate::side::SideOfStar;

verus! {

/// Every board has exactly the 121 star cells, whatever the player count
/// and however play has gone.
pub proof fn lemma_cell_count(b: Board)
    requires
        b.wf(),
    ensures
        b.cells().dom().finite(),
        b.cells().dom().len() == 121,
        forall|c: HexCoord| #[trigger] b.cells().contains_key(c) <==> on_board(c),
{
    b.lemma_dom();
}

/// Creation is deterministic: two boards made for the same player count
/// agree on cells, active sides and turn.
pub proof fn lemma_create_deterministic(b1: Board, b2: Board, players_count: int)
    requires
        is_fresh_board(b1, players_count),
        is_fresh_board(b2, players_count),
    ensures
        b1.cells() == b2.cells(),
        b1.sides() == b2.sides(),
        b1.turn == b2.turn,
{
    assert(b1.sides() =~= b2.sides());
    assert(b1.cells() =~= b2.cells());
}

/// A board's active sides are as many as its player list is long.
pub proof fn lemma_sides_count(b: Board)
    requires
        b.players_wf(),
    ensures
        b.sides().finite(),
        b.sides().len() == b.players@.len(),
{
    assert(b.players@.no_duplicates()) by {
        assert forall|i: int, j: int|
            0 <= i < b.players@.len() && 0 <= j < b.players@.len() && i != j implies b.players@[i]
            != b.players@[j] by {
            if i < j {
                assert(b.players@[i].ord() < b.players@[j].ord());
            } else {
                assert(b.players@[j].ord() < b.players@[i].ord());
            }
        }
    }
    b.players@.unique_seq_to_set();
}

/// No move is legal from an absent or empty start, nor onto an absent or
/// occupied end.
pub proof fn lemma_illegal_move(m: Map<HexCoord, Spot>, start: HexCoord, end: HexCoord)
    ensures
        !m.contains_key(start) ==> !legal_move(m, start, end),
        !m.contains_key(end) ==> !legal_move(m, start, end),
        m.contains_key(start) && m[start] is Empty ==> !legal_move(m, start, end),
        m.contains_key(end) && m[end] is Player ==> !legal_move(m, start, end),
{
}

/// A shift from an occupied cell to an adjacent empty cell is always
/// legal.
pub proof fn lemma_shift_legal(m: Map<HexCoord, Spot>, start: HexCoord, end: HexCoord)
    requires
        m.contains_key(start),
        m.contains_key(end),
        m[start] is Player,
        m[end] is Empty,
        is_neighbor(start, end),
    ensures
        legal_move(m, start, end),
{
}

/// A single jump from an occupied cell is a legal move.
pub proof fn lemma_single_jump_legal(m: Map<HexCoord, Spot>, start: HexCoord, end: HexCoord)
    requires
        m.contains_key(start),
        m[start] is Player,
        can_jump(m, start, end),
    ensures
        legal_move(m, start, end),
{
    let mid = choose|mid: HexCoord| #[trigger] jump_step(m, start, mid, end);
    crate::moves::lemma_jump_once(m, start, end);
}

/// A chain of jumps of any length from an occupied cell is one legal
/// move.
pub proof fn lemma_jump_chain_legal(m: Map<HexCoord, Spot>, start: HexCoord, end: HexCoord)
    requires
        m.contains_key(start),
        m[start] is Player,
        jump_reachable(m, start, end),
    ensures
        legal_move(m, start, end),
{
    let p = choose|p: Seq<HexCoord>|
        p.len() >= 2 && p[0] == start && p.last() == end && #[trigger] crate::moves::jump_path_ok(
            m,
            p,
        );
    assert(can_jump(m, p[p.len() - 2], p[p.len() - 1]));
    let mid = choose|mid: HexCoord| #[trigger] jump_step(m, p[p.len() - 2], mid, end);
}

/// Setup is idempotent: a second pass with the same active sides leaves
/// every cell as the first pass left it.
pub proof fn lemma_setup_idempotent(sides: Set<SideOfStar>, prev: Spot, c: HexCoord)
    ensures
        setup_spot(sides, setup_spot(sides, prev, c), c) == setup_spot(sides, prev, c),
{
}

/// Toggling a side off and rerunning setup clears exactly that side's
/// starting cells and leaves every other cell as it was.
pub proof fn lemma_toggle_off(sides: Set<SideOfStar>, s: SideOfStar, prev: Spot, c: HexCoord)
    requires
        sides.contains(s),
    ensures
        in_start_zone(s, c) ==> setup_spot(sides.remove(s), setup_spot(sides, prev, c), c)
            == Spot::Empty,
        !in_start_zone(s, c) ==> setup_spot(sides.remove(s), setup_spot(sides, prev, c), c)
            == setup_spot(sides, prev, c),
{
}

} // verus!
