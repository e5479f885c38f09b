//! The star-shaped board: its fixed cell set, occupancy, active sides and
//! turn state.

use vstd::prelude::*;

use crate::hex::HexCoord;
use crate::hex::in_tip_down;
use crate::hex::in_tip_up;
use crate::side::Player;
use crate::side::SideOfStar;

verus! {

/// The content of one board cell.
#[derive(Debug, Clone, Copy, PartialEq, Eq, Structural)]
pub enum Spot {
    Empty,
    Player(Player),
}

impl Spot {
    pub fn is_empty(self) -> (r: bool)
        ensures
            r == (self is Empty),
    {
        match self {
            Self::Empty => true,
            Self::Player(_) => false,
        }
    }

    pub fn is_full(self) -> (r: bool)
        ensures
            r == (self is Player),
    {
        !self.is_empty()
    }
}

impl PartialEq<Player> for Spot {
    fn eq(&self, other: &Player) -> (r: bool)
        ensures
            r == (*self == Spot::Player(*other)),
    {
        match self {
            Self::Player(player) => *player == *other,
            _ => false,
        }
    }
}

impl vstd::std_specs::cmp::PartialEqSpecImpl<Player> for Spot {
    open spec fn obeys_eq_spec() -> bool {
        true
    }

    open spec fn eq_spec(&self, other: &Player) -> bool {
        *self == Spot::Player(*other)
    }
}

impl PartialEq<Spot> for Player {
    fn eq(&self, other: &Spot) -> (r: bool)
        ensures
            r == (*other == Spot::Player(*self)),
    {
        match other {
            Spot::Player(player) => *player == *self,
            _ => false,
        }
    }
}

impl vstd::std_specs::cmp::PartialEqSpecImpl<Spot> for Player {
    open spec fn obeys_eq_spec() -> bool {
        true
    }

    open spec fn eq_spec(&self, other: &Spot) -> bool {
        *other == Spot::Player(*self)
    }
}

impl Default for Spot {
    fn default() -> (r: Self)
        ensures
            r == Spot::Empty,
    {
        Self::Empty
    }
}

/// Tip cell of the starting zone of side `s`.
pub open spec fn side_root(s: SideOfStar) -> HexCoord {
    match s {
        SideOfStar::A => HexCoord { horz: 4i32, slant: -8i32 },
        SideOfStar::B => HexCoord { horz: 5i32, slant: -1i32 },
        SideOfStar::C => HexCoord { horz: 4i32, slant: 1i32 },
        SideOfStar::D => HexCoord { horz: -4i32, slant: 8i32 },
        SideOfStar::E => HexCoord { horz: -5i32, slant: 1i32 },
        SideOfStar::F => HexCoord { horz: -4i32, slant: -1i32 },
    }
}

/// Whether the starting zone of side `s` is a tip-up triangle (it is
/// tip-down for the other three sides).
pub open spec fn side_tip_up(s: SideOfStar) -> bool {
    match s {
        SideOfStar::A | SideOfStar::C | SideOfStar::E => true,
        SideOfStar::B | SideOfStar::D | SideOfStar::F => false,
    }
}

/// The ten cells of the starting zone of side `s`.
pub open spec fn in_start_zone(s: SideOfStar, c: HexCoord) -> bool {
    if side_tip_up(s) {
        in_tip_up(side_root(s), 4, c)
    } else {
        in_tip_down(side_root(s), 4, c)
    }
}

/// The 121 playable cells: the 91-cell central triangle plus the three
/// tip-down points that fall outside it.
pub open spec fn on_board(c: HexCoord) -> bool {
    ||| in_tip_up(side_root(SideOfStar::A), 13, c)
    ||| in_tip_down(side_root(SideOfStar::B), 4, c)
    ||| in_tip_down(side_root(SideOfStar::D), 4, c)
    ||| in_tip_down(side_root(SideOfStar::F), 4, c)
}

/// The cell map held by an association list: later entries win, though the
/// board keeps its keys distinct.
pub open spec fn map_of(s: Seq<(HexCoord, Spot)>) -> Map<HexCoord, Spot>
    decreases s.len(),
{
    if s.len() == 0 {
        Map::empty()
    } else {
        map_of(s.drop_last()).insert(s.last().0, s.last().1)
    }
}

/// No coordinate occurs twice among the keys of the association list.
pub open spec fn keys_distinct(s: Seq<(HexCoord, Spot)>) -> bool {
    forall|i: int, j: int| 0 <= i < j < s.len() ==> (#[trigger] s[i]).0 != (#[trigger] s[j]).0
}

/// Some entry of the association list has key `c`.
pub open spec fn has_key(s: Seq<(HexCoord, Spot)>, c: HexCoord) -> bool {
    exists|i: int| 0 <= i < s.len() && (#[trigger] s[i]).0 == c
}

/// The map holds exactly the keys that occur in the list.
pub proof fn lemma_map_of_contains(s: Seq<(HexCoord, Spot)>)
    ensures
        forall|c: HexCoord| #[trigger] map_of(s).contains_key(c) <==> has_key(s, c),
    decreases s.len(),
{
    if s.len() > 0 {
        lemma_map_of_contains(s.drop_last());
        assert forall|c: HexCoord| #[trigger] map_of(s).contains_key(c) implies has_key(s, c) by {
            if c == s.last().0 {
                assert((s[s.len() - 1]).0 == c);
            } else {
                assert(map_of(s.drop_last()).contains_key(c));
                assert(has_key(s.drop_last(), c));
                let i = choose|i: int|
                    0 <= i < s.drop_last().len() && (#[trigger] s.drop_last()[i]).0 == c;
                assert((s[i]).0 == c);
            }
        }
        assert forall|c: HexCoord| has_key(s, c) implies #[trigger] map_of(s).contains_key(c) by {
            let i = choose|i: int| 0 <= i < s.len() && (#[trigger] s[i]).0 == c;
            if i < s.len() - 1 {
                assert((s.drop_last()[i]).0 == c);
                assert(has_key(s.drop_last(), c));
                assert(map_of(s.drop_last()).contains_key(c));
            }
        }
    }
}

/// With distinct keys, the map sends each listed key to its listed value.
pub proof fn lemma_map_of_index(s: Seq<(HexCoord, Spot)>, i: int)
    requires
        keys_distinct(s),
        0 <= i < s.len(),
    ensures
        map_of(s).contains_key((s[i]).0),
        map_of(s)[(s[i]).0] == (s[i]).1,
    decreases s.len(),
{
    if i < s.len() - 1 {
        assert(keys_distinct(s.drop_last()));
        assert((s.drop_last()[i]).0 == (s[i]).0);
        lemma_map_of_index(s.drop_last(), i);
        assert((s[s.len() - 1]).0 != (s[i]).0);
    }
}

/// Updating the value at index `i` updates the map at that entry's key.
pub proof fn lemma_map_of_update(s: Seq<(HexCoord, Spot)>, i: int, v: Spot)
    requires
        keys_distinct(s),
        0 <= i < s.len(),
    ensures
        map_of(s.update(i, ((s[i]).0, v))) =~= map_of(s).insert((s[i]).0, v),
    decreases s.len(),
{
    let t = s.update(i, ((s[i]).0, v));
    assert(t.len() == s.len());
    if i == s.len() - 1 {
        assert(t.drop_last() =~= s.drop_last());
        assert(t.last() == ((s[i]).0, v));
    } else {
        assert(keys_distinct(s.drop_last()));
        assert((s.drop_last()[i]).0 == (s[i]).0);
        lemma_map_of_update(s.drop_last(), i, v);
        assert(t.drop_last() =~= s.drop_last().update(i, ((s[i]).0, v)));
        assert(t.last() == s.last());
        assert((s[i]).0 != (s[s.len() - 1]).0);
    }
}

/// With distinct keys, the map's domain is finite with one member per entry.
pub proof fn lemma_map_of_dom_len(s: Seq<(HexCoord, Spot)>)
    requires
        keys_distinct(s),
    ensures
        map_of(s).dom().finite(),
        map_of(s).dom().len() == s.len(),
    decreases s.len(),
{
    if s.len() > 0 {
        assert(keys_distinct(s.drop_last()));
        lemma_map_of_dom_len(s.drop_last());
        lemma_map_of_contains(s.drop_last());
        assert(!map_of(s.drop_last()).contains_key(s.last().0)) by {
            if has_key(s.drop_last(), s.last().0) {
                let i = choose|i: int|
                    0 <= i < s.drop_last().len() && (#[trigger] s.drop_last()[i]).0 == s.last().0;
                assert((s[i]).0 == (s[s.len() - 1]).0);
            }
        }
        assert(map_of(s).dom() =~= map_of(s.drop_last()).dom().insert(s.last().0));
    }
}

/// Appends one entry per coordinate, all empty, preserving what is there.
fn push_empty_cells(r: &mut Vec<(HexCoord, Spot)>, coords: &Vec<HexCoord>)
    ensures
        final(r)@.len() == old(r)@.len() + coords@.len(),
        forall|i: int| 0 <= i < old(r)@.len() ==> final(r)@[i] == old(r)@[i],
        forall|i: int|
            0 <= i < coords@.len() ==> final(r)@[old(r)@.len() + i] == (coords@[i], Spot::Empty),
{
    let ghost base = r@.len();
    let mut idx: usize = 0;
    while idx < coords.len()
        invariant
            0 <= idx <= coords@.len(),
            r@.len() == base + idx,
            forall|i: int| 0 <= i < base ==> r@[i] == old(r)@[i],
            forall|i: int| 0 <= i < idx ==> r@[base + i] == (coords@[i], Spot::Empty),
        decreases coords@.len() - idx,
    {
        r.push((coords[idx], Spot::Empty));
        idx = idx + 1;
    }
}

/// The 121 board cells, all empty: one entry per coordinate of `on_board`,
/// with distinct keys.
pub fn gen_board() -> (r: Vec<(HexCoord, Spot)>)
    ensures
        r@.len() == 121,
        keys_distinct(r@),
        forall|i: int| 0 <= i < r@.len() ==> on_board((#[trigger] r@[i]).0) && (r@[i]).1 == Spot::Empty,
        forall|c: HexCoord| #[trigger] on_board(c) ==> has_key(r@, c),
{
    let big = HexCoord::new(4, -8).triangle_tip_up(13);
    let tri_f = HexCoord::new(-4, -1).triangle_tip_down(4);
    let tri_b = HexCoord::new(5, -1).triangle_tip_down(4);
    let tri_d = HexCoord::new(-4, 8).triangle_tip_down(4);
    let mut r: Vec<(HexCoord, Spot)> = Vec::new();
    push_empty_cells(&mut r, &big);
    push_empty_cells(&mut r, &tri_f);
    push_empty_cells(&mut r, &tri_b);
    push_empty_cells(&mut r, &tri_d);
    proof {
        assert(r@.len() == 121);
        assert forall|i: int|
            0 <= i < r@.len() implies on_board((#[trigger] r@[i]).0) && (r@[i]).1 == Spot::Empty by {
            if i < 91 {
                assert(r@[i] == (big@[i], Spot::Empty));
            } else if i < 101 {
                assert(r@[i] == (tri_f@[i - 91], Spot::Empty));
            } else if i < 111 {
                assert(r@[i] == (tri_b@[i - 101], Spot::Empty));
            } else {
                assert(r@[i] == (tri_d@[i - 111], Spot::Empty));
            }
        }
        assert forall|i: int, j: int|
            0 <= i < j < r@.len() implies (#[trigger] r@[i]).0 != (#[trigger] r@[j]).0 by {
            if i < 91 {
                assert(r@[i] == (big@[i], Spot::Empty));
                assert(in_tip_up(side_root(SideOfStar::A), 13, big@[i]));
            } else if i < 101 {
                assert(r@[i] == (tri_f@[i - 91], Spot::Empty));
                assert(in_tip_down(side_root(SideOfStar::F), 4, tri_f@[i - 91]));
            } else if i < 111 {
                assert(r@[i] == (tri_b@[i - 101], Spot::Empty));
                assert(in_tip_down(side_root(SideOfStar::B), 4, tri_b@[i - 101]));
            } else {
                assert(r@[i] == (tri_d@[i - 111], Spot::Empty));
                assert(in_tip_down(side_root(SideOfStar::D), 4, tri_d@[i - 111]));
            }
            if j < 91 {
                assert(r@[j] == (big@[j], Spot::Empty));
                assert(in_tip_up(side_root(SideOfStar::A), 13, big@[j]));
            } else if j < 101 {
                assert(r@[j] == (tri_f@[j - 91], Spot::Empty));
                assert(in_tip_down(side_root(SideOfStar::F), 4, tri_f@[j - 91]));
            } else if j < 111 {
                assert(r@[j] == (tri_b@[j - 101], Spot::Empty));
                assert(in_tip_down(side_root(SideOfStar::B), 4, tri_b@[j - 101]));
            } else {
                assert(r@[j] == (tri_d@[j - 111], Spot::Empty));
                assert(in_tip_down(side_root(SideOfStar::D), 4, tri_d@[j - 111]));
            }
            if j < 91 {
                assert(big@[i] != big@[j]);
            } else if 91 <= i && j < 101 {
                assert(tri_f@[i - 91] != tri_f@[j - 91]);
            } else if 101 <= i && j < 111 {
                assert(tri_b@[i - 101] != tri_b@[j - 101]);
            } else if 111 <= i {
                assert(tri_d@[i - 111] != tri_d@[j - 111]);
            }
        }
        assert forall|c: HexCoord| #[trigger] on_board(c) implies has_key(r@, c) by {
            if in_tip_up(side_root(SideOfStar::A), 13, c) {
                let i = choose|i: int| 0 <= i < big@.len() && big@[i] == c;
                assert((r@[i]).0 == c);
            } else if in_tip_down(side_root(SideOfStar::F), 4, c) {
                assert(tri_f@.contains(c));
                let i = choose|i: int| 0 <= i < tri_f@.len() && tri_f@[i] == c;
                assert((r@[91 + i]).0 == c);
            } else if in_tip_down(side_root(SideOfStar::B), 4, c) {
                assert(tri_b@.contains(c));
                let i = choose|i: int| 0 <= i < tri_b@.len() && tri_b@[i] == c;
                assert((r@[101 + i]).0 == c);
            } else {
                assert(tri_d@.contains(c));
                let i = choose|i: int| 0 <= i < tri_d@.len() && tri_d@[i] == c;
                assert((r@[111 + i]).0 == c);
            }
        }
    }
    r
}

/// The canonical active-side set for a requested player count. Any count
/// outside {2, 3, 4, 6} falls back to the two-player pair.
pub open spec fn canonical_players(count: int) -> Seq<SideOfStar> {
    if count == 3 {
        seq![SideOfStar::A, SideOfStar::C, SideOfStar::E]
    } else if count == 4 {
        seq![SideOfStar::A, SideOfStar::B, SideOfStar::D, SideOfStar::E]
    } else if count == 6 {
        SideOfStar::all_sides()
    } else {
        seq![SideOfStar::A, SideOfStar::D]
    }
}

/// The canonical active sides for `players_count`, in ordinal order.
pub fn gen_players(players_count: usize) -> (r: Vec<Player>)
    ensures
        r@ == canonical_players(players_count as int),
{
    let mut v: Vec<Player> = Vec::new();
    if players_count == 3 {
        v.push(SideOfStar::A);
        v.push(SideOfStar::C);
        v.push(SideOfStar::E);
    } else if players_count == 4 {
        v.push(SideOfStar::A);
        v.push(SideOfStar::B);
        v.push(SideOfStar::D);
        v.push(SideOfStar::E);
    } else if players_count == 6 {
        v.push(SideOfStar::A);
        v.push(SideOfStar::B);
        v.push(SideOfStar::C);
        v.push(SideOfStar::D);
        v.push(SideOfStar::E);
        v.push(SideOfStar::F);
    } else {
        v.push(SideOfStar::A);
        v.push(SideOfStar::D);
    }
    proof {
        assert(v@ =~= canonical_players(players_count as int));
    }
    v
}

/// Two association lists with pointwise equal keys list the same key set,
/// and distinctness of keys carries over.
pub proof fn lemma_same_keys(s1: Seq<(HexCoord, Spot)>, s2: Seq<(HexCoord, Spot)>)
    requires
        s1.len() == s2.len(),
        forall|i: int| 0 <= i < s1.len() ==> (#[trigger] s1[i]).0 == (#[trigger] s2[i]).0,
    ensures
        forall|c: HexCoord| has_key(s1, c) <==> has_key(s2, c),
        keys_distinct(s1) <==> keys_distinct(s2),
{
    assert forall|c: HexCoord| has_key(s1, c) implies has_key(s2, c) by {
        let i = choose|i: int| 0 <= i < s1.len() && (#[trigger] s1[i]).0 == c;
        assert((s2[i]).0 == c);
    }
    assert forall|c: HexCoord| has_key(s2, c) implies has_key(s1, c) by {
        let i = choose|i: int| 0 <= i < s2.len() && (#[trigger] s2[i]).0 == c;
        assert((s1[i]).0 == c);
    }
    if keys_distinct(s1) {
        assert forall|i: int, j: int|
            0 <= i < j < s2.len() implies (#[trigger] s2[i]).0 != (#[trigger] s2[j]).0 by {
            assert((s1[i]).0 != (s1[j]).0);
        }
    }
    if keys_distinct(s2) {
        assert forall|i: int, j: int|
            0 <= i < j < s1.len() implies (#[trigger] s1[i]).0 != (#[trigger] s1[j]).0 by {
            assert((s2[i]).0 != (s2[j]).0);
        }
    }
}

/// The central aggregate: the fixed cell set with its occupancy, the active
/// sides, and whose turn it is.
#[derive(Debug, Clone, PartialEq)]
pub struct Board {
    /// the cells: 121 fixed coordinates, each with its occupancy
    pub board: Vec<(HexCoord, Spot)>,
    /// the sides currently in play, in ascending ordinal order
    pub players: Vec<Player>,
    /// the side whose move is next
    pub turn: Player,
}

impl Board {
    /// The occupancy map over the fixed cell set.
    pub open spec fn cells(self) -> Map<HexCoord, Spot> {
        map_of(self.board@)
    }

    /// The set of active sides.
    pub open spec fn sides(self) -> Set<SideOfStar> {
        self.players@.to_set()
    }

    /// The cell list holds exactly the 121 board coordinates, each once.
    pub open spec fn cells_wf(self) -> bool {
        &&& self.board@.len() == 121
        &&& keys_distinct(self.board@)
        &&& forall|i: int| 0 <= i < self.board@.len() ==> on_board((#[trigger] self.board@[i]).0)
        &&& forall|c: HexCoord| #[trigger] on_board(c) ==> has_key(self.board@, c)
    }

    /// The active-side list is strictly ascending by ordinal (so each side
    /// occurs at most once).
    pub open spec fn players_wf(self) -> bool {
        forall|i: int, j: int|
            0 <= i < j < self.players@.len() ==> (#[trigger] self.players@[i]).ord() < (
            #[trigger] self.players@[j]).ord()
    }

    pub open spec fn wf(self) -> bool {
        self.cells_wf() && self.players_wf()
    }

    /// A well-formed board's map holds exactly the coordinates of
    /// `on_board`: 121 of them.
    pub proof fn lemma_dom(self)
        requires
            self.cells_wf(),
        ensures
            forall|c: HexCoord| #[trigger] self.cells().contains_key(c) <==> on_board(c),
            self.cells().dom().finite(),
            self.cells().dom().len() == 121,
    {
        lemma_map_of_contains(self.board@);
        lemma_map_of_dom_len(self.board@);
        assert forall|c: HexCoord| #[trigger] self.cells().contains_key(c) implies on_board(c) by {
            let i = choose|i: int| 0 <= i < self.board@.len() && (#[trigger] self.board@[i]).0 == c;
            assert(on_board((self.board@[i]).0));
        }
    }

    /// Index of the entry for `coord`, if the coordinate is on the board.
    fn cell_index(&self, coord: HexCoord) -> (r: Option<usize>)
        ensures
            match r {
                Some(i) => i < self.board@.len() && (self.board@[i as int]).0 == coord,
                None => !has_key(self.board@, coord),
            },
    {
        let mut i: usize = 0;
        while i < self.board.len()
            invariant
                i <= self.board@.len(),
                forall|j: int| 0 <= j < i ==> (#[trigger] self.board@[j]).0 != coord,
            decreases self.board@.len() - i,
        {
            if self.board[i].0 == coord {
                return Some(i);
            }
            i = i + 1;
        }
        None
    }

    /// The cell state at `coord`, or `None` if the coordinate is off the
    /// board.
    pub fn get(&self, coord: &HexCoord) -> (r: Option<&Spot>)
        requires
            self.wf(),
        ensures
            r is Some <==> self.cells().contains_key(*coord),
            r matches Some(s) ==> self.cells()[*coord] == *s,
    {
        proof {
            lemma_map_of_contains(self.board@);
        }
        match self.cell_index(*coord) {
            Some(i) => {
                proof {
                    lemma_map_of_index(self.board@, i as int);
                }
                Some(&self.board[i].1)
            },
            None => None,
        }
    }

    /// Whether `coord` is one of the 121 playable cells.
    pub fn is_valid(&self, coord: HexCoord) -> (r: bool)
        requires
            self.wf(),
        ensures
            r == self.cells().contains_key(coord),
    {
        proof {
            lemma_map_of_contains(self.board@);
        }
        self.cell_index(coord).is_some()
    }

    /// Writes `Occupied(player)` at `coord`; a coordinate off the board is
    /// left alone.
    pub fn put_player(&mut self, coord: HexCoord, player: Player)
        requires
            old(self).wf(),
        ensures
            final(self).wf(),
            final(self).players == old(self).players,
            final(self).turn == old(self).turn,
            old(self).cells().contains_key(coord) ==> final(self).cells() == old(self).cells().insert(coord, Spot::Player(player)),
            !old(self).cells().contains_key(coord) ==> *final(self) == *old(self),
    {
        self.write_cell(coord, Spot::Player(player));
    }

    /// Writes `Empty` at `coord`; a coordinate off the board is left alone.
    pub fn remove_player(&mut self, coord: HexCoord)
        requires
            old(self).wf(),
        ensures
            final(self).wf(),
            final(self).players == old(self).players,
            final(self).turn == old(self).turn,
            old(self).cells().contains_key(coord) ==> final(self).cells() == old(self).cells().insert(coord, Spot::Empty),
            !old(self).cells().contains_key(coord) ==> *final(self) == *old(self),
    {
        self.write_cell(coord, Spot::Empty);
    }

    /// Writes `spot` at `coord` if the coordinate is on the board.
    fn write_cell(&mut self, coord: HexCoord, spot: Spot)
        requires
            old(self).wf(),
        ensures
            final(self).wf(),
            final(self).players == old(self).players,
            final(self).turn == old(self).turn,
            old(self).cells().contains_key(coord) ==> final(self).cells() == old(self).cells().insert(coord, spot),
            !old(self).cells().contains_key(coord) ==> *final(self) == *old(self),
    {
        proof {
            lemma_map_of_contains(self.board@);
        }
        match self.cell_index(coord) {
            Some(i) => {
                proof {
                    lemma_map_of_update(self.board@, i as int, spot);
                }
                let ghost before = self.board@;
                self.board.set(i, (coord, spot));
                proof {
                    assert(self.board@ =~= before.update(i as int, ((before[i as int]).0, spot)));
                    lemma_same_keys(before, self.board@);
                }
            },
            None => {},
        }
    }

    /// Swaps the contents of two cells; if either coordinate is off the
    /// board, nothing changes.
    pub fn swap(&mut self, coord1: HexCoord, coord2: HexCoord)
        requires
            old(self).wf(),
        ensures
            final(self).wf(),
            final(self).players == old(self).players,
            final(self).turn == old(self).turn,
            old(self).cells().contains_key(coord1) && old(self).cells().contains_key(coord2)
                ==> final(self).cells() == old(self).cells().insert(
                coord1,
                old(self).cells()[coord2],
            ).insert(coord2, old(self).cells()[coord1]),
            !(old(self).cells().contains_key(coord1) && old(self).cells().contains_key(coord2))
                ==> *final(self) == *old(self),
    {
        proof {
            lemma_map_of_contains(self.board@);
        }
        let idx1 = self.cell_index(coord1);
        let idx2 = self.cell_index(coord2);
        match (idx1, idx2) {
            (Some(i), Some(j)) => {
                let spot1 = self.board[i].1;
                let spot2 = self.board[j].1;
                proof {
                    lemma_map_of_index(self.board@, i as int);
                    lemma_map_of_index(self.board@, j as int);
                    lemma_map_of_update(self.board@, i as int, spot2);
                }
                let ghost before = self.board@;
                self.board.set(i, (coord1, spot2));
                proof {
                    assert(self.board@ =~= before.update(i as int, ((before[i as int]).0, spot2)));
                    lemma_same_keys(before, self.board@);
                    assert((self.board@[j as int]).0 == coord2);
                    lemma_map_of_update(self.board@, j as int, spot1);
                }
                let ghost middle = self.board@;
                self.board.set(j, (coord2, spot1));
                proof {
                    assert(self.board@ =~= middle.update(j as int, ((middle[j as int]).0, spot1)));
                    lemma_same_keys(middle, self.board@);
                    assert(self.cells() =~= old(self).cells().insert(
                        coord1,
                        old(self).cells()[coord2],
                    ).insert(coord2, old(self).cells()[coord1]));
                }
            },
            _ => {},
        }
    }

    /// Whether `side` is currently active.
    pub fn contains_side(&self, side: SideOfStar) -> (r: bool)
        ensures
            r == self.sides().contains(side),
    {
        let mut i: usize = 0;
        while i < self.players.len()
            invariant
                i <= self.players@.len(),
                forall|j: int| 0 <= j < i ==> self.players@[j] != side,
            decreases self.players@.len() - i,
        {
            if self.players[i] == side {
                proof {
                    assert(self.players@.contains(side));
                }
                return true;
            }
            i = i + 1;
        }
        proof {
            assert(!self.players@.contains(side));
        }
        false
    }
}


/// What a side's starting zone holds after setup: seeded when active,
/// cleared when not.
pub open spec fn zone_spot(sides: Set<SideOfStar>, s: SideOfStar) -> Spot {
    if sides.contains(s) {
        Spot::Player(s)
    } else {
        Spot::Empty
    }
}

/// The spot at `c` once the sides with ordinal below `n` have been
/// (re)seeded over a previous spot `prev`.
pub open spec fn setup_spot_upto(sides: Set<SideOfStar>, prev: Spot, c: HexCoord, n: int) -> Spot {
    if n >= 1 && in_start_zone(SideOfStar::A, c) {
        zone_spot(sides, SideOfStar::A)
    } else if n >= 2 && in_start_zone(SideOfStar::B, c) {
        zone_spot(sides, SideOfStar::B)
    } else if n >= 3 && in_start_zone(SideOfStar::C, c) {
        zone_spot(sides, SideOfStar::C)
    } else if n >= 4 && in_start_zone(SideOfStar::D, c) {
        zone_spot(sides, SideOfStar::D)
    } else if n >= 5 && in_start_zone(SideOfStar::E, c) {
        zone_spot(sides, SideOfStar::E)
    } else if n >= 6 && in_start_zone(SideOfStar::F, c) {
        zone_spot(sides, SideOfStar::F)
    } else {
        prev
    }
}

/// The spot at `c` after a full setup pass: seeded for the active side
/// whose zone holds `c`, cleared in an inactive side's zone, and otherwise
/// the previous spot.
pub open spec fn setup_spot(sides: Set<SideOfStar>, prev: Spot, c: HexCoord) -> Spot {
    setup_spot_upto(sides, prev, c, 6)
}

/// Every starting-zone cell is a playable board cell.
pub proof fn lemma_zone_on_board(s: SideOfStar, c: HexCoord)
    ensures
        in_start_zone(s, c) ==> on_board(c),
{
}

/// The ten coordinates of the starting zone of `side`: exactly the members
/// of `in_start_zone`, without duplicates.
pub fn start_zone_coords(side: SideOfStar) -> (r: Vec<HexCoord>)
    ensures
        r@.len() == 10,
        r@.no_duplicates(),
        forall|i: int| 0 <= i < r@.len() ==> in_start_zone(side, #[trigger] r@[i]),
        forall|c: HexCoord| #[trigger] in_start_zone(side, c) ==> r@.contains(c),
{
    match side {
        SideOfStar::A => HexCoord::new(4, -8).triangle_tip_up(4),
        SideOfStar::B => HexCoord::new(5, -1).triangle_tip_down(4),
        SideOfStar::C => HexCoord::new(4, 1).triangle_tip_up(4),
        SideOfStar::D => HexCoord::new(-4, 8).triangle_tip_down(4),
        SideOfStar::E => HexCoord::new(-5, 1).triangle_tip_up(4),
        SideOfStar::F => HexCoord::new(-4, -1).triangle_tip_down(4),
    }
}

/// What a fresh board for `players_count` players looks like: the board
/// cells are exactly the 121 star coordinates, the canonical sides are
/// active, every cell holds its setup spot, and side `A` begins.
pub open spec fn is_fresh_board(b: Board, players_count: int) -> bool {
    &&& b.wf()
    &&& b.players@ == canonical_players(players_count)
    &&& b.turn == SideOfStar::A
    &&& forall|c: HexCoord| #[trigger] b.cells().contains_key(c) <==> on_board(c)
    &&& forall|c: HexCoord| #[trigger] b.cells().contains_key(c) ==> b.cells()[c] == setup_spot(
        b.sides(),
        Spot::Empty,
        c,
    )
}

impl Board {
    /// Reseeds every side's starting zone (writing pieces for active sides,
    /// clearing the zones of inactive ones) and hands the turn to the
    /// active side with the lowest ordinal.
    pub fn setup_players(&mut self)
        requires
            old(self).wf(),
            old(self).players@.len() >= 1,
        ensures
            final(self).wf(),
            final(self).players == old(self).players,
            forall|c: HexCoord| #[trigger] final(self).cells().contains_key(c) <==> old(self).cells().contains_key(c),
            forall|c: HexCoord| #[trigger] final(self).cells().contains_key(c) ==> final(self).cells()[c] == setup_spot(final(self).sides(), old(self).cells()[c], c),
            final(self).turn == final(self).players@[0],
            final(self).sides().contains(final(self).turn),
            forall|s: SideOfStar| #[trigger] final(self).sides().contains(s) ==> final(self).turn.ord() <= s.ord(),
    {
        let all = Player::all();
        let ghost sides = old(self).sides();
        let ghost orig = old(self).cells();
        let mut si: usize = 0;
        while si < 6
            invariant
                0 <= si <= 6,
                self.wf(),
                all@ == SideOfStar::all_sides(),
                self.players == old(self).players,
                self.turn == old(self).turn,
                sides == self.sides(),
                forall|c: HexCoord| #[trigger] self.cells().contains_key(c) <==> orig.contains_key(
                    c,
                ),
                forall|c: HexCoord| #[trigger] self.cells().contains_key(c) ==> self.cells()[c]
                    == setup_spot_upto(sides, orig[c], c, si as int),
            decreases 6 - si,
        {
            let player = all[si];
            let active = self.contains_side(player);
            let tips = start_zone_coords(player);
            let ghost cur = self.cells();
            let mut ti: usize = 0;
            while ti < tips.len()
                invariant
                    0 <= ti <= tips@.len(),
                    self.wf(),
                    tips@.len() == 10,
                    self.players == old(self).players,
                    self.turn == old(self).turn,
                    sides == self.sides(),
                    active == sides.contains(player),
                    forall|i: int| 0 <= i < tips@.len() ==> in_start_zone(
                        player,
                        #[trigger] tips@[i],
                    ),
                    forall|c: HexCoord| #[trigger] in_start_zone(player, c) ==> tips@.contains(c),
                    forall|c: HexCoord| #[trigger] self.cells().contains_key(c)
                        <==> cur.contains_key(c),
                    forall|c: HexCoord| #[trigger] self.cells().contains_key(c) ==> self.cells()[c]
                        == (if in_start_zone(player, c) && tips@.take(ti as int).contains(c) {
                        zone_spot(sides, player)
                    } else {
                        cur[c]
                    }),
                decreases tips@.len() - ti,
            {
                let coord = tips[ti];
                proof {
                    lemma_zone_on_board(player, coord);
                    self.lemma_dom();
                    assert(self.cells().contains_key(coord));
                }
                let ghost prev_cells = self.cells();
                if active {
                    self.put_player(coord, player);
                } else {
                    self.remove_player(coord);
                }
                proof {
                    assert(self.cells() =~= prev_cells.insert(coord, zone_spot(sides, player)));
                    assert(tips@.take(ti as int + 1) =~= tips@.take(ti as int).push(coord));
                    assert forall|c: HexCoord| #[trigger] self.cells().contains_key(c) implies self
                        .cells()[c] == (if in_start_zone(player, c) && tips@.take(
                        ti as int + 1,
                    ).contains(c) {
                        zone_spot(sides, player)
                    } else {
                        cur[c]
                    }) by {
                        if c == coord {
                            assert(tips@.take(ti as int + 1)[ti as int] == coord);
                            assert(tips@.take(ti as int + 1).contains(coord));
                        } else {
                            if tips@.take(ti as int + 1).contains(c) {
                                let i = choose|i: int|
                                    0 <= i < ti + 1 && #[trigger] tips@.take(ti as int + 1)[i]
                                        == c;
                                assert(tips@.take(ti as int)[i] == c);
                                assert(tips@.take(ti as int).contains(c));
                            }
                            if tips@.take(ti as int).contains(c) {
                                let i = choose|i: int|
                                    0 <= i < ti && #[trigger] tips@.take(ti as int)[i] == c;
                                assert(tips@.take(ti as int + 1)[i] == c);
                                assert(tips@.take(ti as int + 1).contains(c));
                            }
                        }
                    }
                }
                ti = ti + 1;
            }
            proof {
                assert forall|c: HexCoord| #[trigger] self.cells().contains_key(c) implies self
                    .cells()[c] == setup_spot_upto(sides, orig[c], c, si as int + 1) by {
                    assert(tips@.take(10) =~= tips@);
                    if in_start_zone(player, c) {
                        assert(tips@.contains(c));
                    }
                    if si == 0 {
                        assert(player == SideOfStar::A);
                    } else if si == 1 {
                        assert(player == SideOfStar::B);
                    } else if si == 2 {
                        assert(player == SideOfStar::C);
                    } else if si == 3 {
                        assert(player == SideOfStar::D);
                    } else if si == 4 {
                        assert(player == SideOfStar::E);
                    } else {
                        assert(player == SideOfStar::F);
                    }
                }
            }
            si = si + 1;
        }
        let first = self.players[0];
        let ghost pre = *self;
        self.turn = first;
        proof {
            assert(self.board == pre.board);
            assert(self.players == pre.players);
            assert forall|c: HexCoord| #[trigger] self.cells().contains_key(c) implies (
            orig.contains_key(c) && self.cells()[c] == setup_spot(self.sides(), orig[c], c)) by {
                assert(pre.cells().contains_key(c));
                assert(pre.cells()[c] == setup_spot_upto(sides, orig[c], c, 6));
            }
            assert forall|c: HexCoord| orig.contains_key(c) implies #[trigger] self.cells().contains_key(c) by {
                assert(pre.cells().contains_key(c));
            }
            assert(self.players@.contains(self.players@[0]));
            assert forall|s: SideOfStar| #[trigger] self.sides().contains(s) implies self
                .turn.ord() <= s.ord() by {
                let i = choose|i: int| 0 <= i < self.players@.len() && self.players@[i] == s;
                if i > 0 {
                    assert(self.players@[0].ord() < self.players@[i].ord());
                }
            }
        }
    }

    /// A fresh board for `players_count` players: the 121 cells generated,
    /// the canonical sides activated, the starting zones seeded, and the
    /// turn handed to side `A`.
    pub fn new(players_count: usize) -> (r: Board)
        ensures
            r.wf(),
            r.players@ == canonical_players(players_count as int),
            r.players@.len() == (if players_count == 3 || players_count == 4 || players_count == 6 {
                players_count as int
            } else {
                2
            }),
            r.turn == SideOfStar::A,
            r.sides().contains(r.turn),
            forall|c: HexCoord| #[trigger] r.cells().contains_key(c) <==> on_board(c),
            forall|c: HexCoord| #[trigger] r.cells().contains_key(c) ==> r.cells()[c] == setup_spot(
                r.sides(),
                Spot::Empty,
                c,
            ),
            is_fresh_board(r, players_count as int),
    {
        let mut b = Board {
            board: gen_board(),
            players: gen_players(players_count),
            turn: SideOfStar::A,
        };
        proof {
            lemma_map_of_contains(b.board@);
            assert(b.cells_wf());
            assert(b.players_wf());
            b.lemma_dom();
            assert forall|c: HexCoord| #[trigger] b.cells().contains_key(c) implies b.cells()[c]
                == Spot::Empty by {
                let i = choose|i: int| 0 <= i < b.board@.len() && (#[trigger] b.board@[i]).0 == c;
                lemma_map_of_index(b.board@, i);
            }
            assert(b.players@.len() >= 1);
        }
        b.setup_players();
        proof {
            assert(b.turn == canonical_players(players_count as int)[0]);
        }
        b
    }
}


/// The ordinal identifies the side: `all_sides` lists each side at its own
/// ordinal, and distinct sides have distinct ordinals.
pub proof fn lemma_ord_bijective()
    ensures
        forall|x: SideOfStar| 0 <= #[trigger] x.ord() < 6 && SideOfStar::all_sides()[x.ord()] == x,
        forall|i: int| 0 <= i < 6 ==> (#[trigger] SideOfStar::all_sides()[i]).ord() == i,
{
    assert forall|x: SideOfStar|
        0 <= #[trigger] x.ord() < 6 && SideOfStar::all_sides()[x.ord()] == x by {
        match x {
            SideOfStar::A => assert(SideOfStar::all_sides()[0] == SideOfStar::A),
            SideOfStar::B => assert(SideOfStar::all_sides()[1] == SideOfStar::B),
            SideOfStar::C => assert(SideOfStar::all_sides()[2] == SideOfStar::C),
            SideOfStar::D => assert(SideOfStar::all_sides()[3] == SideOfStar::D),
            SideOfStar::E => assert(SideOfStar::all_sides()[4] == SideOfStar::E),
            SideOfStar::F => assert(SideOfStar::all_sides()[5] == SideOfStar::F),
        }
    }
    assert forall|i: int| 0 <= i < 6 implies (#[trigger] SideOfStar::all_sides()[i]).ord()
        == i by {
        if i == 0 {
        } else if i == 1 {
        } else if i == 2 {
        } else if i == 3 {
        } else if i == 4 {
        } else {
            assert(SideOfStar::all_sides()[5] == SideOfStar::F);
        }
    }
}

impl Board {
    /// Advances `turn` to the next active side clockwise: the `k`-th side
    /// ahead for the least `k` in 1..=6 that is active.
    pub fn start_next_turn(&mut self)
        requires
            old(self).wf(),
            old(self).sides().contains(old(self).turn),
        ensures
            final(self).wf(),
            final(self).board == old(self).board,
            final(self).players == old(self).players,
            final(self).sides().contains(final(self).turn),
            exists|k: int|
                1 <= k <= 6 && final(self).turn == #[trigger] old(self).turn.forward_n(k as nat)
                    && (forall|j: int|
                    1 <= j < k ==> !final(self).sides().contains(
                        #[trigger] old(self).turn.forward_n(j as nat),
                    )),
    {
        proof {
            crate::side::lemma_forward_six(old(self).turn);
        }
        let mut next = self.turn.forward();
        let mut steps: u8 = 1;
        proof {
            assert(self.turn.forward_n(0) == self.turn);
            assert(self.turn.forward_n(1) == self.turn.forward_n(0).spec_forward());
        }
        while !self.contains_side(next)
            invariant
                self == old(self),
                self.wf(),
                self.sides().contains(self.turn),
                self.turn.forward_n(6) == self.turn,
                1 <= steps <= 6,
                next == self.turn.forward_n(steps as nat),
                forall|j: int|
                    1 <= j < steps ==> !self.sides().contains(
                        #[trigger] self.turn.forward_n(j as nat),
                    ),
            decreases 6 - steps,
        {
            proof {
                if steps == 6 {
                    assert(next == self.turn);
                    assert(false);
                }
            }
            next = next.forward();
            steps = steps + 1;
            proof {
                assert(self.turn.forward_n(steps as nat) == self.turn.forward_n(
                    (steps - 1) as nat,
                ).spec_forward());
            }
        }
        let ghost k = steps as int;
        self.turn = next;
        proof {
            assert(final(self).turn == old(self).turn.forward_n(k as nat));
            assert(1 <= k <= 6 && final(self).turn == old(self).turn.forward_n(k as nat) && (
            forall|j: int|
                1 <= j < k ==> !final(self).sides().contains(
                    #[trigger] old(self).turn.forward_n(j as nat),
                )));
        }
    }

    /// Rebuilds the active-side list, in ordinal order, with `side` present
    /// or absent as `active` says.
    fn set_side_active(&mut self, side: SideOfStar, active: bool)
        requires
            old(self).wf(),
        ensures
            final(self).wf(),
            final(self).board == old(self).board,
            final(self).turn == old(self).turn,
            active ==> final(self).sides() == old(self).sides().insert(side),
            !active ==> final(self).sides() == old(self).sides().remove(side),
    {
        proof {
            lemma_ord_bijective();
        }
        let ghost target: Set<SideOfStar> = if active {
            old(self).sides().insert(side)
        } else {
            old(self).sides().remove(side)
        };
        let all = SideOfStar::all();
        let mut v: Vec<SideOfStar> = Vec::new();
        let mut si: usize = 0;
        while si < 6
            invariant
                0 <= si <= 6,
                self == old(self),
                self.wf(),
                all@ == SideOfStar::all_sides(),
                target == (if active {
                    self.sides().insert(side)
                } else {
                    self.sides().remove(side)
                }),
                forall|j: int, k: int|
                    0 <= j < k < v@.len() ==> (#[trigger] v@[j]).ord() < (#[trigger] v@[k]).ord(),
                forall|j: int| 0 <= j < v@.len() ==> 0 <= (#[trigger] v@[j]).ord() < si,
                forall|x: SideOfStar| #[trigger]
                    v@.contains(x) <==> (target.contains(x) && x.ord() < si),
            decreases 6 - si,
        {
            let s = all[si];
            proof {
                assert(s == SideOfStar::all_sides()[si as int]);
                assert(s.ord() == si as int);
            }
            let was = self.contains_side(s);
            let want = if s == side {
                active
            } else {
                was
            };
            if want {
                let ghost v_before = v@;
                v.push(s);
                proof {
                    assert forall|x: SideOfStar| #[trigger] v@.contains(x) implies (
                    target.contains(x) && x.ord() < si + 1) by {
                        let i = choose|i: int| 0 <= i < v@.len() && v@[i] == x;
                        if i < v_before.len() {
                            assert(v_before[i] == x);
                            assert(v_before.contains(x));
                        } else {
                            assert(x == s);
                        }
                    }
                    assert forall|x: SideOfStar|
                        target.contains(x) && x.ord() < si + 1 implies #[trigger] v@.contains(
                        x,
                    ) by {
                        if x.ord() < si {
                            assert(v_before.contains(x));
                            let i = choose|i: int|
                                0 <= i < v_before.len() && v_before[i] == x;
                            assert(v@[i] == x);
                        } else {
                            assert(x.ord() == si as int);
                            assert(SideOfStar::all_sides()[x.ord()] == x);
                            assert(x == s);
                            assert(v@[v@.len() - 1] == x);
                        }
                    }
                }
            } else {
                proof {
                    assert forall|x: SideOfStar|
                        target.contains(x) && x.ord() < si + 1 implies #[trigger] v@.contains(
                        x,
                    ) by {
                        if x.ord() == si as int {
                            assert(SideOfStar::all_sides()[x.ord()] == x);
                            assert(x == s);
                            assert(!target.contains(s));
                        }
                    }
                }
            }
            si = si + 1;
        }
        self.players = v;
        proof {
            assert forall|x: SideOfStar| #[trigger] self.players@.to_set().contains(x) implies
                target.contains(x) by {}
            assert forall|x: SideOfStar| target.contains(x) implies #[trigger]
                self.players@.to_set().contains(x) by {
                assert(self.players@.contains(x));
            }
            assert(self.sides() =~= target);
        }
    }

    /// Activates `side` during pre-game configuration; run `setup_players`
    /// afterwards to reseed the zones.
    pub fn add_side(&mut self, side: SideOfStar)
        requires
            old(self).wf(),
        ensures
            final(self).wf(),
            final(self).board == old(self).board,
            final(self).turn == old(self).turn,
            final(self).sides() == old(self).sides().insert(side),
    {
        self.set_side_active(side, true);
    }

    /// Deactivates `side` during pre-game configuration; run
    /// `setup_players` afterwards to clear its zone.
    pub fn remove_side(&mut self, side: SideOfStar)
        requires
            old(self).wf(),
        ensures
            final(self).wf(),
            final(self).board == old(self).board,
            final(self).turn == old(self).turn,
            final(self).sides() == old(self).sides().remove(side),
    {
        self.set_side_active(side, false);
    }
}

} // verus!
