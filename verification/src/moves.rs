//! Move legality: adjacency shifts and chained-jump searches.

use vstd::prelude::*;

use crate::board::Board;
use crate::board::Spot;
use crate::board::on_board;
use crate::hex::HexCoord;
use crate::hex::dir_horz;
use crate::hex::dir_index;
use crate::hex::dir_slant;
use crate::hex::is_jump_target;
use crate::hex::is_neighbor;

verus! {

/// One jump from `a` over the adjacent cell `mid` onto `b`: `mid` holds a
/// piece (of any side) and `b` is an empty board cell two steps from `a`
/// in the same direction.
pub open spec fn jump_step(m: Map<HexCoord, Spot>, a: HexCoord, mid: HexCoord, b: HexCoord) -> bool {
    &&& is_jump_target(a, mid, b)
    &&& m.contains_key(mid) && m[mid] is Player
    &&& m.contains_key(b) && m[b] is Empty
}

/// A jump from `a` lands on `b` in some direction.
pub open spec fn can_jump(m: Map<HexCoord, Spot>, a: HexCoord, b: HexCoord) -> bool {
    exists|mid: HexCoord| #[trigger] jump_step(m, a, mid, b)
}

/// Every consecutive pair of `p` is a jump.
pub open spec fn jump_path_ok(m: Map<HexCoord, Spot>, p: Seq<HexCoord>) -> bool {
    forall|i: int| 0 <= i < p.len() - 1 ==> can_jump(m, #[trigger] p[i], p[i + 1])
}

/// A chain of one or more jumps leads from `a` to `b`.
pub open spec fn jump_reachable(m: Map<HexCoord, Spot>, a: HexCoord, b: HexCoord) -> bool {
    exists|p: Seq<HexCoord>|
        p.len() >= 2 && p[0] == a && p.last() == b && #[trigger] jump_path_ok(m, p)
}

/// The move from `start` to `end` is legal: both are board cells, a piece
/// stands at `start`, `end` is empty, and `end` is adjacent to `start` or
/// reachable from it by a chain of jumps.
pub open spec fn legal_move(m: Map<HexCoord, Spot>, start: HexCoord, end: HexCoord) -> bool {
    &&& m.contains_key(start) && m.contains_key(end)
    &&& m[start] is Player && m[end] is Empty
    &&& (is_neighbor(start, end) || jump_reachable(m, start, end))
}

/// A single jump is a chain of length one.
pub proof fn lemma_jump_once(m: Map<HexCoord, Spot>, a: HexCoord, b: HexCoord)
    requires
        can_jump(m, a, b),
    ensures
        jump_reachable(m, a, b),
{
    let p = seq![a, b];
    assert(p.len() == 2 && p[0] == a && p.last() == b);
    assert(jump_path_ok(m, p)) by {
        assert forall|i: int| 0 <= i < p.len() - 1 implies can_jump(m, #[trigger] p[i], p[i + 1]) by {
            assert(p[0] == a && p[1] == b);
        }
    }
}

/// A chain extended by one more jump is a chain.
pub proof fn lemma_jump_extend(m: Map<HexCoord, Spot>, a: HexCoord, b: HexCoord, c: HexCoord)
    requires
        jump_reachable(m, a, b),
        can_jump(m, b, c),
    ensures
        jump_reachable(m, a, c),
{
    let p = choose|p: Seq<HexCoord>|
        p.len() >= 2 && p[0] == a && p.last() == b && #[trigger] jump_path_ok(m, p);
    let q = p.push(c);
    assert(q[0] == a && q.last() == c && q.len() >= 2);
    assert(jump_path_ok(m, q)) by {
        assert forall|i: int| 0 <= i < q.len() - 1 implies can_jump(m, #[trigger] q[i], q[i + 1]) by {
            if i < p.len() - 1 {
                assert(q[i] == p[i] && q[i + 1] == p[i + 1]);
                assert(can_jump(m, p[i], p[i + 1]));
            } else {
                assert(q[i] == p.last() && q[i + 1] == c);
            }
        }
    }
}

/// No chain leaves a set of cells that is closed under single jumps.
pub proof fn lemma_chain_stays(m: Map<HexCoord, Spot>, t: Seq<HexCoord>, p: Seq<HexCoord>)
    requires
        forall|x: HexCoord, y: HexCoord|
            t.contains(x) && #[trigger] can_jump(m, x, y) ==> t.contains(y),
        p.len() >= 1,
        t.contains(p[0]),
        jump_path_ok(m, p),
    ensures
        t.contains(p.last()),
    decreases p.len(),
{
    if p.len() >= 2 {
        let q = p.drop_last();
        assert(jump_path_ok(m, q)) by {
            assert forall|i: int| 0 <= i < q.len() - 1 implies can_jump(m, #[trigger] q[i], q[i + 1]) by {
                assert(q[i] == p[i] && q[i + 1] == p[i + 1]);
                assert(can_jump(m, p[i], p[i + 1]));
            }
        }
        lemma_chain_stays(m, t, q);
        assert(can_jump(m, p[p.len() - 2], p[p.len() - 1]));
        assert(q.last() == p[p.len() - 2]);
    }
}

/// A sequence of distinct board cells is no longer than the cell count.
proof fn lemma_distinct_in_dom_bound(m: Map<HexCoord, Spot>, s: Seq<HexCoord>)
    requires
        m.dom().finite(),
        s.no_duplicates(),
        forall|i: int| 0 <= i < s.len() ==> m.contains_key(#[trigger] s[i]),
    ensures
        s.len() <= m.dom().len(),
{
    s.unique_seq_to_set();
    assert(s.to_set().subset_of(m.dom())) by {
        assert forall|x: HexCoord| s.to_set().contains(x) implies m.dom().contains(x) by {
            let i = choose|i: int| 0 <= i < s.len() && s[i] == x;
            assert(m.contains_key(s[i]));
        }
    }
    vstd::set_lib::lemma_len_subset(s.to_set(), m.dom());
}

/// One search layer ends: the frontier joins the traversed set and the new
/// frontier takes its place, and every invariant of the search carries over.
proof fn lemma_advance_layer(
    m: Map<HexCoord, Spot>,
    start: HexCoord,
    end: HexCoord,
    old_t: Seq<HexCoord>,
    old_f: Seq<HexCoord>,
    new_f: Seq<HexCoord>,
)
    requires
        m.dom().finite(),
        forall|i: int| 0 <= i < old_t.len() ==> m.contains_key(#[trigger] old_t[i]),
        forall|i: int| 0 <= i < old_f.len() ==> m.contains_key(#[trigger] old_f[i]),
        forall|i: int| 0 <= i < new_f.len() ==> m.contains_key(#[trigger] new_f[i]),
        (old_t + old_f + new_f).no_duplicates(),
        !old_t.contains(end),
        !old_f.contains(end),
        !new_f.contains(end),
        forall|i: int|
            0 <= i < old_t.len() ==> (#[trigger] old_t[i] == start || jump_reachable(
                m,
                start,
                old_t[i],
            )),
        forall|i: int|
            0 <= i < old_f.len() ==> (#[trigger] old_f[i] == start || jump_reachable(
                m,
                start,
                old_f[i],
            )),
        forall|i: int| 0 <= i < new_f.len() ==> jump_reachable(m, start, #[trigger] new_f[i]),
        old_t.contains(start) || old_f.contains(start),
        forall|x: HexCoord, y: HexCoord|
            old_t.contains(x) && #[trigger] can_jump(m, x, y) ==> old_t.contains(y)
                || old_f.contains(y),
        forall|ii: int, y: HexCoord|
            0 <= ii < old_f.len() && #[trigger] can_jump(m, old_f[ii], y) ==> old_t.contains(y)
                || old_f.contains(y) || new_f.contains(y),
    ensures
        forall|i: int| 0 <= i < (old_t + old_f).len() ==> m.contains_key(#[trigger] (old_t + old_f)[i]),
        ((old_t + old_f) + new_f).no_duplicates(),
        (old_t + old_f).len() + new_f.len() <= m.dom().len(),
        !(old_t + old_f).contains(end),
        forall|i: int|
            0 <= i < (old_t + old_f).len() ==> (#[trigger] (old_t + old_f)[i] == start
                || jump_reachable(m, start, (old_t + old_f)[i])),
        (old_t + old_f).contains(start),
        forall|x: HexCoord, y: HexCoord|
            (old_t + old_f).contains(x) && #[trigger] can_jump(m, x, y) ==> (old_t
                + old_f).contains(y) || new_f.contains(y),
{
    let t = old_t + old_f;
    assert(t + new_f =~= old_t + old_f + new_f);
    assert forall|i: int| 0 <= i < t.len() implies m.contains_key(#[trigger] t[i]) by {
        if i < old_t.len() {
            assert(t[i] == old_t[i]);
        } else {
            assert(t[i] == old_f[i - old_t.len()]);
        }
    }
    lemma_distinct_in_dom_bound(m, t + new_f);
    assert forall|i: int|
        0 <= i < t.len() implies (#[trigger] t[i] == start || jump_reachable(m, start, t[i])) by {
        if i < old_t.len() {
            assert(t[i] == old_t[i]);
        } else {
            assert(t[i] == old_f[i - old_t.len()]);
        }
    }
    assert(!t.contains(end)) by {
        if t.contains(end) {
            let i = choose|i: int| 0 <= i < t.len() && t[i] == end;
            if i < old_t.len() {
                assert(old_t[i] == end);
                assert(old_t.contains(end));
            } else {
                assert(old_f[i - old_t.len()] == end);
                assert(old_f.contains(end));
            }
        }
    }
    assert(t.contains(start)) by {
        if old_t.contains(start) {
            let i = choose|i: int| 0 <= i < old_t.len() && old_t[i] == start;
            assert(t[i] == start);
        } else {
            let i = choose|i: int| 0 <= i < old_f.len() && old_f[i] == start;
            assert(t[old_t.len() + i] == start);
        }
    }
    assert forall|x: HexCoord, y: HexCoord|
        t.contains(x) && #[trigger] can_jump(m, x, y) implies t.contains(y) || new_f.contains(
        y,
    ) by {
        let i = choose|i: int| 0 <= i < t.len() && t[i] == x;
        if i < old_t.len() {
            assert(old_t[i] == x);
            assert(old_t.contains(x));
        } else {
            assert(old_f[i - old_t.len()] == x);
            assert(can_jump(m, old_f[i - old_t.len()], y));
        }
        if old_t.contains(y) {
            let k = choose|k: int| 0 <= k < old_t.len() && old_t[k] == y;
            assert(t[k] == y);
        } else if old_f.contains(y) {
            let k = choose|k: int| 0 <= k < old_f.len() && old_f[k] == y;
            assert(t[old_t.len() + k] == y);
        }
    }
}

/// Whether `v` lists the coordinate `c`.
fn coords_contain(v: &Vec<HexCoord>, c: HexCoord) -> (r: bool)
    ensures
        r == v@.contains(c),
{
    let mut i: usize = 0;
    while i < v.len()
        invariant
            0 <= i <= v@.len(),
            forall|j: int| 0 <= j < i ==> v@[j] != c,
        decreases v@.len() - i,
    {
        if v[i] == c {
            proof {
                assert(v@.contains(c));
            }
            return true;
        }
        i = i + 1;
    }
    false
}

impl Board {
    /// One breadth-first step of the jump search: tries every direction
    /// from `center` and records each fresh landing cell in
    /// `new_jump_centers`, or reports that the target was reached.
    #[verifier::loop_isolation(false)]
    #[verifier::rlimit(50)]
    fn expand_center(
        &self,
        start_coord: HexCoord,
        end_coord: HexCoord,
        center: HexCoord,
        traversed: &Vec<HexCoord>,
        jump_centers: &Vec<HexCoord>,
        new_jump_centers: &mut Vec<HexCoord>,
    ) -> (found: bool)
        requires
            self.wf(),
            self.cells().contains_key(center),
            self.cells().contains_key(start_coord),
            self.cells().contains_key(end_coord),
            self.cells()[end_coord] is Empty,
            center == start_coord || jump_reachable(self.cells(), start_coord, center),
            forall|i: int|
                0 <= i < old(new_jump_centers)@.len() ==> self.cells().contains_key(
                    #[trigger] old(new_jump_centers)@[i],
                ),
            (traversed@ + jump_centers@ + old(new_jump_centers)@).no_duplicates(),
            !traversed@.contains(end_coord),
            !jump_centers@.contains(end_coord),
            !old(new_jump_centers)@.contains(end_coord),
            forall|i: int|
                0 <= i < old(new_jump_centers)@.len() ==> jump_reachable(
                    self.cells(),
                    start_coord,
                    #[trigger] old(new_jump_centers)@[i],
                ),
        ensures
            found ==> jump_reachable(self.cells(), start_coord, end_coord),
            !found ==> final(new_jump_centers)@.len() >= old(new_jump_centers)@.len(),
            !found ==> forall|i: int|
                0 <= i < old(new_jump_centers)@.len() ==> final(new_jump_centers)@[i] == old(
                    new_jump_centers,
                )@[i],
            !found ==> forall|i: int|
                0 <= i < final(new_jump_centers)@.len() ==> self.cells().contains_key(
                    #[trigger] final(new_jump_centers)@[i],
                ),
            !found ==> (traversed@ + jump_centers@ + final(new_jump_centers)@).no_duplicates(),
            !found ==> !final(new_jump_centers)@.contains(end_coord),
            !found ==> forall|i: int|
                0 <= i < final(new_jump_centers)@.len() ==> jump_reachable(
                    self.cells(),
                    start_coord,
                    #[trigger] final(new_jump_centers)@[i],
                ),
            !found ==> forall|y: HexCoord|
                #[trigger] can_jump(self.cells(), center, y) ==> traversed@.contains(y)
                    || jump_centers@.contains(y) || final(new_jump_centers)@.contains(y),
    {
        let ghost m = self.cells();
        proof {
            self.lemma_dom();
            assert(on_board(center));
        }
        let ns = center.neighbors();
        let js = center.jump_neighbors();
        let mut d: usize = 0;
        while d < 6
            invariant
                0 <= d <= 6,
                new_jump_centers@.len() >= old(new_jump_centers)@.len(),
                forall|i: int|
                    0 <= i < old(new_jump_centers)@.len() ==> new_jump_centers@[i] == old(
                        new_jump_centers,
                    )@[i],
                forall|i: int|
                    0 <= i < new_jump_centers@.len() ==> m.contains_key(
                        #[trigger] new_jump_centers@[i],
                    ),
                (traversed@ + jump_centers@ + new_jump_centers@).no_duplicates(),
                !new_jump_centers@.contains(end_coord),
                forall|i: int|
                    0 <= i < new_jump_centers@.len() ==> jump_reachable(
                        m,
                        start_coord,
                        #[trigger] new_jump_centers@[i],
                    ),
                forall|y: HexCoord, mid: HexCoord|
                    #[trigger] jump_step(m, center, mid, y) && dir_index(
                        mid.horz - center.horz,
                        mid.slant - center.slant,
                    ) < d ==> traversed@.contains(y) || jump_centers@.contains(y)
                        || new_jump_centers@.contains(y),
            decreases 6 - d,
        {
            let n = ns[d];
            let j = js[d];
            let ghost nj_at_head = new_jump_centers@;
            proof {
                assert(n.horz == center.horz + dir_horz(d as int) && n.slant == center.slant
                    + dir_slant(d as int));
                assert(j.horz == center.horz + 2 * dir_horz(d as int) && j.slant == center.slant + 2
                    * dir_slant(d as int));
                assert(is_jump_target(center, n, j));
                assert(dir_index(n.horz - center.horz, n.slant - center.slant) == d as int);
            }
            if !coords_contain(traversed, j) && !coords_contain(jump_centers, j)
                && !coords_contain(new_jump_centers, j) {
                let n_occupied = match self.get(&n) {
                    Some(s) => s.is_full(),
                    None => false,
                };
                let j_empty = match self.get(&j) {
                    Some(s) => s.is_empty(),
                    None => false,
                };
                if n_occupied && j_empty {
                    proof {
                        assert(jump_step(m, center, n, j));
                        assert(can_jump(m, center, j));
                        if center == start_coord {
                            lemma_jump_once(m, start_coord, j);
                        } else {
                            lemma_jump_extend(m, start_coord, center, j);
                        }
                        assert(jump_reachable(m, start_coord, j));
                    }
                    if j == end_coord {
                        return true;
                    }
                    let ghost before = new_jump_centers@;
                    new_jump_centers.push(j);
                    proof {
                        assert(new_jump_centers@[new_jump_centers@.len() - 1] == j);
                        assert(new_jump_centers@.contains(j));
                        let all = traversed@ + jump_centers@ + new_jump_centers@;
                        let was = traversed@ + jump_centers@ + before;
                        assert(all =~= was.push(j));
                        assert(!was.contains(j)) by {
                            if was.contains(j) {
                                let i = choose|i: int| 0 <= i < was.len() && was[i] == j;
                                if i < traversed@.len() {
                                    assert(traversed@[i] == j);
                                    assert(traversed@.contains(j));
                                } else if i < traversed@.len() + jump_centers@.len() {
                                    assert(jump_centers@[i - traversed@.len()] == j);
                                    assert(jump_centers@.contains(j));
                                } else {
                                    assert(before[i - traversed@.len() - jump_centers@.len()] == j);
                                    assert(before.contains(j));
                                }
                            }
                        }
                        assert(all.no_duplicates()) by {
                            assert forall|a: int, b: int|
                                0 <= a < b < all.len() implies all[a] != all[b] by {
                                if b < was.len() {
                                    assert(was[a] != was[b]);
                                } else {
                                    assert(all[b] == j);
                                    assert(all[a] == was[a]);
                                    assert(was.contains(was[a]));
                                }
                            }
                        }
                    }
                }
            }
            proof {
                assert forall|y: HexCoord, mid: HexCoord|
                    #[trigger] jump_step(m, center, mid, y) && dir_index(
                        mid.horz - center.horz,
                        mid.slant - center.slant,
                    ) < d + 1 implies traversed@.contains(y) || jump_centers@.contains(y)
                    || new_jump_centers@.contains(y) by {
                    if dir_index(mid.horz - center.horz, mid.slant - center.slant) == d as int {
                        assert(mid == n && y == j);
                    } else {
                        if nj_at_head.contains(y) {
                            let k = choose|k: int| 0 <= k < nj_at_head.len() && nj_at_head[k] == y;
                            assert(new_jump_centers@[k] == y);
                        }
                    }
                }
            }
            d = d + 1;
        }
        proof {
            assert forall|y: HexCoord| #[trigger] can_jump(m, center, y) implies
                traversed@.contains(y) || jump_centers@.contains(y)
                || new_jump_centers@.contains(y) by {
                let mid = choose|mid: HexCoord| #[trigger] jump_step(m, center, mid, y);
                assert(dir_index(mid.horz - center.horz, mid.slant - center.slant) < 6);
            }
        }
        false
    }

    /// Whether moving the piece at `start_coord` to the empty cell
    /// `end_coord` is legal: a shift to an adjacent cell, or a chain of
    /// jumps found by a breadth-first search over jump centers.
    #[verifier::loop_isolation(false)]
    #[verifier::rlimit(60)]
    pub fn validate_move(&self, start_coord: HexCoord, end_coord: HexCoord) -> (r: bool)
        requires
            self.wf(),
        ensures
            r == legal_move(self.cells(), start_coord, end_coord),
    {
        let ghost m = self.cells();
        let start_ok = match self.get(&start_coord) {
            Some(s) => s.is_full(),
            None => false,
        };
        let end_ok = match self.get(&end_coord) {
            Some(s) => s.is_empty(),
            None => false,
        };
        if !start_ok || !end_ok {
            return false;
        }
        proof {
            self.lemma_dom();
        }
        let neighbors = start_coord.neighbors();
        if coords_contain(&neighbors, end_coord) {
            return true;
        }
        assert(!is_neighbor(start_coord, end_coord));
        let mut jump_centers: Vec<HexCoord> = Vec::new();
        jump_centers.push(start_coord);
        let mut traversed: Vec<HexCoord> = Vec::new();
        proof {
            assert(jump_centers@[0] == start_coord);
            assert(jump_centers@.contains(start_coord));
            assert((traversed@ + jump_centers@).no_duplicates());
        }
        while jump_centers.len() > 0
            invariant
                forall|i: int| 0 <= i < traversed@.len() ==> m.contains_key(#[trigger] traversed@[i]),
                forall|i: int|
                    0 <= i < jump_centers@.len() ==> m.contains_key(#[trigger] jump_centers@[i]),
                (traversed@ + jump_centers@).no_duplicates(),
                traversed@.len() + jump_centers@.len() <= 121,
                !traversed@.contains(end_coord),
                !jump_centers@.contains(end_coord),
                forall|i: int|
                    0 <= i < traversed@.len() ==> (#[trigger] traversed@[i] == start_coord
                        || jump_reachable(m, start_coord, traversed@[i])),
                forall|i: int|
                    0 <= i < jump_centers@.len() ==> (#[trigger] jump_centers@[i] == start_coord
                        || jump_reachable(m, start_coord, jump_centers@[i])),
                traversed@.contains(start_coord) || jump_centers@.contains(start_coord),
                forall|x: HexCoord, y: HexCoord|
                    traversed@.contains(x) && #[trigger] can_jump(m, x, y) ==> traversed@.contains(
                        y,
                    ) || jump_centers@.contains(y),
            decreases 122 - traversed@.len(),
        {
            let mut new_jump_centers: Vec<HexCoord> = Vec::new();
            let mut ci: usize = 0;
            while ci < jump_centers.len()
                invariant
                    0 <= ci <= jump_centers@.len(),
                    forall|i: int|
                        0 <= i < new_jump_centers@.len() ==> m.contains_key(
                            #[trigger] new_jump_centers@[i],
                        ),
                    (traversed@ + jump_centers@ + new_jump_centers@).no_duplicates(),
                    !new_jump_centers@.contains(end_coord),
                    forall|i: int|
                        0 <= i < new_jump_centers@.len() ==> jump_reachable(
                            m,
                            start_coord,
                            #[trigger] new_jump_centers@[i],
                        ),
                    forall|ii: int, y: HexCoord|
                        0 <= ii < ci && #[trigger] can_jump(m, jump_centers@[ii], y)
                            ==> traversed@.contains(y) || jump_centers@.contains(y)
                            || new_jump_centers@.contains(y),
                decreases jump_centers@.len() - ci,
            {
                let center = jump_centers[ci];
                proof {
                    assert(m.contains_key(center));
                    assert(jump_centers@.contains(center));
                }
                let ghost nj_before = new_jump_centers@;
                let found = self.expand_center(
                    start_coord,
                    end_coord,
                    center,
                    &traversed,
                    &jump_centers,
                    &mut new_jump_centers,
                );
                if found {
                    return true;
                }
                proof {
                    assert forall|ii: int, y: HexCoord|
                        0 <= ii < ci + 1 && #[trigger] can_jump(m, jump_centers@[ii], y) implies
                        traversed@.contains(y) || jump_centers@.contains(y)
                            || new_jump_centers@.contains(y) by {
                        if ii < ci {
                            if nj_before.contains(y) {
                                let k = choose|k: int|
                                    0 <= k < nj_before.len() && nj_before[k] == y;
                                assert(new_jump_centers@[k] == y);
                            }
                        }
                    }
                }
                ci = ci + 1;
            }
            let ghost old_traversed = traversed@;
            let ghost old_frontier = jump_centers@;
            proof {
                lemma_advance_layer(
                    m,
                    start_coord,
                    end_coord,
                    old_traversed,
                    old_frontier,
                    new_jump_centers@,
                );
            }
            traversed.append(&mut jump_centers);
            jump_centers = new_jump_centers;
            proof {
                assert(traversed@ == old_traversed + old_frontier);
            }
        }
        proof {
            if jump_reachable(m, start_coord, end_coord) {
                let p = choose|p: Seq<HexCoord>|
                    p.len() >= 2 && p[0] == start_coord && p.last() == end_coord
                        && #[trigger] jump_path_ok(m, p);
                assert forall|x: HexCoord, y: HexCoord|
                    traversed@.contains(x) && #[trigger] can_jump(m, x, y) implies
                    traversed@.contains(y) by {}
                lemma_chain_stays(m, traversed@, p);
            }
        }
        false
    }

    /// Performs the move when it is legal: the piece leaves `start_coord`
    /// and lands on `end_coord`; an illegal move changes nothing. Returns
    /// whether the move was legal.
    pub fn make_move(&mut self, start_coord: HexCoord, end_coord: HexCoord) -> (r: bool)
        requires
            old(self).wf(),
        ensures
            final(self).wf(),
            r == legal_move(old(self).cells(), start_coord, end_coord),
            final(self).players == old(self).players,
            final(self).turn == old(self).turn,
            final(self).cells().dom() == old(self).cells().dom(),
            r ==> final(self).cells()[start_coord] == Spot::Empty && final(self).cells()[end_coord] == old(self).cells()[start_coord],
            r ==> forall|c: HexCoord| #[trigger]
                old(self).cells().contains_key(c) && c != start_coord && c != end_coord ==> final(self).cells()[c] == old(self).cells()[c],
            !r ==> *final(self) == *old(self),
    {
        let is_move_valid = self.validate_move(start_coord, end_coord);
        if is_move_valid {
            self.swap(start_coord, end_coord);
            proof {
                assert(self.cells().dom() =~= old(self).cells().dom());
            }
        }
        is_move_valid
    }
}

} // verus!
