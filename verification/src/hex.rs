//! Axial hexagonal coordinates and triangular shape generation.

use vstd::prelude::*;

verus! {

/// A coordinate on an axial hex grid. The implicit third axis equals
/// `-horz - slant`.
#[derive(Debug, Clone, Copy, PartialEq, Eq, Structural, Hash)]
pub struct HexCoord {
    /// the horizontal axis
    pub horz: i32,
    /// the slant axis
    pub slant: i32,
}

/// Horizontal component of unit direction `d` (0 through 5).
pub open spec fn dir_horz(d: int) -> int {
    if d == 0 {
        1
    } else if d == 1 {
        1
    } else if d == 2 {
        0
    } else if d == 3 {
        -1
    } else if d == 4 {
        -1
    } else {
        0
    }
}

/// Slant component of unit direction `d` (0 through 5).
pub open spec fn dir_slant(d: int) -> int {
    if d == 0 {
        0
    } else if d == 1 {
        -1
    } else if d == 2 {
        -1
    } else if d == 3 {
        0
    } else if d == 4 {
        1
    } else {
        1
    }
}

/// `(dh, ds)` is one of the six unit direction offsets.
pub open spec fn is_dir(dh: int, ds: int) -> bool {
    ||| (dh == 1 && ds == 0)
    ||| (dh == 1 && ds == -1)
    ||| (dh == 0 && ds == -1)
    ||| (dh == -1 && ds == 0)
    ||| (dh == -1 && ds == 1)
    ||| (dh == 0 && ds == 1)
}

/// The direction number of the unit offset `(dh, ds)`, or 6 when it is no
/// unit offset: the inverse of `dir_horz`/`dir_slant`.
pub open spec fn dir_index(dh: int, ds: int) -> int {
    if dh == 1 && ds == 0 {
        0
    } else if dh == 1 && ds == -1 {
        1
    } else if dh == 0 && ds == -1 {
        2
    } else if dh == -1 && ds == 0 {
        3
    } else if dh == -1 && ds == 1 {
        4
    } else if dh == 0 && ds == 1 {
        5
    } else {
        6
    }
}

/// `b` is adjacent to `a`: one unit direction step away.
pub open spec fn is_neighbor(a: HexCoord, b: HexCoord) -> bool {
    is_dir(b.horz - a.horz, b.slant - a.slant)
}

/// `b` is a jump target of `a` over the adjacent cell `mid`: `mid` is one
/// unit step from `a` and `b` one further unit step in the same direction.
pub open spec fn is_jump_target(a: HexCoord, mid: HexCoord, b: HexCoord) -> bool {
    &&& is_dir(mid.horz - a.horz, mid.slant - a.slant)
    &&& b.horz - mid.horz == mid.horz - a.horz
    &&& b.slant - mid.slant == mid.slant - a.slant
}

/// The triangle of `size` rows whose single tip cell is `root` and which
/// widens toward larger slant values.
pub open spec fn in_tip_up(root: HexCoord, size: int, c: HexCoord) -> bool {
    &&& root.slant <= c.slant < root.slant + size
    &&& c.horz <= root.horz
    &&& c.horz + c.slant >= root.horz + root.slant
}

/// The triangle of `size` rows whose single tip cell is `root` and which
/// widens toward smaller slant values.
pub open spec fn in_tip_down(root: HexCoord, size: int, c: HexCoord) -> bool {
    &&& root.slant - size < c.slant <= root.slant
    &&& c.horz >= root.horz
    &&& c.horz + c.slant <= root.horz + root.slant
}

impl HexCoord {
    pub fn new(horz: i32, slant: i32) -> (r: Self)
        ensures
            r.horz == horz,
            r.slant == slant,
    {
        HexCoord { horz, slant }
    }

    /// Componentwise vector sum.
    pub fn add(self, other: Self) -> (r: Self)
        requires
            i32::MIN <= self.horz + other.horz <= i32::MAX,
            i32::MIN <= self.slant + other.slant <= i32::MAX,
        ensures
            r.horz == self.horz + other.horz,
            r.slant == self.slant + other.slant,
    {
        HexCoord { horz: self.horz + other.horz, slant: self.slant + other.slant }
    }

    /// Componentwise negation.
    pub fn neg(self) -> (r: Self)
        requires
            self.horz > i32::MIN,
            self.slant > i32::MIN,
        ensures
            r.horz == -self.horz,
            r.slant == -self.slant,
    {
        HexCoord { horz: -self.horz, slant: -self.slant }
    }

    /// Componentwise vector difference.
    pub fn sub(self, other: Self) -> (r: Self)
        requires
            i32::MIN <= self.horz - other.horz <= i32::MAX,
            i32::MIN <= self.slant - other.slant <= i32::MAX,
        ensures
            r.horz == self.horz - other.horz,
            r.slant == self.slant - other.slant,
    {
        HexCoord { horz: self.horz - other.horz, slant: self.slant - other.slant }
    }

    /// Scalar multiple.
    pub fn mul(self, other: i32) -> (r: Self)
        requires
            i32::MIN <= self.horz * other <= i32::MAX,
            i32::MIN <= self.slant * other <= i32::MAX,
        ensures
            r.horz == self.horz * other,
            r.slant == self.slant * other,
    {
        HexCoord { horz: self.horz * other, slant: self.slant * other }
    }

    /// The six adjacent coordinates, one unit direction step away each, in
    /// direction order. The result lists exactly the neighbors of `self`.
    pub fn neighbors(self) -> (r: Vec<Self>)
        requires
            i32::MIN + 1 <= self.horz <= i32::MAX - 1,
            i32::MIN + 1 <= self.slant <= i32::MAX - 1,
        ensures
            r@.len() == 6,
            forall|d: int|
                0 <= d < 6 ==> (#[trigger] r@[d]).horz == self.horz + dir_horz(d) && r@[d].slant
                    == self.slant + dir_slant(d),
            forall|b: HexCoord| #[trigger] is_neighbor(self, b) <==> r@.contains(b),
    {
        let mut v: Vec<HexCoord> = Vec::new();
        v.push(HexCoord { horz: self.horz + 1, slant: self.slant });
        v.push(HexCoord { horz: self.horz + 1, slant: self.slant - 1 });
        v.push(HexCoord { horz: self.horz, slant: self.slant - 1 });
        v.push(HexCoord { horz: self.horz - 1, slant: self.slant });
        v.push(HexCoord { horz: self.horz - 1, slant: self.slant + 1 });
        v.push(HexCoord { horz: self.horz, slant: self.slant + 1 });
        proof {
            assert forall|b: HexCoord| #[trigger] is_neighbor(self, b) implies v@.contains(b) by {
                if b.horz - self.horz == 1 && b.slant - self.slant == 0 {
                    assert(v@[0] == b);
                } else if b.horz - self.horz == 1 && b.slant - self.slant == -1 {
                    assert(v@[1] == b);
                } else if b.horz - self.horz == 0 && b.slant - self.slant == -1 {
                    assert(v@[2] == b);
                } else if b.horz - self.horz == -1 && b.slant - self.slant == 0 {
                    assert(v@[3] == b);
                } else if b.horz - self.horz == -1 && b.slant - self.slant == 1 {
                    assert(v@[4] == b);
                } else {
                    assert(v@[5] == b);
                }
            }
            assert forall|b: HexCoord| v@.contains(b) implies is_neighbor(self, b) by {
                let i = choose|i: int| 0 <= i < v@.len() && v@[i] == b;
                assert(is_dir(dir_horz(i), dir_slant(i)));
            }
        }
        v
    }

    /// The six coordinates two unit direction steps away, in direction
    /// order: the landing cells of a jump in each direction.
    pub fn jump_neighbors(self) -> (r: Vec<Self>)
        requires
            i32::MIN + 2 <= self.horz <= i32::MAX - 2,
            i32::MIN + 2 <= self.slant <= i32::MAX - 2,
        ensures
            r@.len() == 6,
            forall|d: int|
                0 <= d < 6 ==> (#[trigger] r@[d]).horz == self.horz + 2 * dir_horz(d)
                    && r@[d].slant == self.slant + 2 * dir_slant(d),
    {
        let mut v: Vec<HexCoord> = Vec::new();
        v.push(HexCoord { horz: self.horz + 2, slant: self.slant });
        v.push(HexCoord { horz: self.horz + 2, slant: self.slant - 2 });
        v.push(HexCoord { horz: self.horz, slant: self.slant - 2 });
        v.push(HexCoord { horz: self.horz - 2, slant: self.slant });
        v.push(HexCoord { horz: self.horz - 2, slant: self.slant + 2 });
        v.push(HexCoord { horz: self.horz, slant: self.slant + 2 });
        v
    }

    /// All cells of the tip-up triangle of `size` rows rooted at `self`,
    /// without duplicates: exactly the members of `in_tip_up`.
    pub fn triangle_tip_up(self, size: i32) -> (r: Vec<Self>)
        requires
            0 <= size,
            self.slant + size <= i32::MAX,
            self.horz - size >= i32::MIN,
        ensures
            r@.len() == size * (size + 1) / 2,
            forall|i: int| 0 <= i < r@.len() ==> in_tip_up(self, size as int, #[trigger] r@[i]),
            forall|c: HexCoord| #[trigger] in_tip_up(self, size as int, c) ==> r@.contains(c),
            r@.no_duplicates(),
    {
        let mut v: Vec<HexCoord> = Vec::new();
        let mut row: i32 = 0;
        while row < size
            invariant
                0 <= row <= size,
                self.slant + size <= i32::MAX,
                self.horz - size >= i32::MIN,
                v@.len() == row * (row + 1) / 2,
                forall|i: int|
                    0 <= i < v@.len() ==> in_tip_up(self, size as int, #[trigger] v@[i])
                        && v@[i].slant < self.slant + row,
                forall|c: HexCoord|
                    #[trigger] in_tip_up(self, size as int, c) && c.slant < self.slant + row
                        ==> v@.contains(c),
                v@.no_duplicates(),
            decreases size - row,
        {
            let slant = self.slant + row;
            let ghost len_before = v@.len();
            let mut k: i32 = 0;
            while k <= row
                invariant
                    0 <= k <= row + 1,
                    0 <= row < size,
                    self.slant + size <= i32::MAX,
                    self.horz - size >= i32::MIN,
                    slant == self.slant + row,
                    v@.len() == len_before + k,
                    forall|i: int|
                        0 <= i < len_before ==> in_tip_up(self, size as int, #[trigger] v@[i])
                            && v@[i].slant < self.slant + row,
                    forall|c: HexCoord|
                        #[trigger] in_tip_up(self, size as int, c) && c.slant < self.slant + row
                            ==> v@.contains(c),
                    forall|i: int|
                        len_before <= i < v@.len() ==> (#[trigger] v@[i]).slant == slant
                            && v@[i].horz == self.horz - (i - len_before),
                    v@.no_duplicates(),
                decreases row + 1 - k,
            {
                let c = HexCoord { horz: self.horz - k, slant };
                proof {
                    assert forall|i: int| 0 <= i < v@.len() implies v@[i] != c by {
                        if i < len_before {
                            assert(v@[i].slant < slant);
                        } else {
                            assert(v@[i].horz == self.horz - (i - len_before));
                            assert(i - len_before < k);
                        }
                    }
                }
                let ghost v_before = v@;
                v.push(c);
                proof {
                    assert forall|x: HexCoord|
                        #[trigger] in_tip_up(self, size as int, x) && x.slant < self.slant + row
                            implies v@.contains(x) by {
                        assert(v_before.contains(x));
                        let i = choose|i: int| 0 <= i < v_before.len() && v_before[i] == x;
                        assert(v@[i] == x);
                    }
                }
                k = k + 1;
            }
            proof {
                assert(v@.len() == len_before + row + 1);
                assert(row * (row + 1) / 2 + (row + 1) == (row + 1) * (row + 2) / 2) by (nonlinear_arith);
                assert forall|i: int|
                    0 <= i < v@.len() implies in_tip_up(self, size as int, #[trigger] v@[i])
                        && v@[i].slant < self.slant + row + 1 by {
                    if i >= len_before {
                        assert(v@[i].slant == slant);
                        assert(v@[i].horz == self.horz - (i - len_before));
                        assert(i - len_before <= row);
                    }
                }
                assert forall|c: HexCoord|
                    #[trigger] in_tip_up(self, size as int, c) && c.slant < self.slant + row + 1
                        implies v@.contains(c) by {
                    if c.slant == self.slant + row {
                        let i = len_before + (self.horz - c.horz);
                        assert(v@[i] == c);
                    }
                }
            }
            row = row + 1;
        }
        v
    }

    /// All cells of the tip-down triangle of `size` rows rooted at `self`,
    /// without duplicates: exactly the members of `in_tip_down`.
    pub fn triangle_tip_down(self, size: i32) -> (r: Vec<Self>)
        requires
            0 <= size,
            self.slant - size >= i32::MIN,
            self.horz + size <= i32::MAX,
        ensures
            r@.len() == size * (size + 1) / 2,
            forall|i: int| 0 <= i < r@.len() ==> in_tip_down(self, size as int, #[trigger] r@[i]),
            forall|c: HexCoord| #[trigger] in_tip_down(self, size as int, c) ==> r@.contains(c),
            r@.no_duplicates(),
    {
        let mut v: Vec<HexCoord> = Vec::new();
        let mut row: i32 = 0;
        while row < size
            invariant
                0 <= row <= size,
                self.slant - size >= i32::MIN,
                self.horz + size <= i32::MAX,
                v@.len() == row * (row + 1) / 2,
                forall|i: int|
                    0 <= i < v@.len() ==> in_tip_down(self, size as int, #[trigger] v@[i])
                        && v@[i].slant > self.slant - row,
                forall|c: HexCoord|
                    #[trigger] in_tip_down(self, size as int, c) && c.slant > self.slant - row
                        ==> v@.contains(c),
                v@.no_duplicates(),
            decreases size - row,
        {
            let slant = self.slant - row;
            let ghost len_before = v@.len();
            let mut k: i32 = 0;
            while k <= row
                invariant
                    0 <= k <= row + 1,
                    0 <= row < size,
                    self.slant - size >= i32::MIN,
                    self.horz + size <= i32::MAX,
                    slant == self.slant - row,
                    v@.len() == len_before + k,
                    forall|i: int|
                        0 <= i < len_before ==> in_tip_down(self, size as int, #[trigger] v@[i])
                            && v@[i].slant > self.slant - row,
                    forall|c: HexCoord|
                        #[trigger] in_tip_down(self, size as int, c) && c.slant > self.slant - row
                            ==> v@.contains(c),
                    forall|i: int|
                        len_before <= i < v@.len() ==> (#[trigger] v@[i]).slant == slant
                            && v@[i].horz == self.horz + (i - len_before),
                    v@.no_duplicates(),
                decreases row + 1 - k,
            {
                let c = HexCoord { horz: self.horz + k, slant };
                proof {
                    assert forall|i: int| 0 <= i < v@.len() implies v@[i] != c by {
                        if i < len_before {
                            assert(v@[i].slant > slant);
                        } else {
                            assert(v@[i].horz == self.horz + (i - len_before));
                            assert(i - len_before < k);
                        }
                    }
                }
                let ghost v_before = v@;
                v.push(c);
                proof {
                    assert forall|x: HexCoord|
                        #[trigger] in_tip_down(self, size as int, x) && x.slant > self.slant - row
                            implies v@.contains(x) by {
                        assert(v_before.contains(x));
                        let i = choose|i: int| 0 <= i < v_before.len() && v_before[i] == x;
                        assert(v@[i] == x);
                    }
                }
                k = k + 1;
            }
            proof {
                assert(v@.len() == len_before + row + 1);
                assert(row * (row + 1) / 2 + (row + 1) == (row + 1) * (row + 2) / 2) by (nonlinear_arith);
                assert forall|i: int|
                    0 <= i < v@.len() implies in_tip_down(self, size as int, #[trigger] v@[i])
                        && v@[i].slant > self.slant - row - 1 by {
                    if i >= len_before {
                        assert(v@[i].slant == slant);
                        assert(v@[i].horz == self.horz + (i - len_before));
                        assert(i - len_before <= row);
                    }
                }
                assert forall|c: HexCoord|
                    #[trigger] in_tip_down(self, size as int, c) && c.slant > self.slant - row - 1
                        implies v@.contains(c) by {
                    if c.slant == self.slant - row {
                        let i = len_before + (c.horz - self.horz);
                        assert(v@[i] == c);
                    }
                }
            }
            row = row + 1;
        }
        v
    }
}

impl From<(i32, i32)> for HexCoord {
    fn from(other: (i32, i32)) -> (r: Self)
        ensures
            r.horz == other.0 && r.slant == other.1,
    {
        HexCoord { horz: other.0, slant: other.1 }
    }
}

impl vstd::std_specs::convert::FromSpecImpl<(i32, i32)> for HexCoord {
    open spec fn obeys_from_spec() -> bool {
        true
    }

    open spec fn from_spec(other: (i32, i32)) -> Self {
        HexCoord { horz: other.0, slant: other.1 }
    }
}

impl Default for HexCoord {
    fn default() -> (r: Self)
        ensures
            r.horz == 0 && r.slant == 0,
    {
        HexCoord { horz: 0, slant: 0 }
    }
}

} // verus!
