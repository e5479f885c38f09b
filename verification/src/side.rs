//! The six sides of the star board, ordered cyclically.

use vstd::prelude::*;

verus! {

/// One of the six starting positions around the star board, a "player
/// slot". Conceptually ordered 0..5 and cyclic.
#[derive(Debug, Clone, Copy, PartialEq, Eq, Structural, Hash, PartialOrd, Ord)]
pub enum SideOfStar {
    A,
    B,
    C,
    D,
    E,
    F,
}

/// A side that is (or may be) occupied by an active player.
pub type Player = SideOfStar;

impl SideOfStar {
    /// Ordinal of the side, 0 through 5.
    pub open spec fn ord(self) -> int {
        match self {
            SideOfStar::A => 0,
            SideOfStar::B => 1,
            SideOfStar::C => 2,
            SideOfStar::D => 3,
            SideOfStar::E => 4,
            SideOfStar::F => 5,
        }
    }

    /// The next side clockwise.
    pub open spec fn spec_forward(self) -> SideOfStar {
        match self {
            SideOfStar::A => SideOfStar::B,
            SideOfStar::B => SideOfStar::C,
            SideOfStar::C => SideOfStar::D,
            SideOfStar::D => SideOfStar::E,
            SideOfStar::E => SideOfStar::F,
            SideOfStar::F => SideOfStar::A,
        }
    }

    /// The side three steps away.
    pub open spec fn spec_opposite(self) -> SideOfStar {
        match self {
            SideOfStar::A => SideOfStar::D,
            SideOfStar::B => SideOfStar::E,
            SideOfStar::C => SideOfStar::F,
            SideOfStar::D => SideOfStar::A,
            SideOfStar::E => SideOfStar::B,
            SideOfStar::F => SideOfStar::C,
        }
    }

    /// `n` clockwise steps from `self`.
    pub open spec fn forward_n(self, n: nat) -> SideOfStar
        decreases n,
    {
        if n == 0 {
            self
        } else {
            self.forward_n((n - 1) as nat).spec_forward()
        }
    }

    /// All six sides, in ordinal order.
    pub open spec fn all_sides() -> Seq<SideOfStar> {
        seq![
            SideOfStar::A,
            SideOfStar::B,
            SideOfStar::C,
            SideOfStar::D,
            SideOfStar::E,
            SideOfStar::F,
        ]
    }

    pub fn forward(self) -> (r: Self)
        ensures
            r == self.spec_forward(),
    {
        match self {
            SideOfStar::A => SideOfStar::B,
            SideOfStar::B => SideOfStar::C,
            SideOfStar::C => SideOfStar::D,
            SideOfStar::D => SideOfStar::E,
            SideOfStar::E => SideOfStar::F,
            SideOfStar::F => SideOfStar::A,
        }
    }

    pub fn opposite(self) -> (r: Self)
        ensures
            r == self.spec_opposite(),
    {
        match self {
            SideOfStar::A => SideOfStar::D,
            SideOfStar::B => SideOfStar::E,
            SideOfStar::C => SideOfStar::F,
            SideOfStar::D => SideOfStar::A,
            SideOfStar::E => SideOfStar::B,
            SideOfStar::F => SideOfStar::C,
        }
    }

    pub fn all() -> (r: Vec<Self>)
        ensures
            r@ == Self::all_sides(),
    {
        let mut v: Vec<SideOfStar> = Vec::new();
        v.push(SideOfStar::A);
        v.push(SideOfStar::B);
        v.push(SideOfStar::C);
        v.push(SideOfStar::D);
        v.push(SideOfStar::E);
        v.push(SideOfStar::F);
        proof {
            assert(v@ =~= Self::all_sides());
        }
        v
    }

    /// The ordinal as a runtime value.
    pub fn ordinal(self) -> (r: u8)
        ensures
            r as int == self.ord(),
    {
        match self {
            SideOfStar::A => 0,
            SideOfStar::B => 1,
            SideOfStar::C => 2,
            SideOfStar::D => 3,
            SideOfStar::E => 4,
            SideOfStar::F => 5,
        }
    }
}

impl Default for SideOfStar {
    fn default() -> (r: Self)
        ensures
            r == SideOfStar::A,
    {
        SideOfStar::A
    }
}

/// Six clockwise steps lead back to the same side.
pub proof fn lemma_forward_six(s: SideOfStar)
    ensures
        s.forward_n(6) == s,
{
    assert(s.forward_n(6) == s.forward_n(5).spec_forward());
    assert(s.forward_n(5) == s.forward_n(4).spec_forward());
    assert(s.forward_n(4) == s.forward_n(3).spec_forward());
    assert(s.forward_n(3) == s.forward_n(2).spec_forward());
    assert(s.forward_n(2) == s.forward_n(1).spec_forward());
    assert(s.forward_n(1) == s.forward_n(0).spec_forward());
}

} // verus!
