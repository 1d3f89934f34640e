//! The move algebra: the 18 elementary face turns and their inverses.

use vstd::prelude::*;

use crate::turns::Face;

verus! {

/// An elementary move: a quarter turn (clockwise or counterclockwise) or a
/// half turn of one face. The order of the variants is the fixed enumeration
/// order of the search: it is what makes results reproducible run over run.
#[derive(Clone, Copy, PartialEq, Eq, Structural, Debug)]
pub enum Rotation {
    U,
    UPrime,
    U2,
    L,
    LPrime,
    L2,
    F,
    FPrime,
    F2,
    R,
    RPrime,
    R2,
    B,
    BPrime,
    B2,
    D,
    DPrime,
    D2,
}

impl Rotation {
    /// The face this move turns.
    pub open spec fn face(self) -> Face {
        match self {
            Rotation::U | Rotation::UPrime | Rotation::U2 => Face::Up,
            Rotation::L | Rotation::LPrime | Rotation::L2 => Face::Left,
            Rotation::F | Rotation::FPrime | Rotation::F2 => Face::Front,
            Rotation::R | Rotation::RPrime | Rotation::R2 => Face::Right,
            Rotation::B | Rotation::BPrime | Rotation::B2 => Face::Back,
            Rotation::D | Rotation::DPrime | Rotation::D2 => Face::Down,
        }
    }

    /// How many clockwise quarter turns of that face this move amounts to:
    /// 1 for clockwise, 2 for a half turn, 3 for counterclockwise.
    pub open spec fn turns(self) -> nat {
        match self {
            Rotation::U | Rotation::L | Rotation::F | Rotation::R | Rotation::B | Rotation::D => 1,
            Rotation::U2 | Rotation::L2 | Rotation::F2 | Rotation::R2 | Rotation::B2
            | Rotation::D2 => 2,
            Rotation::UPrime | Rotation::LPrime | Rotation::FPrime | Rotation::RPrime
            | Rotation::BPrime | Rotation::DPrime => 3,
        }
    }

    /// True of the twelve quarter-turn moves, false of the six half turns.
    pub open spec fn is_quarter_turn(self) -> bool {
        self.turns() == 1 || self.turns() == 3
    }

    /// The inverse move as a spec-level value: clockwise and counterclockwise
    /// swap, a half turn is its own inverse.
    pub open spec fn spec_reverse(self) -> Rotation {
        match self {
            Rotation::U => Rotation::UPrime,
            Rotation::UPrime => Rotation::U,
            Rotation::U2 => Rotation::U2,
            Rotation::L => Rotation::LPrime,
            Rotation::LPrime => Rotation::L,
            Rotation::L2 => Rotation::L2,
            Rotation::F => Rotation::FPrime,
            Rotation::FPrime => Rotation::F,
            Rotation::F2 => Rotation::F2,
            Rotation::R => Rotation::RPrime,
            Rotation::RPrime => Rotation::R,
            Rotation::R2 => Rotation::R2,
            Rotation::B => Rotation::BPrime,
            Rotation::BPrime => Rotation::B,
            Rotation::B2 => Rotation::B2,
            Rotation::D => Rotation::DPrime,
            Rotation::DPrime => Rotation::D,
            Rotation::D2 => Rotation::D2,
        }
    }

    /// The move whose permutation of the facelets is the inverse of this one's.
    #[verifier::when_used_as_spec(spec_reverse)]
    pub fn reverse(self) -> (r: Rotation)
        ensures
            r == self.spec_reverse(),
    {
        match self {
            Rotation::U => Rotation::UPrime,
            Rotation::UPrime => Rotation::U,
            Rotation::U2 => Rotation::U2,
            Rotation::L => Rotation::LPrime,
            Rotation::LPrime => Rotation::L,
            Rotation::L2 => Rotation::L2,
            Rotation::F => Rotation::FPrime,
            Rotation::FPrime => Rotation::F,
            Rotation::F2 => Rotation::F2,
            Rotation::R => Rotation::RPrime,
            Rotation::RPrime => Rotation::R,
            Rotation::R2 => Rotation::R2,
            Rotation::B => Rotation::BPrime,
            Rotation::BPrime => Rotation::B,
            Rotation::B2 => Rotation::B2,
            Rotation::D => Rotation::DPrime,
            Rotation::DPrime => Rotation::D,
            Rotation::D2 => Rotation::D2,
        }
    }

    /// The move's rank in the fixed enumeration order, the base of the
    /// lexicographic order on move sequences.
    pub open spec fn spec_order(self) -> int {
        match self {
            Rotation::U => 0,
            Rotation::UPrime => 1,
            Rotation::U2 => 2,
            Rotation::L => 3,
            Rotation::LPrime => 4,
            Rotation::L2 => 5,
            Rotation::F => 6,
            Rotation::FPrime => 7,
            Rotation::F2 => 8,
            Rotation::R => 9,
            Rotation::RPrime => 10,
            Rotation::R2 => 11,
            Rotation::B => 12,
            Rotation::BPrime => 13,
            Rotation::B2 => 14,
            Rotation::D => 15,
            Rotation::DPrime => 16,
            Rotation::D2 => 17,
        }
    }

    /// The move's rank in the fixed enumeration order.
    pub fn order(self) -> (r: usize)
        ensures
            r == self.spec_order(),
            r < 18,
    {
        match self {
            Rotation::U => 0,
            Rotation::UPrime => 1,
            Rotation::U2 => 2,
            Rotation::L => 3,
            Rotation::LPrime => 4,
            Rotation::L2 => 5,
            Rotation::F => 6,
            Rotation::FPrime => 7,
            Rotation::F2 => 8,
            Rotation::R => 9,
            Rotation::RPrime => 10,
            Rotation::R2 => 11,
            Rotation::B => 12,
            Rotation::BPrime => 13,
            Rotation::B2 => 14,
            Rotation::D => 15,
            Rotation::DPrime => 16,
            Rotation::D2 => 17,
        }
    }
}

/// All 18 moves in the fixed enumeration order.
pub open spec fn all_rotations() -> Seq<Rotation> {
    seq![
        Rotation::U,
        Rotation::UPrime,
        Rotation::U2,
        Rotation::L,
        Rotation::LPrime,
        Rotation::L2,
        Rotation::F,
        Rotation::FPrime,
        Rotation::F2,
        Rotation::R,
        Rotation::RPrime,
        Rotation::R2,
        Rotation::B,
        Rotation::BPrime,
        Rotation::B2,
        Rotation::D,
        Rotation::DPrime,
        Rotation::D2,
    ]
}

/// The move at a given rank of the fixed enumeration order.
pub fn rotation_of(idx: usize) -> (r: Rotation)
    requires
        idx < 18,
    ensures
        r == all_rotations()[idx as int],
        r.spec_order() == idx,
{
    let r = if idx == 0 {
        Rotation::U
    } else if idx == 1 {
        Rotation::UPrime
    } else if idx == 2 {
        Rotation::U2
    } else if idx == 3 {
        Rotation::L
    } else if idx == 4 {
        Rotation::LPrime
    } else if idx == 5 {
        Rotation::L2
    } else if idx == 6 {
        Rotation::F
    } else if idx == 7 {
        Rotation::FPrime
    } else if idx == 8 {
        Rotation::F2
    } else if idx == 9 {
        Rotation::R
    } else if idx == 10 {
        Rotation::RPrime
    } else if idx == 11 {
        Rotation::R2
    } else if idx == 12 {
        Rotation::B
    } else if idx == 13 {
        Rotation::BPrime
    } else if idx == 14 {
        Rotation::B2
    } else if idx == 15 {
        Rotation::D
    } else if idx == 16 {
        Rotation::DPrime
    } else {
        Rotation::D2
    };
    r
}

/// Reversing a move is an involution: reversing twice gives the move back.
pub proof fn lemma_reverse_involution(r: Rotation)
    ensures
        r.spec_reverse().spec_reverse() == r,
{
}

/// A move and its reverse turn the same face, and their quarter-turn counts
/// add up to a full turn.
pub proof fn lemma_reverse_face_turns(r: Rotation)
    ensures
        r.spec_reverse().face() == r.face(),
        r.turns() + r.spec_reverse().turns() == 4,
{
}

/// The enumeration rank identifies the move.
pub proof fn lemma_order_injective(a: Rotation, b: Rotation)
    ensures
        a.spec_order() == b.spec_order() ==> a == b,
{
}

} // verus!
