//! The puzzle-state model: 54 facelet colors, the effect of a move on them,
//! and the algebraic laws of the move set.

use vstd::prelude::*;

use crate::error::SolveError;
use crate::rotation::Rotation;
use crate::rotation::lemma_reverse_face_turns;
use crate::turns::Face;
use crate::turns::cw_source;
use crate::turns::cw_source_at;
use crate::turns::lemma_cw_source_period;

verus! {

/// One of the six face colors.
#[derive(Clone, Copy, PartialEq, Eq, Structural, Debug)]
pub enum Color {
    White,
    Orange,
    Green,
    Red,
    Blue,
    Yellow,
}

/// The facelet sequence after one clockwise quarter turn of face `f`.
pub open spec fn cw(s: Seq<Color>, f: Face) -> Seq<Color> {
    Seq::new(54, |i: int| s[cw_source(f, i)])
}

/// The facelet sequence after `n` clockwise quarter turns of face `f`.
pub open spec fn cw_n(s: Seq<Color>, f: Face, n: nat) -> Seq<Color>
    decreases n,
{
    if n == 0 {
        s
    } else {
        cw(cw_n(s, f, (n - 1) as nat), f)
    }
}

/// The facelet sequence after one move.
pub open spec fn state_after(s: Seq<Color>, r: Rotation) -> Seq<Color> {
    cw_n(s, r.face(), r.turns())
}

/// The facelet sequence after a whole move sequence, applied left to right.
pub open spec fn apply_path(s: Seq<Color>, path: Seq<Rotation>) -> Seq<Color>
    decreases path.len(),
{
    if path.len() == 0 {
        s
    } else {
        state_after(apply_path(s, path.drop_last()), path.last())
    }
}

/// Four clockwise quarter turns of one face restore the facelet sequence.
pub proof fn lemma_cw_four(s: Seq<Color>, f: Face)
    requires
        s.len() == 54,
    ensures
        cw(cw(cw(cw(s, f), f), f), f) == s,
{
    lemma_cw_source_period(f);
    assert(cw(cw(cw(cw(s, f), f), f), f) =~= s);
}

/// Turn counts compose additively.
pub proof fn lemma_cw_n_add(s: Seq<Color>, f: Face, a: nat, b: nat)
    ensures
        cw_n(cw_n(s, f, a), f, b) == cw_n(s, f, a + b),
    decreases b,
{
    if b == 0 {
    } else {
        lemma_cw_n_add(s, f, a, (b - 1) as nat);
    }
}

/// Four quarter turns written as a turn count restore the facelet sequence.
pub proof fn lemma_cw_n_four(s: Seq<Color>, f: Face)
    requires
        s.len() == 54,
    ensures
        cw_n(s, f, 4) == s,
{
    reveal_with_fuel(cw_n, 5);
    lemma_cw_four(s, f);
}

/// Extending a move sequence at its end applies the extra move last.
pub proof fn lemma_apply_path_push(s: Seq<Color>, path: Seq<Rotation>, r: Rotation)
    ensures
        apply_path(s, path.push(r)) == state_after(apply_path(s, path), r),
{
    assert(path.push(r).drop_last() =~= path);
}

/// A move at the front of a sequence is applied first.
pub proof fn lemma_apply_path_cons(s: Seq<Color>, r: Rotation, path: Seq<Rotation>)
    ensures
        apply_path(s, seq![r] + path) == apply_path(state_after(s, r), path),
    decreases path.len(),
{
    reveal_with_fuel(apply_path, 3);
    if path.len() == 0 {
        assert(seq![r] + path =~= seq![r]);
        assert(seq![r].drop_last() =~= Seq::<Rotation>::empty());
    } else {
        lemma_apply_path_cons(s, r, path.drop_last());
        assert((seq![r] + path).drop_last() =~= seq![r] + path.drop_last());
        assert((seq![r] + path).last() == path.last());
    }
}

/// Applying a concatenation applies the first part, then the second.
pub proof fn lemma_apply_path_concat(s: Seq<Color>, a: Seq<Rotation>, b: Seq<Rotation>)
    ensures
        apply_path(s, a + b) == apply_path(apply_path(s, a), b),
    decreases b.len(),
{
    if b.len() == 0 {
        assert(a + b =~= a);
    } else {
        lemma_apply_path_concat(s, a, b.drop_last());
        assert((a + b).drop_last() =~= a + b.drop_last());
        assert((a + b).last() == b.last());
    }
}

/// Reversal distributes over extension at the end.
pub proof fn lemma_reverse_push(path: Seq<Rotation>, x: Rotation)
    ensures
        path.push(x).reverse() == seq![x] + path.reverse(),
{
    assert(path.push(x).reverse() =~= seq![x] + path.reverse());
}

/// A move followed by its reverse leaves every state unchanged.
pub proof fn lemma_rotate_reverse(s: Seq<Color>, r: Rotation)
    requires
        s.len() == 54,
    ensures
        state_after(state_after(s, r), r.spec_reverse()) == s,
{
    lemma_reverse_face_turns(r);
    lemma_cw_n_add(s, r.face(), r.turns(), r.spec_reverse().turns());
    lemma_cw_n_four(s, r.face());
}

/// Applying the same quarter-turn move four times leaves every state unchanged.
pub proof fn lemma_quarter_turn_period(s: Seq<Color>, r: Rotation)
    requires
        s.len() == 54,
        r.is_quarter_turn(),
    ensures
        state_after(state_after(state_after(state_after(s, r), r), r), r) == s,
{
    let f = r.face();
    let k = r.turns();
    lemma_cw_n_add(s, f, k, k);
    lemma_cw_n_add(s, f, k + k, k);
    lemma_cw_n_add(s, f, k + k + k, k);
    lemma_cw_n_four(s, f);
    if k == 3 {
        lemma_cw_n_add(s, f, 4, 4);
        lemma_cw_n_add(s, f, 8, 4);
    }
}

/// Applying the same half-turn move twice leaves every state unchanged.
pub proof fn lemma_half_turn_period(s: Seq<Color>, r: Rotation)
    requires
        s.len() == 54,
        r.turns() == 2,
    ensures
        state_after(state_after(s, r), r) == s,
{
    lemma_cw_n_add(s, r.face(), 2, 2);
    lemma_cw_n_four(s, r.face());
}

/// True of the six characters of the face-color alphabet.
pub open spec fn is_color_char(c: char) -> bool {
    c == 'W' || c == 'O' || c == 'G' || c == 'R' || c == 'B' || c == 'Y'
}

/// The color a character of the alphabet denotes.
pub open spec fn color_of_char(c: char) -> Color {
    if c == 'W' {
        Color::White
    } else if c == 'O' {
        Color::Orange
    } else if c == 'G' {
        Color::Green
    } else if c == 'R' {
        Color::Red
    } else if c == 'B' {
        Color::Blue
    } else {
        Color::Yellow
    }
}

/// The visible configuration of the cube: one color for each of the 54
/// facelet positions, in the fixed face and cell order of [`crate::turns`].
/// Values are never mutated in place; a move yields a fresh state.
pub struct CubeState {
    cells: Vec<Color>,
}

impl View for CubeState {
    type V = Seq<Color>;

    closed spec fn view(&self) -> Seq<Color> {
        self.cells@
    }
}

impl CubeState {
    /// A state is well formed when it has exactly 54 facelets.
    pub open spec fn wf(self) -> bool {
        self@.len() == 54
    }

    /// Reads a state from its 54-character textual form: faces in the order
    /// up (white), left (orange), front (green), right (red), back (blue),
    /// down (yellow), each face bottom row to top row, left to right. Rejects
    /// any other length and any character outside `W O G R B Y`; no deeper
    /// reachability validation is attempted.
    pub fn parse(s: &str) -> (res: Result<CubeState, SolveError>)
        ensures
            res is Ok <==> (s@.len() == 54 && forall|i: int|
                0 <= i < 54 ==> is_color_char(#[trigger] s@[i])),
            res matches Ok(c) ==> c.wf() && forall|i: int|
                0 <= i < 54 ==> c@[i] == color_of_char(#[trigger] s@[i]),
            res matches Err(e) ==> e == SolveError::MalformedState,
    {
        let n = s.unicode_len();
        if n != 54 {
            return Err(SolveError::MalformedState);
        }
        let mut cells: Vec<Color> = Vec::new();
        let mut i: usize = 0;
        while i < 54
            invariant
                s@.len() == 54,
                cells@.len() == i,
                i <= 54,
                forall|k: int|
                    0 <= k < i ==> is_color_char(#[trigger] s@[k]) && cells@[k] == color_of_char(
                        s@[k],
                    ),
            decreases 54 - i,
        {
            let ch = s.get_char(i);
            let col: Color;
            if ch == 'W' {
                col = Color::White;
            } else if ch == 'O' {
                col = Color::Orange;
            } else if ch == 'G' {
                col = Color::Green;
            } else if ch == 'R' {
                col = Color::Red;
            } else if ch == 'B' {
                col = Color::Blue;
            } else if ch == 'Y' {
                col = Color::Yellow;
            } else {
                return Err(SolveError::MalformedState);
            }
            cells.push(col);
            i += 1;
        }
        Ok(CubeState { cells })
    }

    /// An identical, independently owned copy of this state.
    pub fn duplicate(&self) -> (res: CubeState)
        requires
            self.wf(),
        ensures
            res.wf(),
            res@ == self@,
    {
        let mut cells: Vec<Color> = Vec::new();
        let mut i: usize = 0;
        while i < 54
            invariant
                self.wf(),
                cells@.len() == i,
                i <= 54,
                forall|k: int| 0 <= k < i ==> cells@[k] == self@[k],
            decreases 54 - i,
        {
            cells.push(self.cells[i]);
            i += 1;
        }
        proof {
            assert(cells@ =~= self@);
        }
        CubeState { cells }
    }

    /// Exact cell-wise equality of two states.
    pub fn eq_state(&self, other: &CubeState) -> (r: bool)
        requires
            self.wf(),
            other.wf(),
        ensures
            r <==> self@ == other@,
    {
        let mut i: usize = 0;
        while i < 54
            invariant
                self.wf(),
                other.wf(),
                i <= 54,
                forall|k: int| 0 <= k < i ==> self@[k] == other@[k],
            decreases 54 - i,
        {
            if self.cells[i] != other.cells[i] {
                return false;
            }
            i += 1;
        }
        proof {
            assert(self@ =~= other@);
        }
        true
    }

    /// The state reached from this one by a single move.
    pub fn rotate(&self, rotation: Rotation) -> (res: CubeState)
        requires
            self.wf(),
        ensures
            res.wf(),
            res@ == state_after(self@, rotation),
    {
        let f: Face = match rotation {
            Rotation::U | Rotation::UPrime | Rotation::U2 => Face::Up,
            Rotation::L | Rotation::LPrime | Rotation::L2 => Face::Left,
            Rotation::F | Rotation::FPrime | Rotation::F2 => Face::Front,
            Rotation::R | Rotation::RPrime | Rotation::R2 => Face::Right,
            Rotation::B | Rotation::BPrime | Rotation::B2 => Face::Back,
            Rotation::D | Rotation::DPrime | Rotation::D2 => Face::Down,
        };
        let k: usize = match rotation {
            Rotation::U | Rotation::L | Rotation::F | Rotation::R | Rotation::B | Rotation::D => 1,
            Rotation::U2 | Rotation::L2 | Rotation::F2 | Rotation::R2 | Rotation::B2
            | Rotation::D2 => 2,
            Rotation::UPrime | Rotation::LPrime | Rotation::FPrime | Rotation::RPrime
            | Rotation::BPrime | Rotation::DPrime => 3,
        };
        proof {
            reveal_with_fuel(cw_n, 4);
        }
        let mut cur = rotate_cw(&self.cells, f);
        if k >= 2 {
            cur = rotate_cw(&cur, f);
        }
        if k == 3 {
            cur = rotate_cw(&cur, f);
        }
        CubeState { cells: cur }
    }
}

/// One clockwise quarter turn of face `f`, as a fresh facelet vector.
fn rotate_cw(cells: &Vec<Color>, f: Face) -> (res: Vec<Color>)
    requires
        cells@.len() == 54,
    ensures
        res@ == cw(cells@, f),
{
    let mut out: Vec<Color> = Vec::new();
    let mut i: usize = 0;
    while i < 54
        invariant
            cells@.len() == 54,
            out@.len() == i,
            i <= 54,
            forall|k: int| 0 <= k < i ==> out@[k] == cells@[cw_source(f, k)],
        decreases 54 - i,
    {
        let j = cw_source_at(f, i);
        out.push(cells[j]);
        i += 1;
    }
    proof {
        assert(out@ =~= cw(cells@, f));
    }
    out
}

} // verus!
