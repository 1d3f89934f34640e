//! The meet-in-the-middle search engine.
//!
//! One invocation owns a frontier table (`middle_states`) and a set of found
//! solutions. The forward pass explores from the initial state up to the split
//! depth and records the frontier; the backward pass explores from the desired
//! state with reversed moves and joins paths through the frontier. Every
//! recorded solution is proved to lie in the move-count window and to carry
//! the initial state to the desired state.
//!
//! When several forward paths reach the same frontier state, all of them are
//! kept (the table is a list of pairs, not a map), so no reconstructible
//! solution is lost to an arbitrary overwrite.

use vstd::prelude::*;

use crate::cube::Color;
use crate::cube::CubeState;
use crate::cube::apply_path;
use crate::cube::lemma_apply_path_concat;
use crate::cube::lemma_apply_path_cons;
use crate::cube::lemma_apply_path_push;
use crate::cube::lemma_reverse_push;
use crate::cube::lemma_rotate_reverse;
use crate::cube::state_after;
use crate::rotation::Rotation;
use crate::rotation::rotation_of;

verus! {

/// An identical, independently owned copy of a move sequence.
pub fn copy_path(p: &Vec<Rotation>) -> (res: Vec<Rotation>)
    ensures
        res@ == p@,
{
    let mut res: Vec<Rotation> = Vec::new();
    let n = p.len();
    let mut i: usize = 0;
    while i < n
        invariant
            n == p@.len(),
            i <= n,
            res@.len() == i,
            forall|k: int| 0 <= k < i ==> res@[k] == p@[k],
        decreases n - i,
    {
        res.push(p[i]);
        i += 1;
    }
    proof {
        assert(res@ =~= p@);
    }
    res
}

/// Exact structural equality of two move sequences.
pub fn path_eq(a: &Vec<Rotation>, b: &Vec<Rotation>) -> (r: bool)
    ensures
        r <==> a@ == b@,
{
    if a.len() != b.len() {
        return false;
    }
    let n = a.len();
    let mut i: usize = 0;
    while i < n
        invariant
            n == a@.len(),
            a@.len() == b@.len(),
            i <= n,
            forall|k: int| 0 <= k < i ==> a@[k] == b@[k],
        decreases n - i,
    {
        if a[i] != b[i] {
            return false;
        }
        i += 1;
    }
    proof {
        assert(a@ =~= b@);
    }
    true
}

/// Whether a state already occurs among the states of the current path.
fn contains_state(v: &Vec<CubeState>, s: &CubeState) -> (r: bool)
    requires
        s.wf(),
        forall|i: int| 0 <= i < v@.len() ==> (#[trigger] v@[i]).wf(),
    ensures
        r <==> exists|i: int| 0 <= i < v@.len() && v@[i]@ == s@,
{
    let n = v.len();
    let mut i: usize = 0;
    while i < n
        invariant
            n == v@.len(),
            i <= n,
            s.wf(),
            forall|k: int| 0 <= k < v@.len() ==> (#[trigger] v@[k]).wf(),
            forall|k: int| 0 <= k < i ==> (#[trigger] v@[k])@ != s@,
        decreases n - i,
    {
        if v[i].eq_state(s) {
            return true;
        }
        i += 1;
    }
    false
}

/// The forward path followed by the backward path read back to front: the
/// full solution in forward move order.
fn make_complete(f: &Vec<Rotation>, back: &Vec<Rotation>) -> (res: Vec<Rotation>)
    ensures
        res@ == f@ + back@.reverse(),
{
    let mut res = copy_path(f);
    let n = back.len();
    proof {
        assert(res@ =~= f@ + back@.reverse().subrange(0, 0));
    }
    let mut k: usize = 0;
    while k < n
        invariant
            n == back@.len(),
            k <= n,
            res@ == f@ + back@.reverse().subrange(0, k as int),
        decreases n - k,
    {
        let x = back[n - 1 - k];
        res.push(x);
        proof {
            assert(res@ =~= f@ + back@.reverse().subrange(0, k as int + 1));
        }
        k += 1;
    }
    proof {
        assert(back@.reverse().subrange(0, back@.len() as int) =~= back@.reverse());
    }
    res
}

/// The move sequence `q` is a forward path of the frontier followed by a
/// backward stretch shorter than the backward split depth: the shape of every
/// solution the backward pass reconstructs.
pub open spec fn joins_frontier(
    frontier: Seq<(CubeState, Vec<Rotation>)>,
    depth: int,
    q: Seq<Rotation>,
) -> bool {
    exists|i: int|
        0 <= i < frontier.len() && (#[trigger] frontier[i]).1@ == q.subrange(
            0,
            frontier[i].1@.len() as int,
        ) && frontier[i].1@.len() <= q.len() && q.len() < frontier[i].1@.len() + depth
}

/// One bounded bidirectional search: the frontier reached by the forward
/// pass, the solutions found so far, and the fixed endpoints and window.
pub struct Solver {
    /// Frontier table: each forward path of split depth, with the state it
    /// reaches. Several entries may share a state.
    pub middle_states: Vec<(CubeState, Vec<Rotation>)>,
    /// The distinct solutions recorded so far.
    pub found_solutions: Vec<Vec<Rotation>>,
    /// The state every solution starts from.
    pub initial_state: CubeState,
    /// The state every solution must reach.
    pub desired_state: CubeState,
    /// Least accepted solution length.
    pub min_moves: u8,
    /// Greatest accepted solution length.
    pub max_moves: u8,
}

impl Solver {
    /// Both endpoint states are well formed.
    pub open spec fn wf(self) -> bool {
        self.initial_state.wf() && self.desired_state.wf()
    }

    /// Depth past which the forward pass records the frontier and stops.
    pub open spec fn first_depth(self) -> int {
        if self.max_moves / 2 >= 1 {
            (self.max_moves / 2) as int
        } else {
            1
        }
    }

    /// Depth at which the backward pass stops.
    pub open spec fn second_depth(self) -> int {
        (self.max_moves as int + 1) / 2
    }

    /// What it means for a move sequence to solve this search: its length
    /// lies in the window and it carries the initial state to the desired one.
    pub open spec fn is_solution(self, p: Seq<Rotation>) -> bool {
        self.min_moves as int <= p.len() <= self.max_moves as int && apply_path(
            self.initial_state@,
            p,
        ) == self.desired_state@
    }

    /// The recorded solutions contain this move sequence.
    pub open spec fn found_contains(self, p: Seq<Rotation>) -> bool {
        exists|i: int| 0 <= i < self.found_solutions@.len() && self.found_solutions@[i]@ == p
    }

    /// Every recorded sequence really is a solution.
    pub open spec fn found_ok(self) -> bool {
        forall|p: Seq<Rotation>| #[trigger] self.found_contains(p) ==> self.is_solution(p)
    }

    /// No move sequence is recorded twice.
    pub open spec fn found_nodup(self) -> bool {
        forall|i: int, j: int|
            0 <= i < j < self.found_solutions@.len() ==> self.found_solutions@[i]@
                != self.found_solutions@[j]@
    }

    /// One frontier entry as the forward pass records it: a well-formed state
    /// reached from the initial state by a path of length exactly the forward
    /// split depth plus one, along which no visited state (the recorded one
    /// included) is the desired state and no state repeats.
    pub open spec fn frontier_entry_ok(self, e: (CubeState, Vec<Rotation>)) -> bool {
        e.0.wf() && e.1@.len() == self.first_depth() + 1 && apply_path(
            self.initial_state@,
            e.1@,
        ) == e.0@ && (forall|j: int|
            0 <= j <= e.1@.len() ==> apply_path(
                self.initial_state@,
                #[trigger] e.1@.subrange(0, j),
            ) != self.desired_state@) && (forall|j1: int, j2: int|
            #![trigger e.1@.subrange(0, j1), e.1@.subrange(0, j2)]
            0 <= j1 < j2 <= e.1@.len() ==> apply_path(self.initial_state@, e.1@.subrange(0, j1))
                != apply_path(self.initial_state@, e.1@.subrange(0, j2)))
    }

    /// Every frontier entry is one the forward pass could have recorded.
    pub open spec fn frontier_ok(self) -> bool {
        forall|i: int|
            0 <= i < self.middle_states@.len() ==> self.frontier_entry_ok(
                #[trigger] self.middle_states@[i],
            )
    }

    /// During the forward traversal at a state with `plen` moves played and
    /// the states `prevs` on the current branch: the single move `m` completes
    /// a solution that the traversal is obliged to record — it reaches the
    /// desired state, inside the window, from a state the traversal descends
    /// from, along a branch that no pruning rule cuts.
    pub open spec fn one_more_move_hits(
        self,
        state: Seq<Color>,
        plen: int,
        prevs: Seq<CubeState>,
        m: Rotation,
    ) -> bool {
        state_after(state, m) == self.desired_state@ && state != self.desired_state@
            && self.min_moves as int <= plen + 1 <= self.max_moves as int && plen
            <= self.first_depth() && (forall|k: int|
            0 <= k < prevs.len() ==> (#[trigger] prevs[k])@ != self.desired_state@)
    }

    /// During the backward traversal at a state with `plen` backward moves
    /// played and the states `prevs` on the current branch: one backward step
    /// with `rot` lands on the state of frontier entry `i` with the combined
    /// length in the window, along a branch no stopping rule cuts — the pass
    /// is then obliged to record the joined solution.
    pub open spec fn one_step_back_joins(
        self,
        state: Seq<Color>,
        plen: int,
        prevs: Seq<CubeState>,
        rot: Rotation,
        i: int,
    ) -> bool {
        state != self.initial_state@ && plen + 1 < self.second_depth() && (forall|k: int|
            0 <= k < self.middle_states@.len() ==> (#[trigger] self.middle_states@[k]).0@
                != state) && state_after(state, rot) != self.initial_state@ && state_after(
            state,
            rot,
        ) != state && (forall|k: int|
            0 <= k < prevs.len() ==> (#[trigger] prevs[k])@ != state_after(state, rot)) && 0 <= i
            < self.middle_states@.len() && self.middle_states@[i].0@ == state_after(state, rot)
            && self.min_moves as int <= self.middle_states@[i].1@.len() + plen + 1
            <= self.max_moves as int
    }

    /// The single move `m` carries the initial state to the desired state,
    /// the two differ, and one move lies inside the window.
    pub open spec fn single_move_solution(self, m: Rotation) -> bool {
        state_after(self.initial_state@, m) == self.desired_state@ && self.initial_state@
            != self.desired_state@ && self.min_moves as int <= 1 <= self.max_moves as int
    }

    /// The endpoints and the window are those of the other solver value.
    pub open spec fn same_config(self, other: Solver) -> bool {
        self.initial_state == other.initial_state && self.desired_state == other.desired_state
            && self.min_moves == other.min_moves && self.max_moves == other.max_moves
    }

    /// A fresh search over the given endpoints and window, with an empty
    /// frontier and no solutions.
    pub fn new(
        initial_state: &CubeState,
        desired_state: &CubeState,
        min_moves: u8,
        max_moves: u8,
    ) -> (s: Solver)
        requires
            initial_state.wf(),
            desired_state.wf(),
        ensures
            s.wf(),
            s.initial_state@ == initial_state@,
            s.desired_state@ == desired_state@,
            s.min_moves == min_moves,
            s.max_moves == max_moves,
            s.middle_states@.len() == 0,
            s.found_solutions@.len() == 0,
            s.frontier_ok(),
            s.found_ok(),
            s.found_nodup(),
    {
        Solver {
            middle_states: Vec::new(),
            found_solutions: Vec::new(),
            initial_state: initial_state.duplicate(),
            desired_state: desired_state.duplicate(),
            min_moves,
            max_moves,
        }
    }

    /// Records a solution unless an equal sequence is already recorded.
    fn insert_found(&mut self, sol: Vec<Rotation>)
        ensures
            final(self).middle_states == old(self).middle_states,
            final(self).initial_state == old(self).initial_state,
            final(self).desired_state == old(self).desired_state,
            final(self).min_moves == old(self).min_moves,
            final(self).max_moves == old(self).max_moves,
            forall|p: Seq<Rotation>|
                final(self).found_contains(p) <==> old(self).found_contains(p) || p == sol@,
            old(self).found_nodup() ==> final(self).found_nodup(),
    {
        let n = self.found_solutions.len();
        let mut i: usize = 0;
        while i < n
            invariant
                n == self.found_solutions@.len(),
                i <= n,
                *self == *old(self),
                forall|k: int| 0 <= k < i ==> self.found_solutions@[k]@ != sol@,
            decreases n - i,
        {
            if path_eq(&self.found_solutions[i], &sol) {
                return;
            }
            i += 1;
        }
        let ghost snap = sol@;
        self.found_solutions.push(sol);
        proof {
            let olen = old(self).found_solutions@.len() as int;
            assert forall|p: Seq<Rotation>|
                self.found_contains(p) <==> (old(self).found_contains(p) || p == snap) by {
                if p == snap {
                    assert(self.found_solutions@[olen]@ == p);
                    assert(self.found_contains(p));
                }
                if old(self).found_contains(p) {
                    let w = choose|w: int|
                        0 <= w < old(self).found_solutions@.len() && old(
                            self,
                        ).found_solutions@[w]@ == p;
                    assert(self.found_solutions@[w]@ == p);
                    assert(self.found_contains(p));
                }
                if self.found_contains(p) {
                    let w = choose|w: int|
                        0 <= w < self.found_solutions@.len() && self.found_solutions@[w]@ == p;
                    if w < olen {
                        assert(old(self).found_solutions@[w]@ == p);
                        assert(old(self).found_contains(p));
                    } else {
                        assert(p == snap);
                    }
                }
            }
        }
    }

    /// The forward depth-first traversal. Visits every move path from the
    /// initial state, pruning paths that revisit a state of the current
    /// branch; records a solution when the desired state is met inside the
    /// window, and records the frontier once the path passes the split depth.
    fn first_pass_(
        &mut self,
        state: CubeState,
        prev_states: &mut Vec<CubeState>,
        path: &mut Vec<Rotation>,
    )
        requires
            old(self).wf(),
            state.wf(),
            old(self).frontier_ok(),
            old(self).found_ok(),
            old(self).found_nodup(),
            forall|i: int|
                0 <= i < old(prev_states)@.len() ==> (#[trigger] old(prev_states)@[i]).wf(),
            apply_path(old(self).initial_state@, old(path)@) == state@,
            old(path)@.len() <= old(self).first_depth() + 1,
            old(prev_states)@.len() == old(path)@.len(),
            forall|j: int|
                0 <= j < old(path)@.len() ==> (#[trigger] old(prev_states)@[j])@ == apply_path(
                    old(self).initial_state@,
                    old(path)@.subrange(0, j),
                ),
            forall|j: int|
                0 <= j < old(prev_states)@.len() ==> (#[trigger] old(prev_states)@[j])@ != old(
                    self,
                ).desired_state@,
            forall|j1: int, j2: int|
                #![trigger old(prev_states)@[j1], old(prev_states)@[j2]]
                0 <= j1 < j2 < old(prev_states)@.len() ==> old(prev_states)@[j1]@ != old(
                    prev_states,
                )@[j2]@,
            forall|j: int|
                0 <= j < old(prev_states)@.len() ==> (#[trigger] old(prev_states)@[j])@ != state@,
        ensures
            final(self).wf(),
            final(self).same_config(*old(self)),
            final(self).frontier_ok(),
            final(self).found_ok(),
            final(self).found_nodup(),
            final(prev_states)@ == old(prev_states)@,
            final(path)@ == old(path)@,
            forall|p: Seq<Rotation>|
                old(self).found_contains(p) ==> final(self).found_contains(p),
            (state@ == old(self).desired_state@ && old(self).min_moves as int <= old(
                path,
            )@.len() <= old(self).max_moves as int) ==> final(self).found_contains(old(path)@),
            forall|m: Rotation|
                #[trigger] old(self).one_more_move_hits(
                    state@,
                    old(path)@.len() as int,
                    old(prev_states)@,
                    m,
                ) ==> final(self).found_contains(old(path)@.push(m)),
            forall|q: Seq<Rotation>| #[trigger]
                final(self).found_contains(q) ==> old(self).found_contains(q) || q.len() <= old(
                    self,
                ).first_depth() + 1,
        decreases old(self).first_depth() + 1 - old(path)@.len(),
    {
        let ghost entry_path = path@;
        if state.eq_state(&self.desired_state) {
            if self.min_moves as usize <= path.len() && path.len() <= self.max_moves as usize {
                let sol = copy_path(path);
                proof {
                    assert(old(self).is_solution(entry_path));
                }
                self.insert_found(sol);
                proof {
                    assert forall|p: Seq<Rotation>| #[trigger]
                        self.found_contains(p) implies self.is_solution(p) by {
                        assert(self.found_contains(p) <==> (old(self).found_contains(p) || p
                            == entry_path));
                        if p == entry_path {
                            assert(self.is_solution(p));
                        } else {
                            assert(old(self).found_contains(p));
                            assert(old(self).is_solution(p));
                        }
                    }
                    assert forall|p: Seq<Rotation>|
                        old(self).found_contains(p) implies #[trigger] self.found_contains(
                        p,
                    ) by {
                        assert(self.found_contains(p) <==> (old(self).found_contains(p) || p
                            == entry_path));
                    }
                    assert forall|q: Seq<Rotation>| #[trigger]
                        self.found_contains(q) implies old(self).found_contains(q) || q.len()
                        <= old(self).first_depth() + 1 by {
                        assert(self.found_contains(q) <==> (old(self).found_contains(q) || q
                            == entry_path));
                    }
                }
            }
            return ;
        }
        let d1: u8 = if self.max_moves / 2 >= 1 {
            self.max_moves / 2
        } else {
            1
        };
        if path.len() > d1 as usize {
            let dup = state.duplicate();
            let fpath = copy_path(path);
            let ghost before = self.middle_states@;
            let ghost entry = (dup, fpath);
            self.middle_states.push((dup, fpath));
            proof {
                assert(entry.1@ == entry_path);
                assert(entry.1@.len() == self.first_depth() + 1);
                assert forall|j: int|
                    0 <= j <= entry.1@.len() implies apply_path(
                    self.initial_state@,
                    #[trigger] entry.1@.subrange(0, j),
                ) != self.desired_state@ by {
                    if j < entry_path.len() {
                        assert((#[trigger] old(prev_states)@[j])@ == apply_path(
                            self.initial_state@,
                            entry_path.subrange(0, j),
                        ));
                    } else {
                        assert(entry_path.subrange(0, j) =~= entry_path);
                    }
                }
                assert forall|j1: int, j2: int|
                    #![trigger entry.1@.subrange(0, j1), entry.1@.subrange(0, j2)]
                    0 <= j1 < j2 <= entry.1@.len() implies apply_path(
                    self.initial_state@,
                    entry.1@.subrange(0, j1),
                ) != apply_path(self.initial_state@, entry.1@.subrange(0, j2)) by {
                    assert((#[trigger] old(prev_states)@[j1])@ == apply_path(
                        self.initial_state@,
                        entry_path.subrange(0, j1),
                    ));
                    if j2 < entry_path.len() {
                        assert((#[trigger] old(prev_states)@[j2])@ == apply_path(
                            self.initial_state@,
                            entry_path.subrange(0, j2),
                        ));
                    } else {
                        assert(entry_path.subrange(0, j2) =~= entry_path);
                        assert(old(prev_states)@[j1]@ != state@);
                    }
                }
                assert(self.frontier_entry_ok(entry));
                assert forall|i: int|
                    0 <= i < self.middle_states@.len() implies self.frontier_entry_ok(
                    #[trigger] self.middle_states@[i],
                ) by {
                    if i < before.len() {
                        assert(self.middle_states@[i] == before[i]);
                        assert(old(self).frontier_entry_ok(before[i]));
                    } else {
                        assert(self.middle_states@[i] == entry);
                    }
                }
                assert forall|p: Seq<Rotation>| #[trigger]
                    self.found_contains(p) <==> old(self).found_contains(p) by {
                    assert(self.found_solutions@ == old(self).found_solutions@);
                }
                assert forall|p: Seq<Rotation>| #[trigger]
                    self.found_contains(p) implies self.is_solution(p) by {
                    assert(old(self).found_contains(p));
                    assert(old(self).is_solution(p));
                }
            }
            return ;
        }
        let dup = state.duplicate();
        let ghost snap = dup;
        prev_states.push(dup);
        let mut idx: usize = 0;
        while idx < 18
            invariant
                self.wf(),
                state.wf(),
                self.same_config(*old(self)),
                self.frontier_ok(),
                self.found_ok(),
                self.found_nodup(),
                forall|p: Seq<Rotation>|
                    old(self).found_contains(p) ==> self.found_contains(p),
                prev_states@ == old(prev_states)@.push(snap),
                snap.wf(),
                snap@ == state@,
                forall|i: int| 0 <= i < prev_states@.len() ==> (#[trigger] prev_states@[i]).wf(),
                path@ == entry_path,
                entry_path == old(path)@,
                entry_path.len() <= self.first_depth(),
                apply_path(self.initial_state@, entry_path) == state@,
                state@ != self.desired_state@,
                old(prev_states)@.len() == entry_path.len(),
                forall|j: int|
                    0 <= j < entry_path.len() ==> (#[trigger] old(prev_states)@[j])@
                        == apply_path(self.initial_state@, entry_path.subrange(0, j)),
                forall|j: int|
                    0 <= j < old(prev_states)@.len() ==> (#[trigger] old(prev_states)@[j])@
                        != self.desired_state@,
                forall|j1: int, j2: int|
                    #![trigger old(prev_states)@[j1], old(prev_states)@[j2]]
                    0 <= j1 < j2 < old(prev_states)@.len() ==> old(prev_states)@[j1]@ != old(
                        prev_states,
                    )@[j2]@,
                forall|j: int|
                    0 <= j < old(prev_states)@.len() ==> (#[trigger] old(prev_states)@[j])@
                        != state@,
                idx <= 18,
                forall|m: Rotation|
                    (#[trigger] old(self).one_more_move_hits(
                        state@,
                        entry_path.len() as int,
                        old(prev_states)@,
                        m,
                    ) && m.spec_order() < idx) ==> self.found_contains(entry_path.push(m)),
                forall|q: Seq<Rotation>| #[trigger]
                    self.found_contains(q) ==> old(self).found_contains(q) || q.len() <= old(
                        self,
                    ).first_depth() + 1,
            decreases 18 - idx,

        {
            let rot = rotation_of(idx);
            let new_state = state.rotate(rot);
            if !contains_state(prev_states, &new_state) {
                path.push(rot);
                proof {
                    lemma_apply_path_push(self.initial_state@, entry_path, rot);
                    assert(path@.len() == entry_path.len() + 1);
                    assert(self.first_depth() == old(self).first_depth());
                    assert(self.first_depth() + 1 - path@.len() >= 0);
                    assert(prev_states@.len() == path@.len());
                    assert forall|j: int|
                        0 <= j < path@.len() implies (#[trigger] prev_states@[j])@ == apply_path(
                        self.initial_state@,
                        path@.subrange(0, j),
                    ) by {
                        if j < entry_path.len() {
                            assert(prev_states@[j] == old(prev_states)@[j]);
                            assert(path@.subrange(0, j) =~= entry_path.subrange(0, j));
                        } else {
                            assert(prev_states@[j] == snap);
                            assert(path@.subrange(0, j) =~= entry_path);
                        }
                    }
                    assert forall|j: int|
                        0 <= j < prev_states@.len() implies (#[trigger] prev_states@[j])@
                        != self.desired_state@ by {
                        if j < entry_path.len() {
                            assert(prev_states@[j] == old(prev_states)@[j]);
                        } else {
                            assert(prev_states@[j] == snap);
                        }
                    }
                    assert forall|j1: int, j2: int|
                        #![trigger prev_states@[j1], prev_states@[j2]]
                        0 <= j1 < j2 < prev_states@.len() implies prev_states@[j1]@
                        != prev_states@[j2]@ by {
                        assert(prev_states@[j1] == old(prev_states)@[j1]);
                        if j2 < entry_path.len() {
                            assert(prev_states@[j2] == old(prev_states)@[j2]);
                        } else {
                            assert(prev_states@[j2] == snap);
                        }
                    }
                    assert forall|j: int|
                        0 <= j < prev_states@.len() implies (#[trigger] prev_states@[j])@
                        != new_state@ by {}
                }
                self.first_pass_(new_state, prev_states, path);
                path.pop();
                proof {
                    assert(path@ =~= entry_path);
                }
            } else {
                proof {
                    if old(self).one_more_move_hits(
                        state@,
                        entry_path.len() as int,
                        old(prev_states)@,
                        rot,
                    ) {
                        let k = choose|k: int|
                            0 <= k < prev_states@.len() && prev_states@[k]@ == new_state@;
                        if k < old(prev_states)@.len() {
                            assert(old(prev_states)@[k]@ != old(self).desired_state@);
                        } else {
                            assert(prev_states@[k]@ == state@);
                        }
                        assert(false);
                    }
                }
            }
            proof {
                assert forall|m: Rotation|
                    (#[trigger] old(self).one_more_move_hits(
                        state@,
                        entry_path.len() as int,
                        old(prev_states)@,
                        m,
                    ) && m.spec_order() < idx + 1) implies self.found_contains(
                    entry_path.push(m),
                ) by {
                    if m.spec_order() == idx {
                        crate::rotation::lemma_order_injective(m, rot);
                    }
                }
            }
            idx += 1;
        }
        prev_states.pop();
        proof {
            assert(prev_states@ =~= old(prev_states)@);
        }
    }

    /// Runs the forward traversal from the initial state with an empty path.
    /// Besides preserving the solver's invariants it is obliged to record the
    /// empty solution when the endpoints are equal inside the window, to
    /// record every single-move solution the window admits, and to record
    /// nothing longer than the forward split depth plus one.
    pub fn first_pass(&mut self)
        requires
            old(self).wf(),
            old(self).frontier_ok(),
            old(self).found_ok(),
            old(self).found_nodup(),
        ensures
            final(self).wf(),
            final(self).same_config(*old(self)),
            final(self).frontier_ok(),
            final(self).found_ok(),
            final(self).found_nodup(),
            forall|p: Seq<Rotation>|
                old(self).found_contains(p) ==> final(self).found_contains(p),
            (old(self).initial_state@ == old(self).desired_state@ && old(self).min_moves == 0)
                ==> final(self).found_contains(Seq::<Rotation>::empty()),
            forall|m: Rotation|
                #[trigger] old(self).single_move_solution(m) ==> final(self).found_contains(
                    seq![m],
                ),
            forall|q: Seq<Rotation>| #[trigger]
                final(self).found_contains(q) ==> old(self).found_contains(q) || q.len() <= old(
                    self,
                ).first_depth() + 1,
    {
        let start = self.initial_state.duplicate();
        let mut prev_states: Vec<CubeState> = Vec::new();
        let mut path: Vec<Rotation> = Vec::new();
        proof {
            assert(path@ =~= Seq::<Rotation>::empty());
            assert(prev_states@ =~= Seq::<CubeState>::empty());
        }
        self.first_pass_(start, &mut prev_states, &mut path);
        proof {
            assert forall|m: Rotation|
                #[trigger] old(self).single_move_solution(m) implies self.found_contains(
                seq![m],
            ) by {
                assert(old(self).one_more_move_hits(
                    old(self).initial_state@,
                    0,
                    Seq::<CubeState>::empty(),
                    m,
                ));
                assert(Seq::<Rotation>::empty().push(m) =~= seq![m]);
            }
        }
    }

    /// The backward depth-first traversal. Walks from the desired state by
    /// reversed moves, recording the un-reversed move each step so the path,
    /// read back to front, continues a forward path; probes the frontier at
    /// every visited state and joins each matching forward path whose combined
    /// length lies in the window. A branch stops at the initial state, at the
    /// backward split depth, or once it has met the frontier.
    fn second_pass_(
        &mut self,
        state: CubeState,
        prev_states: &mut Vec<CubeState>,
        path: &mut Vec<Rotation>,
    )
        requires
            old(self).wf(),
            state.wf(),
            old(self).frontier_ok(),
            old(self).found_ok(),
            old(self).found_nodup(),
            forall|i: int|
                0 <= i < old(prev_states)@.len() ==> (#[trigger] old(prev_states)@[i]).wf(),
            apply_path(state@, old(path)@.reverse()) == old(self).desired_state@,
            old(path)@.len() <= old(self).second_depth(),
        ensures
            final(self).wf(),
            final(self).same_config(*old(self)),
            final(self).middle_states == old(self).middle_states,
            final(self).frontier_ok(),
            final(self).found_ok(),
            final(self).found_nodup(),
            final(prev_states)@ == old(prev_states)@,
            final(path)@ == old(path)@,
            forall|p: Seq<Rotation>|
                old(self).found_contains(p) ==> final(self).found_contains(p),
            state@ == old(self).initial_state@ ==> *final(self) == *old(self),
            (state@ != old(self).initial_state@ && old(path)@.len() < old(self).second_depth())
                ==> forall|i: int|
                (0 <= i < old(self).middle_states@.len() && (#[trigger] old(
                    self,
                ).middle_states@[i]).0@ == state@ && old(self).min_moves as int <= old(
                    self,
                ).middle_states@[i].1@.len() + old(path)@.len() <= old(self).max_moves as int)
                    ==> final(self).found_contains(
                    old(self).middle_states@[i].1@ + old(path)@.reverse(),
                ),
            forall|q: Seq<Rotation>| #[trigger]
                final(self).found_contains(q) ==> old(self).found_contains(q) || joins_frontier(
                    old(self).middle_states@,
                    old(self).second_depth(),
                    q,
                ),
            forall|rot: Rotation, i: int|
                #[trigger] old(self).one_step_back_joins(
                    state@,
                    old(path)@.len() as int,
                    old(prev_states)@,
                    rot,
                    i,
                ) ==> final(self).found_contains(
                    old(self).middle_states@[i].1@ + old(path)@.push(rot.spec_reverse()).reverse(),
                ),
        decreases old(self).second_depth() + 1 - old(path)@.len(),
    {
        let ghost entry_path = path@;
        if state.eq_state(&self.initial_state) {
            return ;
        }
        let d2 = (self.max_moves as usize + 1) / 2;
        if path.len() >= d2 {
            return ;
        }
        let mut matched = false;
        let n = self.middle_states.len();
        let mut k: usize = 0;
        while k < n
            invariant
                self.wf(),
                state.wf(),
                self.same_config(*old(self)),
                self.middle_states == old(self).middle_states,
                n == self.middle_states@.len(),
                k <= n,
                self.frontier_ok(),
                self.found_ok(),
                self.found_nodup(),
                forall|p: Seq<Rotation>|
                    old(self).found_contains(p) ==> self.found_contains(p),
                path@ == entry_path,
                entry_path == old(path)@,
                entry_path.len() < self.second_depth(),
                apply_path(state@, entry_path.reverse()) == self.desired_state@,
                forall|i: int|
                    (0 <= i < k && (#[trigger] self.middle_states@[i]).0@ == state@
                        && self.min_moves as int <= self.middle_states@[i].1@.len()
                        + entry_path.len() <= self.max_moves as int) ==> self.found_contains(
                        self.middle_states@[i].1@ + entry_path.reverse(),
                    ),
                !matched ==> forall|i: int|
                    0 <= i < k ==> (#[trigger] self.middle_states@[i]).0@ != state@,
                matched ==> exists|i: int|
                    0 <= i < k && (#[trigger] self.middle_states@[i]).0@ == state@,
                forall|q: Seq<Rotation>| #[trigger]
                    self.found_contains(q) ==> old(self).found_contains(q) || joins_frontier(
                        old(self).middle_states@,
                        old(self).second_depth(),
                        q,
                    ),
            decreases n - k,
        {
            let is_match = self.middle_states[k].0.eq_state(&state);
            if is_match {
                matched = true;
                let ghost fseq = self.middle_states@[k as int].1@;
                let flen = self.middle_states[k].1.len();
                let total = flen + path.len();
                if self.min_moves as usize <= total && total <= self.max_moves as usize {
                    let complete = make_complete(&self.middle_states[k].1, path);
                    let ghost before = *self;
                    proof {
                        lemma_apply_path_concat(
                            self.initial_state@,
                            fseq,
                            entry_path.reverse(),
                        );
                        assert(complete@.len() == flen + entry_path.len());
                        assert(self.is_solution(complete@));
                    }
                    self.insert_found(complete);
                    proof {
                        assert forall|p: Seq<Rotation>| #[trigger]
                            self.found_contains(p) implies self.is_solution(p) by {
                            assert(self.found_contains(p) <==> (before.found_contains(p) || p
                                == fseq + entry_path.reverse()));
                            if p == fseq + entry_path.reverse() {
                                assert(before.is_solution(p));
                            } else {
                                assert(before.found_contains(p));
                                assert(before.is_solution(p));
                            }
                        }
                        assert forall|p: Seq<Rotation>|
                            old(self).found_contains(p) implies #[trigger] self.found_contains(
                            p,
                        ) by {
                            assert(before.found_contains(p));
                            assert(self.found_contains(p) <==> (before.found_contains(p) || p
                                == fseq + entry_path.reverse()));
                        }
                        assert(self.found_contains(fseq + entry_path.reverse()));
                        assert forall|i: int|
                            (0 <= i < k + 1 && (#[trigger] self.middle_states@[i]).0@ == state@
                                && self.min_moves as int <= self.middle_states@[i].1@.len()
                                + entry_path.len() <= self.max_moves as int) implies self
                            .found_contains(
                            self.middle_states@[i].1@ + entry_path.reverse(),
                        ) by {
                            if i < k {
                                assert(before.found_contains(
                                    self.middle_states@[i].1@ + entry_path.reverse(),
                                ));
                                assert(self.found_contains(
                                    self.middle_states@[i].1@ + entry_path.reverse(),
                                ) <==> (before.found_contains(
                                    self.middle_states@[i].1@ + entry_path.reverse(),
                                ) || self.middle_states@[i].1@ + entry_path.reverse() == fseq
                                    + entry_path.reverse()));
                            }
                        }
                        assert forall|q: Seq<Rotation>| #[trigger]
                            self.found_contains(q) implies old(self).found_contains(q)
                            || joins_frontier(
                            old(self).middle_states@,
                            old(self).second_depth(),
                            q,
                        ) by {
                            assert(self.found_contains(q) <==> (before.found_contains(q) || q
                                == fseq + entry_path.reverse()));
                            if q == fseq + entry_path.reverse() {
                                assert((fseq + entry_path.reverse()).subrange(
                                    0,
                                    fseq.len() as int,
                                ) =~= fseq);
                                assert(old(self).middle_states@[k as int].1@ == q.subrange(
                                    0,
                                    old(self).middle_states@[k as int].1@.len() as int,
                                ));
                                assert(joins_frontier(
                                    old(self).middle_states@,
                                    old(self).second_depth(),
                                    q,
                                ));
                            }
                        }
                    }
                }
            }
            k += 1;
        }
        if matched {
            return ;
        }
        let dup = state.duplicate();
        let ghost snap = dup;
        prev_states.push(dup);
        let mut idx: usize = 0;
        while idx < 18
            invariant
                self.wf(),
                state.wf(),
                self.same_config(*old(self)),
                self.middle_states == old(self).middle_states,
                self.frontier_ok(),
                self.found_ok(),
                self.found_nodup(),
                forall|p: Seq<Rotation>|
                    old(self).found_contains(p) ==> self.found_contains(p),
                prev_states@ == old(prev_states)@.push(snap),
                snap.wf(),
                snap@ == state@,
                forall|i: int| 0 <= i < prev_states@.len() ==> (#[trigger] prev_states@[i]).wf(),
                path@ == entry_path,
                entry_path == old(path)@,
                entry_path.len() < self.second_depth(),
                apply_path(state@, entry_path.reverse()) == self.desired_state@,
                forall|i: int|
                    0 <= i < self.middle_states@.len() ==> (#[trigger] self.middle_states@[i]).0@
                        != state@,
                forall|q: Seq<Rotation>| #[trigger]
                    self.found_contains(q) ==> old(self).found_contains(q) || joins_frontier(
                        old(self).middle_states@,
                        old(self).second_depth(),
                        q,
                    ),
                forall|rot: Rotation, i: int|
                    (#[trigger] old(self).one_step_back_joins(
                        state@,
                        entry_path.len() as int,
                        old(prev_states)@,
                        rot,
                        i,
                    ) && rot.spec_order() < idx) ==> self.found_contains(
                        old(self).middle_states@[i].1@ + entry_path.push(
                            rot.spec_reverse(),
                        ).reverse(),
                    ),
                idx <= 18,
            decreases 18 - idx,
        {
            let rot = rotation_of(idx);
            let new_state = state.rotate(rot);
            if !contains_state(prev_states, &new_state) {
                let rev = rot.reverse();
                path.push(rev);
                proof {
                    lemma_reverse_push(entry_path, rev);
                    lemma_apply_path_cons(new_state@, rev, entry_path.reverse());
                    lemma_rotate_reverse(state@, rot);
                    assert(apply_path(new_state@, path@.reverse()) == self.desired_state@);
                }
                self.second_pass_(new_state, prev_states, path);
                path.pop();
                proof {
                    assert(path@ =~= entry_path);
                }
            } else {
                proof {
                    if exists|i: int|
                        old(self).one_step_back_joins(
                            state@,
                            entry_path.len() as int,
                            old(prev_states)@,
                            rot,
                            i,
                        ) {
                        let k = choose|k: int|
                            0 <= k < prev_states@.len() && prev_states@[k]@ == new_state@;
                        if k < old(prev_states)@.len() {
                            assert(old(prev_states)@[k]@ != state_after(state@, rot));
                        } else {
                            assert(prev_states@[k]@ == state@);
                        }
                        assert(false);
                    }
                }
            }
            proof {
                assert forall|rot2: Rotation, i: int|
                    (#[trigger] old(self).one_step_back_joins(
                        state@,
                        entry_path.len() as int,
                        old(prev_states)@,
                        rot2,
                        i,
                    ) && rot2.spec_order() < idx + 1) implies self.found_contains(
                    old(self).middle_states@[i].1@ + entry_path.push(
                        rot2.spec_reverse(),
                    ).reverse(),
                ) by {
                    if rot2.spec_order() == idx {
                        crate::rotation::lemma_order_injective(rot2, rot);
                    }
                }
            }
            idx += 1;
        }
        prev_states.pop();
        proof {
            assert(prev_states@ =~= old(prev_states)@);
        }
    }

    /// Runs the backward traversal from the desired state with an empty path.
    /// When the endpoints differ and the window admits at least one move,
    /// every frontier entry already standing at the desired state whose
    /// forward path lies in the window is recorded; when the endpoints are
    /// equal the pass stops at once and changes nothing; and every newly
    /// recorded solution is a frontier path joined with a backward stretch
    /// shorter than the backward split depth.
    pub fn second_pass(&mut self)
        requires
            old(self).wf(),
            old(self).frontier_ok(),
            old(self).found_ok(),
            old(self).found_nodup(),
        ensures
            final(self).wf(),
            final(self).same_config(*old(self)),
            final(self).middle_states == old(self).middle_states,
            final(self).frontier_ok(),
            final(self).found_ok(),
            final(self).found_nodup(),
            forall|p: Seq<Rotation>|
                old(self).found_contains(p) ==> final(self).found_contains(p),
            old(self).initial_state@ == old(self).desired_state@ ==> *final(self) == *old(self),
            (old(self).initial_state@ != old(self).desired_state@ && old(self).max_moves >= 1)
                ==> forall|i: int|
                (0 <= i < old(self).middle_states@.len() && (#[trigger] old(
                    self,
                ).middle_states@[i]).0@ == old(self).desired_state@ && old(self).min_moves as int
                    <= old(self).middle_states@[i].1@.len() <= old(self).max_moves as int)
                    ==> final(self).found_contains(old(self).middle_states@[i].1@),
            forall|q: Seq<Rotation>| #[trigger]
                final(self).found_contains(q) ==> old(self).found_contains(q) || joins_frontier(
                    old(self).middle_states@,
                    old(self).second_depth(),
                    q,
                ),
            forall|rot: Rotation, i: int|
                #[trigger] old(self).one_step_back_joins(
                    old(self).desired_state@,
                    0,
                    Seq::<CubeState>::empty(),
                    rot,
                    i,
                ) ==> final(self).found_contains(
                    old(self).middle_states@[i].1@ + seq![rot.spec_reverse()],
                ),
    {
        let start = self.desired_state.duplicate();
        let mut prev_states: Vec<CubeState> = Vec::new();
        let mut path: Vec<Rotation> = Vec::new();
        proof {
            assert(path@ =~= Seq::<Rotation>::empty());
            assert(path@.reverse() =~= Seq::<Rotation>::empty());
            assert(prev_states@ =~= Seq::<CubeState>::empty());
        }
        self.second_pass_(start, &mut prev_states, &mut path);
        proof {
            assert forall|rot: Rotation, i: int|
                #[trigger] old(self).one_step_back_joins(
                    old(self).desired_state@,
                    0,
                    Seq::<CubeState>::empty(),
                    rot,
                    i,
                ) implies self.found_contains(
                old(self).middle_states@[i].1@ + seq![rot.spec_reverse()],
            ) by {
                assert(old(self).one_step_back_joins(
                    start@,
                    0,
                    Seq::<CubeState>::empty(),
                    rot,
                    i,
                ));
                assert(self.found_contains(
                    old(self).middle_states@[i].1@ + Seq::<Rotation>::empty().push(
                        rot.spec_reverse(),
                    ).reverse(),
                ));
                assert(Seq::<Rotation>::empty().push(rot.spec_reverse()).reverse()
                    =~= seq![rot.spec_reverse()]);
            }
            if old(self).initial_state@ != old(self).desired_state@ && old(self).max_moves >= 1 {
                assert forall|i: int|
                    (0 <= i < old(self).middle_states@.len() && (#[trigger] old(
                        self,
                    ).middle_states@[i]).0@ == old(self).desired_state@ && old(
                        self,
                    ).min_moves as int <= old(self).middle_states@[i].1@.len() <= old(
                        self,
                    ).max_moves as int) implies self.found_contains(
                    old(self).middle_states@[i].1@,
                ) by {
                    assert(old(self).middle_states@[i].1@ + Seq::<Rotation>::empty().reverse()
                        =~= old(self).middle_states@[i].1@);
                    assert(self.found_contains(
                        old(self).middle_states@[i].1@ + Seq::<Rotation>::empty().reverse(),
                    ));
                }
            }
        }
    }

    /// Runs the forward pass, then the backward pass. Afterwards every
    /// recorded solution lies in the window and carries the initial state to
    /// the desired state, no solution is recorded twice, and with an empty
    /// window over equal endpoints the empty sequence has been recorded.
    pub fn solve(&mut self)
        requires
            old(self).wf(),
            old(self).frontier_ok(),
            old(self).found_ok(),
            old(self).found_nodup(),
        ensures
            final(self).wf(),
            final(self).same_config(*old(self)),
            final(self).frontier_ok(),
            final(self).found_ok(),
            final(self).found_nodup(),
            forall|p: Seq<Rotation>|
                old(self).found_contains(p) ==> final(self).found_contains(p),
            (old(self).initial_state@ == old(self).desired_state@ && old(self).min_moves == 0)
                ==> final(self).found_contains(Seq::<Rotation>::empty()),
            forall|m: Rotation|
                #[trigger] old(self).single_move_solution(m) ==> final(self).found_contains(
                    seq![m],
                ),
    {
        self.first_pass();
        self.second_pass();
    }

    /// The recorded solutions, copied out in recording order.
    pub fn collect_solutions(&self) -> (res: Vec<Vec<Rotation>>)
        ensures
            res@.len() == self.found_solutions@.len(),
            forall|i: int| 0 <= i < res@.len() ==> res@[i]@ == self.found_solutions@[i]@,
    {
        let mut res: Vec<Vec<Rotation>> = Vec::new();
        let n = self.found_solutions.len();
        let mut i: usize = 0;
        while i < n
            invariant
                n == self.found_solutions@.len(),
                i <= n,
                res@.len() == i,
                forall|k: int| 0 <= k < i ==> res@[k]@ == self.found_solutions@[k]@,
            decreases n - i,
        {
            res.push(copy_path(&self.found_solutions[i]));
            i += 1;
        }
        res
    }
}

/// With equal endpoints and the window fixed to zero moves, the solutions of
/// a sound, duplicate-free search that has recorded the empty sequence are
/// exactly that one empty sequence.
pub proof fn lemma_trivial_window_exact(s: Solver)
    requires
        s.found_ok(),
        s.found_nodup(),
        s.found_contains(Seq::<Rotation>::empty()),
        s.min_moves == 0,
        s.max_moves == 0,
    ensures
        s.found_solutions@.len() == 1,
        s.found_solutions@[0]@ == Seq::<Rotation>::empty(),
{
    assert forall|i: int|
        0 <= i < s.found_solutions@.len() implies #[trigger] s.found_solutions@[i]@ == Seq::<
        Rotation,
    >::empty() by {
        assert(s.found_contains(s.found_solutions@[i]@));
        assert(s.is_solution(s.found_solutions@[i]@));
        assert(s.found_solutions@[i]@ =~= Seq::<Rotation>::empty());
    }
    let w = choose|w: int|
        0 <= w < s.found_solutions@.len() && s.found_solutions@[w]@ == Seq::<Rotation>::empty();
    if s.found_solutions@.len() > 1 {
        assert(s.found_solutions@[0]@ == s.found_solutions@[1]@);
        assert(false);
    }
}

} // verus!
