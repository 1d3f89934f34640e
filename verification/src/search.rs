//! The driver-facing entry point: runs one bounded search per candidate move
//! count, merges the results into one lexicographically sorted, duplicate-free
//! collection, and applies the stopping heuristic.

use vstd::prelude::*;

use crate::cube::Color;
use crate::cube::CubeState;
use crate::cube::apply_path;
use crate::cube::state_after;
use crate::error::SolveError;
use crate::rotation::Rotation;
use crate::rotation::lemma_order_injective;
use crate::solver::Solver;
use crate::solver::path_eq;

verus! {

/// Strict lexicographic order on move sequences, by the fixed enumeration
/// rank of the moves; a proper prefix comes before its extensions.
pub open spec fn lex_lt(a: Seq<Rotation>, b: Seq<Rotation>) -> bool
    decreases a.len(),
{
    if b.len() == 0 {
        false
    } else if a.len() == 0 {
        true
    } else if a[0].spec_order() < b[0].spec_order() {
        true
    } else if a[0].spec_order() > b[0].spec_order() {
        false
    } else {
        lex_lt(a.subrange(1, a.len() as int), b.subrange(1, b.len() as int))
    }
}

/// Any two move sequences are ordered or equal.
pub proof fn lemma_lex_lt_trichotomy(a: Seq<Rotation>, b: Seq<Rotation>)
    ensures
        lex_lt(a, b) || lex_lt(b, a) || a == b,
    decreases a.len(),
{
    if b.len() == 0 && a.len() == 0 {
        assert(a =~= b);
    } else if a.len() > 0 && b.len() > 0 {
        if a[0].spec_order() == b[0].spec_order() {
            lemma_order_injective(a[0], b[0]);
            let at = a.subrange(1, a.len() as int);
            let bt = b.subrange(1, b.len() as int);
            lemma_lex_lt_trichotomy(at, bt);
            if !lex_lt(a, b) && !lex_lt(b, a) {
                assert(at == bt);
                assert forall|i: int| 0 <= i < a.len() implies a[i] == b[i] by {
                    if i >= 1 {
                        assert(a[i] == at[i - 1]);
                        assert(b[i] == bt[i - 1]);
                    }
                }
                assert(a =~= b);
            }
        }
    }
}

/// The lexicographic order is transitive.
pub proof fn lemma_lex_lt_trans(a: Seq<Rotation>, b: Seq<Rotation>, c: Seq<Rotation>)
    requires
        lex_lt(a, b),
        lex_lt(b, c),
    ensures
        lex_lt(a, c),
    decreases a.len(),
{
    if a.len() == 0 {
    } else {
        if a[0].spec_order() == b[0].spec_order() && b[0].spec_order() == c[0].spec_order() {
            lemma_lex_lt_trans(
                a.subrange(1, a.len() as int),
                b.subrange(1, b.len() as int),
                c.subrange(1, c.len() as int),
            );
        }
    }
}

/// Compares the tails of two move sequences from a common position on.
fn lex_lt_from(a: &Vec<Rotation>, b: &Vec<Rotation>, pos: usize) -> (r: bool)
    requires
        pos <= a@.len(),
        pos <= b@.len(),
    ensures
        r == lex_lt(a@.subrange(pos as int, a@.len() as int), b@.subrange(pos as int, b@.len() as int)),
    decreases a@.len() - pos,
{
    let ghost at = a@.subrange(pos as int, a@.len() as int);
    let ghost bt = b@.subrange(pos as int, b@.len() as int);
    if pos == b.len() {
        return false;
    }
    if pos == a.len() {
        return true;
    }
    proof {
        assert(at[0] == a@[pos as int]);
        assert(bt[0] == b@[pos as int]);
    }
    let ao = a[pos].order();
    let bo = b[pos].order();
    if ao < bo {
        return true;
    }
    if ao > bo {
        return false;
    }
    let r = lex_lt_from(a, b, pos + 1);
    proof {
        assert(at.subrange(1, at.len() as int) =~= a@.subrange(pos as int + 1, a@.len() as int));
        assert(bt.subrange(1, bt.len() as int) =~= b@.subrange(pos as int + 1, b@.len() as int));
    }
    r
}

/// Whether one move sequence comes strictly before another in the total order.
pub fn path_lt(a: &Vec<Rotation>, b: &Vec<Rotation>) -> (r: bool)
    ensures
        r == lex_lt(a@, b@),
{
    proof {
        assert(a@.subrange(0, a@.len() as int) =~= a@);
        assert(b@.subrange(0, b@.len() as int) =~= b@);
    }
    lex_lt_from(a, b, 0)
}

/// The collection is strictly sorted, hence free of duplicates.
pub open spec fn sorted_distinct(v: Seq<Vec<Rotation>>) -> bool {
    forall|i: int, j: int| 0 <= i < j < v.len() ==> lex_lt(v[i]@, v[j]@)
}

/// The collection contains this move sequence.
pub open spec fn solutions_contain(v: Seq<Vec<Rotation>>, p: Seq<Rotation>) -> bool {
    exists|i: int| 0 <= i < v.len() && v[i]@ == p
}

/// Every sequence of the collection has a length in the window and carries
/// the initial state to the desired state.
pub open spec fn all_valid(
    v: Seq<Vec<Rotation>>,
    init: Seq<Color>,
    desired: Seq<Color>,
    min_moves: u8,
    max_moves: u8,
) -> bool {
    forall|i: int|
        0 <= i < v.len() ==> min_moves as int <= (#[trigger] v[i])@.len() <= max_moves as int
            && apply_path(init, v[i]@) == desired
}

/// The first position whose element does not come before `sol`.
fn lower_bound(acc: &Vec<Vec<Rotation>>, sol: &Vec<Rotation>) -> (p: usize)
    requires
        sorted_distinct(acc@),
    ensures
        p <= acc@.len(),
        forall|k: int| 0 <= k < p ==> lex_lt((#[trigger] acc@[k])@, sol@),
        p < acc@.len() ==> !lex_lt(acc@[p as int]@, sol@),
{
    let n = acc.len();
    let mut p: usize = 0;
    while p < n
        invariant
            p <= n,
            n == acc@.len(),
            forall|k: int| 0 <= k < p ==> lex_lt((#[trigger] acc@[k])@, sol@),
        decreases n - p,
    {
        if !path_lt(&acc[p], sol) {
            return p;
        }
        p += 1;
    }
    p
}

/// Inserts a move sequence at its place in the total order, unless an equal
/// sequence is already present.
fn insert_solution(acc: &mut Vec<Vec<Rotation>>, sol: Vec<Rotation>)
    requires
        sorted_distinct(old(acc)@),
    ensures
        sorted_distinct(final(acc)@),
        forall|p: Seq<Rotation>|
            solutions_contain(final(acc)@, p) <==> solutions_contain(old(acc)@, p) || p == sol@,
{
    let ghost before = acc@;
    let p = lower_bound(acc, &sol);
    if p < acc.len() {
        if path_eq(&acc[p], &sol) {
            proof {
                assert(before[p as int]@ == sol@);
                assert(solutions_contain(before, sol@));
                assert forall|q: Seq<Rotation>|
                    solutions_contain(acc@, q) <==> (solutions_contain(before, q) || q
                        == sol@) by {
                    if q == sol@ {
                        assert(acc@[p as int]@ == q);
                    }
                }
            }
            return ;
        }
    }
    proof {
        if p < before.len() {
            lemma_lex_lt_trichotomy(before[p as int]@, sol@);
            assert(lex_lt(sol@, before[p as int]@));
            assert forall|k: int| p <= k < before.len() implies lex_lt(sol@, (#[trigger] before[k])@) by {
                if k > p {
                    lemma_lex_lt_trans(sol@, before[p as int]@, before[k]@);
                }
            }
        }
    }
    let ghost sol_snap = sol;
    acc.insert(p, sol);
    proof {
        before.insert_ensures(p as int, sol_snap);
        assert(acc@[p as int] == sol_snap);
        assert forall|i: int, j: int| 0 <= i < j < acc@.len() implies lex_lt(
            (#[trigger] acc@[i])@,
            (#[trigger] acc@[j])@,
        ) by {
            let pi = p as int;
            if i < pi && j < pi {
                assert(acc@[i] == before[i]);
                assert(acc@[j] == before[j]);
            } else if i < pi && j == pi {
                assert(acc@[i] == before[i]);
            } else if i < pi && j > pi {
                assert(acc@[i] == before[i]);
                assert(acc@[j] == before[j - 1]);
            } else if i == pi && j > pi {
                assert(acc@[j] == before[j - 1]);
            } else {
                assert(acc@[i] == before[i - 1]);
                assert(acc@[j] == before[j - 1]);
            }
        }
        assert forall|q: Seq<Rotation>|
            solutions_contain(acc@, q) <==> (solutions_contain(before, q) || q == sol@) by {
            let pi = p as int;
            if q == sol@ {
                assert(acc@[pi]@ == q);
            }
            if solutions_contain(before, q) {
                let w = choose|w: int| 0 <= w < before.len() && before[w]@ == q;
                if w < pi {
                    assert(acc@[w]@ == q);
                } else {
                    assert(acc@[w + 1]@ == q);
                }
            }
            if solutions_contain(acc@, q) {
                let w = choose|w: int| 0 <= w < acc@.len() && acc@[w]@ == q;
                if w < pi {
                    assert(before[w]@ == q);
                } else if w > pi {
                    assert(before[w - 1]@ == q);
                }
            }
        }
    }
}

/// Enumerates every accepted algorithm from the initial to the desired state.
///
/// For each candidate move count from `min_moves` up to `max_moves` this runs
/// one meet-in-the-middle search with that exact count as its window and
/// merges the findings. Once any solution has been found, the loop stops
/// after `threshold` consecutive counts in a row have added nothing new (the
/// count that first reaches that tally stops it); with no solution found it
/// runs through `max_moves`.
///
/// The result is sorted in the total lexicographic order, free of duplicates,
/// and every returned sequence has a length inside the window and carries the
/// initial state to the desired state. With an empty window over equal states
/// the result is exactly the empty algorithm. An empty window with
/// `min_moves > max_moves` is rejected before any search runs.
pub fn search(
    initial_state: &CubeState,
    desired_state: &CubeState,
    min_moves: u8,
    max_moves: u8,
    threshold: u8,
) -> (res: Result<Vec<Vec<Rotation>>, SolveError>)
    requires
        initial_state.wf(),
        desired_state.wf(),
    ensures
        res is Ok <==> min_moves <= max_moves,
        res matches Err(e) ==> e == SolveError::InvalidBounds,
        res matches Ok(v) ==> sorted_distinct(v@),
        res matches Ok(v) ==> all_valid(v@, initial_state@, desired_state@, min_moves, max_moves),
        (min_moves == 0 && max_moves == 0 && initial_state@ == desired_state@) ==> (res matches Ok(
            v,
        ) && v@.len() == 1 && v@[0]@ == Seq::<Rotation>::empty()),
        forall|m: Rotation|
            (min_moves as int <= 1 <= max_moves as int && #[trigger] state_after(
                initial_state@,
                m,
            ) == desired_state@ && initial_state@ != desired_state@) ==> (res matches Ok(v)
                && solutions_contain(v@, seq![m])),
{
    if min_moves > max_moves {
        return Err(SolveError::InvalidBounds);
    }
    let mut acc: Vec<Vec<Rotation>> = Vec::new();
    let hi: usize = max_moves as usize;
    let mut l: usize = min_moves as usize;
    let mut since_new: usize = 0;
    let mut stop = false;
    while !stop && l <= hi
        invariant
            initial_state.wf(),
            desired_state.wf(),
            min_moves as usize <= l <= hi + 1,
            hi == max_moves as usize,
            since_new <= l,
            stop ==> l > min_moves as usize,
            sorted_distinct(acc@),
            all_valid(acc@, initial_state@, desired_state@, min_moves, max_moves),
            (min_moves == 0 && max_moves == 0 && initial_state@ == desired_state@ && l > 0)
                ==> solutions_contain(acc@, Seq::<Rotation>::empty()),
            stop ==> acc@.len() > 0,
            forall|i: int| 0 <= i < acc@.len() ==> (#[trigger] acc@[i])@.len() < l,
            forall|m: Rotation|
                (min_moves as int <= 1 <= max_moves as int && #[trigger] state_after(
                    initial_state@,
                    m,
                ) == desired_state@ && initial_state@ != desired_state@ && l > 1)
                    ==> solutions_contain(acc@, seq![m]),
        decreases hi + 1 - l,
    {
        let mut solver = Solver::new(initial_state, desired_state, l as u8, l as u8);
        let ghost pre = solver;
        solver.solve();
        let sols = solver.collect_solutions();
        let ghost post = solver;
        let ghost outer_entry = acc@;
        let before_len = acc.len();
        let mut j: usize = 0;
        while j < sols.len()
            invariant
                initial_state.wf(),
                desired_state.wf(),
                min_moves as usize <= l <= hi,
                hi == max_moves as usize,
                sorted_distinct(acc@),
                all_valid(acc@, initial_state@, desired_state@, min_moves, max_moves),
                j <= sols@.len(),
                post.wf(),
                post.found_ok(),
                post.initial_state@ == initial_state@,
                post.desired_state@ == desired_state@,
                post.min_moves == l as u8,
                post.max_moves == l as u8,
                sols@.len() == post.found_solutions@.len(),
                forall|t: int|
                    0 <= t < sols@.len() ==> (#[trigger] sols@[t])@ == post.found_solutions@[t]@,
                forall|t: int|
                    0 <= t < j ==> solutions_contain(acc@, (#[trigger] sols@[t])@),
                forall|p: Seq<Rotation>|
                    #[trigger] solutions_contain(outer_entry, p) ==> solutions_contain(acc@, p),
                forall|i: int| 0 <= i < acc@.len() ==> (#[trigger] acc@[i])@.len() <= l,
            decreases sols@.len() - j,
        {
            let ghost pre_merge = acc@;
            let sol = crate::solver::copy_path(&sols[j]);
            proof {
                assert(post.found_contains(post.found_solutions@[j as int]@));
                assert(post.is_solution(sols@[j as int]@));
            }
            insert_solution(&mut acc, sol);
            proof {
                assert forall|t: int|
                    0 <= t <= j implies solutions_contain(acc@, (#[trigger] sols@[t])@) by {
                    assert(solutions_contain(acc@, sols@[t]@) <==> (solutions_contain(
                        pre_merge,
                        sols@[t]@,
                    ) || sols@[t]@ == sols@[j as int]@));
                }
                assert forall|i: int|
                    0 <= i < acc@.len() implies min_moves as int <= (#[trigger] acc@[i])@.len()
                        <= max_moves as int && apply_path(initial_state@, acc@[i]@)
                        == desired_state@ by {
                    assert(solutions_contain(acc@, acc@[i]@));
                    assert(solutions_contain(acc@, acc@[i]@) <==> (solutions_contain(
                        pre_merge,
                        acc@[i]@,
                    ) || acc@[i]@ == sols@[j as int]@));
                    if solutions_contain(pre_merge, acc@[i]@) {
                        let w = choose|w: int|
                            0 <= w < pre_merge.len() && pre_merge[w]@ == acc@[i]@;
                        assert(min_moves as int <= (pre_merge[w])@.len() <= max_moves as int
                            && apply_path(initial_state@, pre_merge[w]@) == desired_state@);
                    } else {
                        assert(post.is_solution(acc@[i]@));
                    }
                }
                assert forall|p: Seq<Rotation>|
                    #[trigger] solutions_contain(outer_entry, p) implies solutions_contain(
                    acc@,
                    p,
                ) by {
                    assert(solutions_contain(pre_merge, p));
                    assert(solutions_contain(acc@, p) <==> (solutions_contain(pre_merge, p) || p
                        == sols@[j as int]@));
                }
                assert forall|i: int|
                    0 <= i < acc@.len() implies (#[trigger] acc@[i])@.len() <= l by {
                    assert(solutions_contain(acc@, acc@[i]@));
                    assert(solutions_contain(acc@, acc@[i]@) <==> (solutions_contain(
                        pre_merge,
                        acc@[i]@,
                    ) || acc@[i]@ == sols@[j as int]@));
                    if solutions_contain(pre_merge, acc@[i]@) {
                        let w = choose|w: int|
                            0 <= w < pre_merge.len() && pre_merge[w]@ == acc@[i]@;
                        assert(pre_merge[w]@.len() <= l);
                    } else {
                        assert(post.is_solution(acc@[i]@));
                    }
                }
            }
            j += 1;
        }
        proof {
            assert forall|m: Rotation|
                (min_moves as int <= 1 <= max_moves as int && #[trigger] state_after(
                    initial_state@,
                    m,
                ) == desired_state@ && initial_state@ != desired_state@ && l + 1 > 1)
                    implies solutions_contain(acc@, seq![m]) by {
                if l == 1 {
                    assert(pre.single_move_solution(m));
                    assert(post.found_contains(seq![m]));
                    let w = choose|w: int|
                        0 <= w < post.found_solutions@.len() && post.found_solutions@[w]@
                            == seq![m];
                    assert(sols@[w]@ == seq![m]);
                    assert(solutions_contain(acc@, sols@[w]@));
                } else if l > 1 {
                    assert(solutions_contain(outer_entry, seq![m]));
                }
            }
            if min_moves == 0 && max_moves == 0 && initial_state@ == desired_state@ {
                assert(post.found_contains(Seq::<Rotation>::empty()));
                let w = choose|w: int|
                    0 <= w < post.found_solutions@.len() && post.found_solutions@[w]@ == Seq::<
                    Rotation,
                >::empty();
                assert(sols@[w]@ == Seq::<Rotation>::empty());
                assert(solutions_contain(acc@, sols@[w]@));
            }
        }
        let added_new = acc.len() > before_len;
        if acc.len() > 0 {
            if added_new {
                since_new = 0;
            } else {
                since_new += 1;
            }
            if since_new >= threshold as usize {
                stop = true;
            }
        }
        l += 1;
    }
    proof {
        assert forall|m: Rotation|
            (min_moves as int <= 1 <= max_moves as int && #[trigger] state_after(
                initial_state@,
                m,
            ) == desired_state@ && initial_state@ != desired_state@) implies solutions_contain(
            acc@,
            seq![m],
        ) by {
            if l <= 1 {
                assert(stop);
                assert(acc@.len() > 0);
                assert(acc@[0]@.len() < l);
                assert(l > min_moves as usize);
                assert(acc@[0]@ =~= Seq::<Rotation>::empty());
                assert(apply_path(initial_state@, acc@[0]@) == desired_state@);
                assert(false);
            }
        }
        if min_moves == 0 && max_moves == 0 && initial_state@ == desired_state@ {
            assert(solutions_contain(acc@, Seq::<Rotation>::empty()));
            assert forall|i: int| 0 <= i < acc@.len() implies (#[trigger] acc@[i])@ == Seq::<
                Rotation,
            >::empty() by {
                assert(acc@[i]@ =~= Seq::<Rotation>::empty());
            }
            let w = choose|w: int| 0 <= w < acc@.len() && acc@[w]@ == Seq::<Rotation>::empty();
            if acc@.len() > 1 {
                assert(lex_lt(acc@[0]@, acc@[1]@));
                assert(false);
            }
        }
    }
    Ok(acc)
}

} // verus!
