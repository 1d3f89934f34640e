use std::cmp::Ordering;

use cuberithm::cube::CubeState;
use cuberithm::error::SolveError;
use cuberithm::rotation::Rotation;
use cuberithm::rotation::rotation_of;
use cuberithm::search::path_lt;
use cuberithm::search::search;
use cuberithm::solver::Solver;

const SOLVED: &str = "WWWWWWWWWOOOOOOOOOGGGGGGGGGRRRRRRRRRBBBBBBBBBYYYYYYYYY";

fn apply_all(state: &CubeState, moves: &[Rotation]) -> CubeState {
    let mut cur = state.duplicate();
    for &m in moves {
        cur = cur.rotate(m);
    }
    cur
}

fn sort_paths(paths: &mut Vec<Vec<Rotation>>) {
    paths.sort_by(|a, b| {
        if path_lt(a, b) {
            Ordering::Less
        } else if path_lt(b, a) {
            Ordering::Greater
        } else {
            Ordering::Equal
        }
    });
}

/// Single-direction bounded depth-first enumeration with the same pruning
/// discipline as the forward pass: a branch stops at the desired state and
/// skips successors already on the current path.
fn exhaustive(
    state: &CubeState,
    desired: &CubeState,
    min_moves: usize,
    max_moves: usize,
    prev: &mut Vec<CubeState>,
    path: &mut Vec<Rotation>,
    out: &mut Vec<Vec<Rotation>>,
) {
    if state.eq_state(desired) {
        if path.len() >= min_moves && path.len() <= max_moves {
            out.push(path.clone());
        }
        return;
    }
    if path.len() >= max_moves {
        return;
    }
    prev.push(state.duplicate());
    for idx in 0..18 {
        let rot = rotation_of(idx);
        let next = state.rotate(rot);
        if !prev.iter().any(|p| p.eq_state(&next)) {
            path.push(rot);
            exhaustive(&next, desired, min_moves, max_moves, prev, path, out);
            path.pop();
        }
    }
    prev.pop();
}

#[test]
fn equal_states_zero_window_yields_empty_algorithm() {
    let solved = CubeState::parse(SOLVED).unwrap();
    let result = search(&solved, &solved, 0, 0, 1).unwrap();
    assert_eq!(result, vec![Vec::<Rotation>::new()]);
}

#[test]
fn solver_alone_finds_empty_algorithm() {
    let solved = CubeState::parse(SOLVED).unwrap();
    let mut solver = Solver::new(&solved, &solved, 0, 0);
    solver.solve();
    let sols = solver.collect_solutions();
    assert_eq!(sols, vec![Vec::<Rotation>::new()]);
}

#[test]
fn single_move_window_finds_exactly_that_move() {
    let solved = CubeState::parse(SOLVED).unwrap();
    for idx in 0..18 {
        let m = rotation_of(idx);
        let desired = solved.rotate(m);
        let result = search(&solved, &desired, 1, 1, 1).unwrap();
        assert_eq!(result, vec![vec![m]]);
    }
}

#[test]
fn solutions_respect_window_and_reach_desired_state() {
    let solved = CubeState::parse(SOLVED).unwrap();
    let desired = apply_all(&solved, &[Rotation::F, Rotation::R]);
    let result = search(&solved, &desired, 1, 3, 200).unwrap();
    assert!(!result.is_empty());
    for sol in &result {
        assert!(1 <= sol.len() && sol.len() <= 3);
        let reached = apply_all(&solved, sol);
        assert!(reached.eq_state(&desired));
    }
}

#[test]
fn result_is_sorted_without_duplicates() {
    let solved = CubeState::parse(SOLVED).unwrap();
    let desired = apply_all(&solved, &[Rotation::F, Rotation::R]);
    let result = search(&solved, &desired, 1, 4, 200).unwrap();
    for w in result.windows(2) {
        assert!(path_lt(&w[0], &w[1]));
        assert_ne!(w[0], w[1]);
    }
}

#[test]
fn meet_in_the_middle_equals_exhaustive_enumeration() {
    let solved = CubeState::parse(SOLVED).unwrap();
    let cases: Vec<(Vec<Rotation>, usize, usize)> = vec![
        (vec![Rotation::F, Rotation::R], 1, 4),
        (vec![Rotation::U], 1, 3),
        (vec![Rotation::U2, Rotation::D], 2, 4),
    ];
    for (alg, min_moves, max_moves) in cases {
        let desired = apply_all(&solved, &alg);
        let mut solver = Solver::new(&solved, &desired, min_moves as u8, max_moves as u8);
        solver.solve();
        let mut meet = solver.collect_solutions();
        sort_paths(&mut meet);

        let mut brute: Vec<Vec<Rotation>> = Vec::new();
        exhaustive(
            &solved,
            &desired,
            min_moves,
            max_moves,
            &mut Vec::new(),
            &mut Vec::new(),
            &mut brute,
        );
        sort_paths(&mut brute);
        brute.dedup();

        assert_eq!(meet, brute);
    }
}

#[test]
fn repeated_runs_agree_exactly() {
    let solved = CubeState::parse(SOLVED).unwrap();
    let desired = apply_all(&solved, &[Rotation::R, Rotation::U2]);
    let first = search(&solved, &desired, 1, 4, 200).unwrap();
    let second = search(&solved, &desired, 1, 4, 200).unwrap();
    assert_eq!(first, second);
}

#[test]
fn inverted_bounds_are_rejected() {
    let solved = CubeState::parse(SOLVED).unwrap();
    let result = search(&solved, &solved, 3, 2, 1);
    assert_eq!(result, Err(SolveError::InvalidBounds));
}

#[test]
fn zero_threshold_stops_after_first_productive_length() {
    let solved = CubeState::parse(SOLVED).unwrap();
    let desired = solved.rotate(Rotation::U);
    let result = search(&solved, &desired, 1, 5, 0).unwrap();
    assert_eq!(result, vec![vec![Rotation::U]]);
}

#[test]
fn zero_window_over_distinct_states_finds_nothing() {
    let solved = CubeState::parse(SOLVED).unwrap();
    let desired = solved.rotate(Rotation::U);
    let result = search(&solved, &desired, 0, 0, 1).unwrap();
    assert!(result.is_empty());
}
