use cuberithm::cube::CubeState;
use cuberithm::error::SolveError;
use cuberithm::rotation::Rotation;
use cuberithm::rotation::rotation_of;

const SOLVED: &str = "WWWWWWWWWOOOOOOOOOGGGGGGGGGRRRRRRRRRBBBBBBBBBYYYYYYYYY";
const AFTER_U: &str = "WWWWWWWWWOOOOOOGGGGGGGGGRRRRRRRRRBBBBBBBBBOOOYYYYYYYYY";
const AFTER_J_PERM: &str = "WWWWWWWWWOOOOOOOOOGGGGGGGRRRRRRRRBGGBBBBBBRBBYYYYYYYYY";

fn all_rotations() -> Vec<Rotation> {
    let mut v = Vec::new();
    for idx in 0..18 {
        v.push(rotation_of(idx));
    }
    v
}

fn apply_all(state: &CubeState, moves: &[Rotation]) -> CubeState {
    let mut cur = state.duplicate();
    for &m in moves {
        cur = cur.rotate(m);
    }
    cur
}

#[test]
fn parse_solved_succeeds() {
    let state = CubeState::parse(SOLVED).unwrap();
    assert!(state.eq_state(&state));
}

#[test]
fn parse_rejects_wrong_length() {
    assert!(matches!(CubeState::parse(""), Err(SolveError::MalformedState)));
    assert!(matches!(CubeState::parse("WWW"), Err(SolveError::MalformedState)));
    let long = format!("{}W", SOLVED);
    assert!(matches!(CubeState::parse(&long), Err(SolveError::MalformedState)));
}

#[test]
fn parse_rejects_bad_character() {
    let mut s: Vec<char> = SOLVED.chars().collect();
    s[10] = 'X';
    let bad: String = s.into_iter().collect();
    assert!(matches!(CubeState::parse(&bad), Err(SolveError::MalformedState)));
    let lower: String = SOLVED.to_lowercase();
    assert!(matches!(CubeState::parse(&lower), Err(SolveError::MalformedState)));
}

#[test]
fn u_move_matches_documented_state() {
    let solved = CubeState::parse(SOLVED).unwrap();
    let expected = CubeState::parse(AFTER_U).unwrap();
    let turned = solved.rotate(Rotation::U);
    assert!(turned.eq_state(&expected));
    assert!(!turned.eq_state(&solved));
}

#[test]
fn j_perm_matches_documented_state() {
    let solved = CubeState::parse(SOLVED).unwrap();
    let expected = CubeState::parse(AFTER_J_PERM).unwrap();
    let alg = [
        Rotation::R,
        Rotation::U,
        Rotation::RPrime,
        Rotation::FPrime,
        Rotation::R,
        Rotation::U,
        Rotation::RPrime,
        Rotation::UPrime,
        Rotation::RPrime,
        Rotation::F,
        Rotation::R2,
        Rotation::UPrime,
        Rotation::RPrime,
        Rotation::UPrime,
    ];
    let turned = apply_all(&solved, &alg);
    assert!(turned.eq_state(&expected));
}

#[test]
fn rotate_then_reverse_restores_state() {
    let scrambled = CubeState::parse(AFTER_J_PERM).unwrap();
    for m in all_rotations() {
        let there = scrambled.rotate(m);
        let back = there.rotate(m.reverse());
        assert!(back.eq_state(&scrambled));
    }
}

#[test]
fn quarter_turns_have_period_four() {
    let scrambled = CubeState::parse(AFTER_J_PERM).unwrap();
    for m in all_rotations() {
        if m != m.reverse() {
            let four = apply_all(&scrambled, &[m, m, m, m]);
            assert!(four.eq_state(&scrambled));
            let two = apply_all(&scrambled, &[m, m]);
            assert!(!two.eq_state(&scrambled));
        }
    }
}

#[test]
fn half_turns_have_period_two() {
    let scrambled = CubeState::parse(AFTER_J_PERM).unwrap();
    for m in [
        Rotation::U2,
        Rotation::L2,
        Rotation::F2,
        Rotation::R2,
        Rotation::B2,
        Rotation::D2,
    ] {
        let two = apply_all(&scrambled, &[m, m]);
        assert!(two.eq_state(&scrambled));
        let one = scrambled.rotate(m);
        assert!(!one.eq_state(&scrambled));
    }
}

#[test]
fn reverse_is_an_involution() {
    for m in all_rotations() {
        assert_eq!(m.reverse().reverse(), m);
    }
}
