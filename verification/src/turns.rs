//! The six clockwise quarter-turn permutations of the 54 facelet positions.
//!
//! Facelets are indexed `face * 9 + row * 3 + col`, faces in the order
//! up, left, front, right, back, down; within a face, rows run bottom to top
//! and columns left to right, as seen from outside that face (the up face is
//! read with the front edge as its bottom row, the down face with the front
//! edge as its top row). `cw_source(f, i)` gives, for a clockwise quarter
//! turn of face `f`, the position whose facelet moves to position `i`; the
//! 34 positions off the turning layer stay fixed.

use vstd::prelude::*;

verus! {

/// One of the six faces of the cube.
#[derive(Clone, Copy, PartialEq, Eq, Structural, Debug)]
pub enum Face {
    Up,
    Left,
    Front,
    Right,
    Back,
    Down,
}

pub open spec fn up_source(i: int) -> int {
    if i == 0 {
        2
    } else if i == 1 {
        5
    } else if i == 2 {
        8
    } else if i == 3 {
        1
    } else if i == 5 {
        7
    } else if i == 6 {
        0
    } else if i == 7 {
        3
    } else if i == 8 {
        6
    } else if i == 15 {
        24
    } else if i == 16 {
        25
    } else if i == 17 {
        26
    } else if i == 24 {
        33
    } else if i == 25 {
        34
    } else if i == 26 {
        35
    } else if i == 33 {
        42
    } else if i == 34 {
        43
    } else if i == 35 {
        44
    } else if i == 42 {
        15
    } else if i == 43 {
        16
    } else if i == 44 {
        17
    } else {
        i
    }
}

pub open spec fn left_source(i: int) -> int {
    if i == 0 {
        44
    } else if i == 3 {
        41
    } else if i == 6 {
        38
    } else if i == 9 {
        11
    } else if i == 10 {
        14
    } else if i == 11 {
        17
    } else if i == 12 {
        10
    } else if i == 14 {
        16
    } else if i == 15 {
        9
    } else if i == 16 {
        12
    } else if i == 17 {
        15
    } else if i == 18 {
        0
    } else if i == 21 {
        3
    } else if i == 24 {
        6
    } else if i == 38 {
        51
    } else if i == 41 {
        48
    } else if i == 44 {
        45
    } else if i == 45 {
        18
    } else if i == 48 {
        21
    } else if i == 51 {
        24
    } else {
        i
    }
}

pub open spec fn front_source(i: int) -> int {
    if i == 0 {
        11
    } else if i == 1 {
        14
    } else if i == 2 {
        17
    } else if i == 11 {
        53
    } else if i == 14 {
        52
    } else if i == 17 {
        51
    } else if i == 18 {
        20
    } else if i == 19 {
        23
    } else if i == 20 {
        26
    } else if i == 21 {
        19
    } else if i == 23 {
        25
    } else if i == 24 {
        18
    } else if i == 25 {
        21
    } else if i == 26 {
        24
    } else if i == 27 {
        2
    } else if i == 30 {
        1
    } else if i == 33 {
        0
    } else if i == 51 {
        27
    } else if i == 52 {
        30
    } else if i == 53 {
        33
    } else {
        i
    }
}

pub open spec fn right_source(i: int) -> int {
    if i == 2 {
        20
    } else if i == 5 {
        23
    } else if i == 8 {
        26
    } else if i == 20 {
        47
    } else if i == 23 {
        50
    } else if i == 26 {
        53
    } else if i == 27 {
        29
    } else if i == 28 {
        32
    } else if i == 29 {
        35
    } else if i == 30 {
        28
    } else if i == 32 {
        34
    } else if i == 33 {
        27
    } else if i == 34 {
        30
    } else if i == 35 {
        33
    } else if i == 36 {
        8
    } else if i == 39 {
        5
    } else if i == 42 {
        2
    } else if i == 47 {
        42
    } else if i == 50 {
        39
    } else if i == 53 {
        36
    } else {
        i
    }
}

pub open spec fn back_source(i: int) -> int {
    if i == 6 {
        35
    } else if i == 7 {
        32
    } else if i == 8 {
        29
    } else if i == 9 {
        6
    } else if i == 12 {
        7
    } else if i == 15 {
        8
    } else if i == 29 {
        45
    } else if i == 32 {
        46
    } else if i == 35 {
        47
    } else if i == 36 {
        38
    } else if i == 37 {
        41
    } else if i == 38 {
        44
    } else if i == 39 {
        37
    } else if i == 41 {
        43
    } else if i == 42 {
        36
    } else if i == 43 {
        39
    } else if i == 44 {
        42
    } else if i == 45 {
        15
    } else if i == 46 {
        12
    } else if i == 47 {
        9
    } else {
        i
    }
}

pub open spec fn down_source(i: int) -> int {
    if i == 9 {
        36
    } else if i == 10 {
        37
    } else if i == 11 {
        38
    } else if i == 18 {
        9
    } else if i == 19 {
        10
    } else if i == 20 {
        11
    } else if i == 27 {
        18
    } else if i == 28 {
        19
    } else if i == 29 {
        20
    } else if i == 36 {
        27
    } else if i == 37 {
        28
    } else if i == 38 {
        29
    } else if i == 45 {
        47
    } else if i == 46 {
        50
    } else if i == 47 {
        53
    } else if i == 48 {
        46
    } else if i == 50 {
        52
    } else if i == 51 {
        45
    } else if i == 52 {
        48
    } else if i == 53 {
        51
    } else {
        i
    }
}

pub open spec fn cw_source(f: Face, i: int) -> int {
    match f {
        Face::Up => up_source(i),
        Face::Left => left_source(i),
        Face::Front => front_source(i),
        Face::Right => right_source(i),
        Face::Back => back_source(i),
        Face::Down => down_source(i),
    }
}

pub fn cw_source_at(f: Face, i: usize) -> (r: usize)
    requires
        i < 54,
    ensures
        r == cw_source(f, i as int),
        r < 54,
{
    match f {
        Face::Up => {
            if i == 0 {
                2
            } else if i == 1 {
                5
            } else if i == 2 {
                8
            } else if i == 3 {
                1
            } else if i == 5 {
                7
            } else if i == 6 {
                0
            } else if i == 7 {
                3
            } else if i == 8 {
                6
            } else if i == 15 {
                24
            } else if i == 16 {
                25
            } else if i == 17 {
                26
            } else if i == 24 {
                33
            } else if i == 25 {
                34
            } else if i == 26 {
                35
            } else if i == 33 {
                42
            } else if i == 34 {
                43
            } else if i == 35 {
                44
            } else if i == 42 {
                15
            } else if i == 43 {
                16
            } else if i == 44 {
                17
            } else {
                i
            }
        }
        Face::Left => {
            if i == 0 {
                44
            } else if i == 3 {
                41
            } else if i == 6 {
                38
            } else if i == 9 {
                11
            } else if i == 10 {
                14
            } else if i == 11 {
                17
            } else if i == 12 {
                10
            } else if i == 14 {
                16
            } else if i == 15 {
                9
            } else if i == 16 {
                12
            } else if i == 17 {
                15
            } else if i == 18 {
                0
            } else if i == 21 {
                3
            } else if i == 24 {
                6
            } else if i == 38 {
                51
            } else if i == 41 {
                48
            } else if i == 44 {
                45
            } else if i == 45 {
                18
            } else if i == 48 {
                21
            } else if i == 51 {
                24
            } else {
                i
            }
        }
        Face::Front => {
            if i == 0 {
                11
            } else if i == 1 {
                14
            } else if i == 2 {
                17
            } else if i == 11 {
                53
            } else if i == 14 {
                52
            } else if i == 17 {
                51
            } else if i == 18 {
                20
            } else if i == 19 {
                23
            } else if i == 20 {
                26
            } else if i == 21 {
                19
            } else if i == 23 {
                25
            } else if i == 24 {
                18
            } else if i == 25 {
                21
            } else if i == 26 {
                24
            } else if i == 27 {
                2
            } else if i == 30 {
                1
            } else if i == 33 {
                0
            } else if i == 51 {
                27
            } else if i == 52 {
                30
            } else if i == 53 {
                33
            } else {
                i
            }
        }
        Face::Right => {
            if i == 2 {
                20
            } else if i == 5 {
                23
            } else if i == 8 {
                26
            } else if i == 20 {
                47
            } else if i == 23 {
                50
            } else if i == 26 {
                53
            } else if i == 27 {
                29
            } else if i == 28 {
                32
            } else if i == 29 {
                35
            } else if i == 30 {
                28
            } else if i == 32 {
                34
            } else if i == 33 {
                27
            } else if i == 34 {
                30
            } else if i == 35 {
                33
            } else if i == 36 {
                8
            } else if i == 39 {
                5
            } else if i == 42 {
                2
            } else if i == 47 {
                42
            } else if i == 50 {
                39
            } else if i == 53 {
                36
            } else {
                i
            }
        }
        Face::Back => {
            if i == 6 {
                35
            } else if i == 7 {
                32
            } else if i == 8 {
                29
            } else if i == 9 {
                6
            } else if i == 12 {
                7
            } else if i == 15 {
                8
            } else if i == 29 {
                45
            } else if i == 32 {
                46
            } else if i == 35 {
                47
            } else if i == 36 {
                38
            } else if i == 37 {
                41
            } else if i == 38 {
                44
            } else if i == 39 {
                37
            } else if i == 41 {
                43
            } else if i == 42 {
                36
            } else if i == 43 {
                39
            } else if i == 44 {
                42
            } else if i == 45 {
                15
            } else if i == 46 {
                12
            } else if i == 47 {
                9
            } else {
                i
            }
        }
        Face::Down => {
            if i == 9 {
                36
            } else if i == 10 {
                37
            } else if i == 11 {
                38
            } else if i == 18 {
                9
            } else if i == 19 {
                10
            } else if i == 20 {
                11
            } else if i == 27 {
                18
            } else if i == 28 {
                19
            } else if i == 29 {
                20
            } else if i == 36 {
                27
            } else if i == 37 {
                28
            } else if i == 38 {
                29
            } else if i == 45 {
                47
            } else if i == 46 {
                50
            } else if i == 47 {
                53
            } else if i == 48 {
                46
            } else if i == 50 {
                52
            } else if i == 51 {
                45
            } else if i == 52 {
                48
            } else if i == 53 {
                51
            } else {
                i
            }
        }
    }
}

/// A clockwise quarter turn permutes the positions: every source index is in
/// range, and four turns of the same face restore every facelet.
pub proof fn lemma_cw_source_period(f: Face)
    ensures
        forall|i: int| 0 <= i < 54 ==> 0 <= #[trigger] cw_source(f, i) < 54,
        forall|i: int| 0 <= i < 54 ==> cw_source(f, cw_source(f, cw_source(f, cw_source(f, i)))) == i,
{
}

} // verus!
