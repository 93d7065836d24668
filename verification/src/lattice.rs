//! The D2Q9 lattice: grid dimensions, direction vectors, weights, and the
//! opposite-direction map used by bounce-back.

use vstd::prelude::*;

verus! {

/// Number of grid columns.
pub const NX: usize = 200;

/// Number of grid rows.
pub const NY: usize = 100;

/// Number of discrete velocity directions (rest + 4 axis + 4 diagonal).
pub const QDIRS: usize = 9;

/// Number of cells in the grid.
pub const NCELLS: usize = NX * NY;

/// Number of entries in a distribution field (one per cell and direction).
pub const NDIST: usize = NX * NY * QDIRS;

/// Fixed-point scale: the integer `SCALE` stands for the real value 1.0,
/// so one integer unit is 1e-8 in lattice units.
pub const SCALE: i64 = 100_000_000;

/// Common denominator of the nine lattice weights: the weight of direction
/// `q` is `w_num_spec(q) / 36`.
pub const WDEN: i64 = 36;

/// Horizontal component of direction `q`'s velocity vector.
pub open spec fn cx_spec(q: int) -> int {
    if q == 1 || q == 5 || q == 8 {
        1
    } else if q == 3 || q == 6 || q == 7 {
        -1
    } else {
        0
    }
}

/// Vertical component of direction `q`'s velocity vector.
pub open spec fn cy_spec(q: int) -> int {
    if q == 2 || q == 5 || q == 6 {
        1
    } else if q == 4 || q == 7 || q == 8 {
        -1
    } else {
        0
    }
}

/// Numerator of direction `q`'s weight over the denominator 36:
/// 16/36 = 4/9 for rest, 4/36 = 1/9 for the axis directions,
/// 1/36 for the diagonals.
pub open spec fn w_num_spec(q: int) -> int {
    if q == 0 {
        16
    } else if 1 <= q < 5 {
        4
    } else {
        1
    }
}

/// The direction opposite to `q`: the one whose velocity vector is the
/// negation of `q`'s.
pub open spec fn opp_spec(q: int) -> int {
    if q == 1 {
        3
    } else if q == 2 {
        4
    } else if q == 3 {
        1
    } else if q == 4 {
        2
    } else if q == 5 {
        7
    } else if q == 6 {
        8
    } else if q == 7 {
        5
    } else if q == 8 {
        6
    } else {
        0
    }
}

/// Opposite directions have negated velocity vectors, and taking the
/// opposite twice returns the original direction; the rest direction is
/// its own opposite.
pub proof fn lemma_opp_involution()
    ensures
        forall|q: int| 0 <= q < 9 ==> #[trigger] opp_spec(opp_spec(q)) == q,
        opp_spec(0) == 0,
        forall|q: int| 0 <= q < 9 ==> #[trigger] cx_spec(opp_spec(q)) == -cx_spec(q),
        forall|q: int| 0 <= q < 9 ==> #[trigger] cy_spec(opp_spec(q)) == -cy_spec(q),
        forall|q: int| 0 <= q < 9 ==> 0 <= #[trigger] opp_spec(q) < 9,
{
}

/// The nine weight numerators sum to the common denominator 36, so the
/// weights themselves sum to exactly 1.
pub proof fn lemma_weights_sum_to_one()
    ensures
        w_num_spec(0) + w_num_spec(1) + w_num_spec(2) + w_num_spec(3) + w_num_spec(4)
            + w_num_spec(5) + w_num_spec(6) + w_num_spec(7) + w_num_spec(8) == WDEN,
{
}

/// Horizontal velocity component of direction `q`.
pub fn cx_of(q: usize) -> (c: i64)
    requires
        q < 9,
    ensures
        c as int == cx_spec(q as int),
{
    match q {
        1 | 5 | 8 => 1,
        3 | 6 | 7 => -1,
        _ => 0,
    }
}

/// Vertical velocity component of direction `q`.
pub fn cy_of(q: usize) -> (c: i64)
    requires
        q < 9,
    ensures
        c as int == cy_spec(q as int),
{
    match q {
        2 | 5 | 6 => 1,
        4 | 7 | 8 => -1,
        _ => 0,
    }
}

/// Weight numerator of direction `q` (over the denominator 36).
pub fn w_num_of(q: usize) -> (w: i64)
    requires
        q < 9,
    ensures
        w as int == w_num_spec(q as int),
        1 <= w <= 16,
{
    match q {
        0 => 16,
        1 | 2 | 3 | 4 => 4,
        _ => 1,
    }
}

/// The direction opposite to `q`.
pub fn opp_of(q: usize) -> (r: usize)
    requires
        q < 9,
    ensures
        r as int == opp_spec(q as int),
        r < 9,
{
    match q {
        1 => 3,
        2 => 4,
        3 => 1,
        4 => 2,
        5 => 7,
        6 => 8,
        7 => 5,
        8 => 6,
        _ => 0,
    }
}

} // verus!
