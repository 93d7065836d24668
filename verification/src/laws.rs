//! Global properties of the solver, stated over the model of
//! `crate::model` and proved once and for all: conservation of mass
//! under streaming, the equilibrium fixed point of collision, the
//! symmetry of obstacle bounce-back, and the pinning of the inflow
//! column.

use vstd::prelude::*;
use crate::arith::tdiv;
use crate::lattice::{
    cx_spec, cy_spec, lemma_opp_involution, opp_spec, w_num_spec, NCELLS, NDIST, NX, NY, QDIRS,
    SCALE, WDEN,
};
use crate::model::{
    all_stable, br_of, cell_of, cell_stable, collide_field, cu_of, feq_val, idx3,
    lemma_cell_bounds, lemma_dist_bounds, lemma_idx3_decomp, next_field, next_ux_at, next_uy_at,
    relax_val, rho_of, stream_field, stream_val, usq_of, ux_of, uy_of, wrap, xc, yc, EdgePolicy,
    INFLOW_UX, INFLOW_UY, OMEGA_NUM, RHO_MAX, U_LIMIT,
};

verus! {

/// The sum `g(0) + g(1) + ... + g(n-1)`.
pub open spec fn sum_fn(g: spec_fn(int) -> int, n: int) -> int
    decreases n,
{
    if n <= 0 {
        0
    } else {
        g(n - 1) + sum_fn(g, n - 1)
    }
}

/// Mass of one row in one direction.
pub open spec fn row_mass(f: Seq<int>, y: int, q: int) -> int {
    sum_fn(|x: int| f[idx3(x, y, q)], NX as int)
}

/// Mass of the whole grid in one direction.
pub open spec fn dir_mass(f: Seq<int>, q: int) -> int {
    sum_fn(|y: int| row_mass(f, y, q), NY as int)
}

/// Total mass of a distribution field: the sum of all its values,
/// equivalently the sum of all cell densities.
pub open spec fn total_mass(f: Seq<int>) -> int {
    sum_fn(|q: int| dir_mass(f, q), QDIRS as int)
}

/// Functions equal on `[0, n)` have equal sums.
proof fn lemma_sum_congruence(g1: spec_fn(int) -> int, g2: spec_fn(int) -> int, n: int)
    requires
        forall|x: int| 0 <= x < n ==> #[trigger] g1(x) == g2(x),
    ensures
        sum_fn(g1, n) == sum_fn(g2, n),
    decreases n,
{
    if n > 0 {
        lemma_sum_congruence(g1, g2, n - 1);
    }
}

/// Summing `g` shifted by one is summing `g` over the shifted window.
proof fn lemma_sum_shift(g: spec_fn(int) -> int, m: int)
    requires
        m >= 0,
    ensures
        sum_fn(|x: int| g(x + 1), m) == sum_fn(g, m + 1) - g(0),
    decreases m,
{
    let h = |x: int| g(x + 1);
    if m == 0 {
        assert(sum_fn(h, 0) == 0);
        assert(sum_fn(g, 1) == g(0) + sum_fn(g, 0));
    } else {
        lemma_sum_shift(g, m - 1);
        assert(sum_fn(h, m) == h(m - 1) + sum_fn(h, m - 1));
        assert(h(m - 1) == g(m));
        assert(sum_fn(g, m + 1) == g(m) + sum_fn(g, m));
    }
}

/// A cyclic rotation of the summation argument by one position either
/// way preserves the sum.
proof fn lemma_sum_rotate(g: spec_fn(int) -> int, n: int, s: int)
    requires
        n >= 1,
        s == 1 || s == -1 || s == 0,
    ensures
        sum_fn(|x: int| g(wrap(x - s, n)), n) == sum_fn(g, n),
{
    let h = |x: int| g(wrap(x - s, n));
    if s == 0 {
        lemma_sum_congruence(h, g, n);
    } else if s == 1 {
        lemma_sum_shift(h, n - 1);
        assert(sum_fn(|x: int| h(x + 1), n - 1) == sum_fn(h, n) - h(0));
        lemma_sum_congruence(|x: int| h(x + 1), g, n - 1);
        assert(h(0) == g(n - 1));
        assert(sum_fn(g, n) == g(n - 1) + sum_fn(g, n - 1));
    } else {
        assert(sum_fn(h, n) == h(n - 1) + sum_fn(h, n - 1));
        assert(h(n - 1) == g(0));
        lemma_sum_congruence(h, |x: int| g(x + 1), n - 1);
        lemma_sum_shift(g, n - 1);
    }
}

/// A sum of zeros is zero.
proof fn lemma_sum_zero(n: int)
    ensures
        sum_fn(|x: int| 0, n) == 0,
    decreases n,
{
    if n > 0 {
        lemma_sum_zero(n - 1);
    }
}

/// A sum of pointwise sums is the sum of the sums.
proof fn lemma_sum_add(u: spec_fn(int) -> int, v: spec_fn(int) -> int, n: int)
    ensures
        sum_fn(|x: int| u(x) + v(x), n) == sum_fn(u, n) + sum_fn(v, n),
    decreases n,
{
    if n > 0 {
        lemma_sum_add(u, v, n - 1);
    }
}

/// A common factor moves out of a sum.
proof fn lemma_sum_scale(g: spec_fn(int) -> int, k: int, n: int)
    ensures
        sum_fn(|x: int| k * g(x), n) == k * sum_fn(g, n),
    decreases n,
{
    if n > 0 {
        lemma_sum_scale(g, k, n - 1);
        assert(k * sum_fn(g, n) == k * g(n - 1) + k * sum_fn(g, n - 1)) by (nonlinear_arith)
            requires
                sum_fn(g, n) == g(n - 1) + sum_fn(g, n - 1),
        ;
    } else {
        assert(k * sum_fn(g, n) == 0) by (nonlinear_arith)
            requires
                sum_fn(g, n) == 0,
        ;
    }
}

/// A constant summed `n` times is `k * n`.
proof fn lemma_sum_const(k: int, n: int)
    requires
        n >= 0,
    ensures
        sum_fn(|x: int| k, n) == k * n,
    decreases n,
{
    if n > 0 {
        lemma_sum_const(k, n - 1);
        assert(k * n == k + k * (n - 1)) by (nonlinear_arith);
    } else {
        assert(k * n == 0) by (nonlinear_arith)
            requires
                n == 0,
        ;
    }
}

/// Pointwise bounded differences sum to a bounded difference.
proof fn lemma_sum_bound(u: spec_fn(int) -> int, v: spec_fn(int) -> int, w: spec_fn(int) -> int, n: int)
    requires
        forall|x: int|
            0 <= x < n ==> -(w(x)) <= (#[trigger] u(x)) - v(x) && u(x) - v(x) <= w(x),
    ensures
        -(sum_fn(w, n)) <= sum_fn(u, n) - sum_fn(v, n) <= sum_fn(w, n),
    decreases n,
{
    if n > 0 {
        lemma_sum_bound(u, v, w, n - 1);
    }
}

/// A double sum can be summed in either order.
proof fn lemma_sum_exchange(h: spec_fn(int, int) -> int, m: int, n: int)
    requires
        0 <= m,
    ensures
        sum_fn(|a: int| sum_fn(|b: int| h(a, b), n), m) == sum_fn(
            |b: int| sum_fn(|a: int| h(a, b), m),
            n,
        ),
    decreases m,
{
    if m == 0 {
        lemma_sum_congruence(|b: int| sum_fn(|a: int| h(a, b), 0), |x: int| 0, n);
        lemma_sum_zero(n);
    } else {
        lemma_sum_exchange(h, m - 1, n);
        let top = |b: int| h(m - 1, b);
        let rest = |b: int| sum_fn(|a: int| h(a, b), m - 1);
        lemma_sum_congruence(
            |b: int| sum_fn(|a: int| h(a, b), m),
            |x: int| top(x) + rest(x),
            n,
        );
        lemma_sum_add(top, rest, n);
        assert(sum_fn(|a: int| sum_fn(|b: int| h(a, b), n), m) == sum_fn(
            |b: int| h(m - 1, b),
            n,
        ) + sum_fn(|a: int| sum_fn(|b: int| h(a, b), n), m - 1));
        lemma_sum_congruence(|b: int| h(m - 1, b), top, n);
    }
}

/// Fields equal at every valid index have equal total mass.
proof fn lemma_total_mass_congruence(fa: Seq<int>, fb: Seq<int>)
    requires
        fa.len() == NDIST as int,
        fb.len() == NDIST as int,
        forall|i: int| 0 <= i < NDIST as int ==> fa[i] == fb[i],
    ensures
        total_mass(fa) == total_mass(fb),
{
    let da = |q2: int| dir_mass(fa, q2);
    let db = |q2: int| dir_mass(fb, q2);
    assert forall|q: int| 0 <= q < 9 implies #[trigger] da(q) == db(q) by {
        let ra = |y: int| row_mass(fa, y, q);
        let rb = |y: int| row_mass(fb, y, q);
        assert forall|y: int| 0 <= y < NY as int implies #[trigger] ra(y) == rb(y) by {
            let ga = |x: int| fa[idx3(x, y, q)];
            let gb = |x: int| fb[idx3(x, y, q)];
            assert forall|x: int| 0 <= x < NX as int implies #[trigger] ga(x) == gb(x) by {
                lemma_idx3_decomp(x, y, q);
            }
            lemma_sum_congruence(ga, gb, NX as int);
        }
        lemma_sum_congruence(ra, rb, NY as int);
    }
    lemma_sum_congruence(da, db, QDIRS as int);
    assert(total_mass(fa) == sum_fn(da, QDIRS as int));
    assert(total_mass(fb) == sum_fn(db, QDIRS as int));
}

/// The total mass is also the sum of the per-cell densities.
proof fn lemma_total_mass_by_cells(f: Seq<int>)
    requires
        f.len() == NDIST as int,
    ensures
        total_mass(f) == sum_fn(|c: int| rho_of(f, c), NCELLS as int),
{
    let h2 = |a: int, b: int| f[9 * b + a];
    let dm = |q2: int| dir_mass(f, q2);
    let cm = |a: int| sum_fn(|b: int| h2(a, b), NCELLS as int);
    assert forall|q: int| 0 <= q < 9 implies #[trigger] dm(q) == cm(q) by {
        let h = |c: int| f[9 * c + q];
        let ra = |y: int| row_mass(f, y, q);
        let rb = |y: int| sum_fn(|x: int| h(y * (NX as int) + x), NX as int);
        assert forall|y: int| 0 <= y < NY as int implies #[trigger] ra(y) == rb(y) by {
            let ga = |x: int| f[idx3(x, y, q)];
            let gb = |x: int| h(y * (NX as int) + x);
            assert forall|x: int| 0 <= x < NX as int implies #[trigger] ga(x) == gb(x) by {
                assert(idx3(x, y, q) == 9 * (y * (NX as int) + x) + q);
            }
            lemma_sum_congruence(ga, gb, NX as int);
        }
        lemma_sum_congruence(ra, rb, NY as int);
        lemma_sum_flatten(h, NY as int, NX as int);
        assert((NY as int) * (NX as int) == NCELLS as int) by (nonlinear_arith)
            requires
                NY as int == 100,
                NX as int == 200,
                NCELLS as int == 20000,
        ;
        assert(dir_mass(f, q) == sum_fn(ra, NY as int));
        lemma_sum_congruence(h, |b: int| h2(q, b), NCELLS as int);
    }
    lemma_sum_congruence(dm, cm, QDIRS as int);
    assert(total_mass(f) == sum_fn(dm, QDIRS as int));
    lemma_sum_exchange(h2, 9, NCELLS as int);
    let ex_r = |b: int| sum_fn(|a: int| h2(a, b), 9);
    let rc = |c: int| rho_of(f, c);
    assert forall|c: int| 0 <= c < NCELLS as int implies #[trigger] ex_r(c) == rc(c) by {
        let gg = |a: int| h2(a, c);
        assert(sum_fn(gg, 9) == gg(8) + sum_fn(gg, 8));
        assert(sum_fn(gg, 8) == gg(7) + sum_fn(gg, 7));
        assert(sum_fn(gg, 7) == gg(6) + sum_fn(gg, 6));
        assert(sum_fn(gg, 6) == gg(5) + sum_fn(gg, 5));
        assert(sum_fn(gg, 5) == gg(4) + sum_fn(gg, 4));
        assert(sum_fn(gg, 4) == gg(3) + sum_fn(gg, 3));
        assert(sum_fn(gg, 3) == gg(2) + sum_fn(gg, 2));
        assert(sum_fn(gg, 2) == gg(1) + sum_fn(gg, 1));
        assert(sum_fn(gg, 1) == gg(0) + sum_fn(gg, 0));
        assert(sum_fn(gg, 0) == 0);
    }
    lemma_sum_congruence(ex_r, rc, NCELLS as int);
    assert(sum_fn(|a: int| sum_fn(|b: int| h2(a, b), NCELLS as int), 9) == sum_fn(cm, 9));
}

/// The sum of `h` over a window `[a, a + m)`.
proof fn lemma_sum_window(h: spec_fn(int) -> int, a: int, m: int)
    requires
        0 <= a,
        0 <= m,
    ensures
        sum_fn(|x: int| h(a + x), m) == sum_fn(h, a + m) - sum_fn(h, a),
    decreases m,
{
    if m > 0 {
        lemma_sum_window(h, a, m - 1);
        assert(sum_fn(|x: int| h(a + x), m) == h(a + m - 1) + sum_fn(|x: int| h(a + x), m - 1));
        assert(sum_fn(h, a + m) == h(a + m - 1) + sum_fn(h, a + m - 1));
    }
}

/// Summing a grid row-major row by row is summing it flat.
proof fn lemma_sum_flatten(h: spec_fn(int) -> int, rows: int, width: int)
    requires
        0 <= rows,
        0 <= width,
    ensures
        sum_fn(|y: int| sum_fn(|x: int| h(y * width + x), width), rows) == sum_fn(
            h,
            rows * width,
        ),
    decreases rows,
{
    if rows == 0 {
        assert(rows * width == 0) by (nonlinear_arith)
            requires
                rows == 0,
        ;
    } else {
        lemma_sum_flatten(h, rows - 1, width);
        let a = (rows - 1) * width;
        lemma_sum_window(h, a, width);
        lemma_sum_congruence(|x: int| h((rows - 1) * width + x), |x: int| h(a + x), width);
        assert(rows * width == a + width) by (nonlinear_arith)
            requires
                a == (rows - 1) * width,
        ;
        assert(sum_fn(|y: int| sum_fn(|x: int| h(y * width + x), width), rows) == sum_fn(
            |x: int| h((rows - 1) * width + x),
            width,
        ) + sum_fn(|y: int| sum_fn(|x: int| h(y * width + x), width), rows - 1));
    }
}

/// Mass conservation of the streaming stage under periodic boundaries:
/// streaming only permutes the distribution values (each direction's
/// plane is cyclically rotated by that direction's velocity vector), so
/// the total mass is exactly unchanged.
pub proof fn lemma_stream_mass_periodic(f0: Seq<int>)
    requires
        f0.len() == NDIST as int,
    ensures
        total_mass(stream_field(f0, EdgePolicy::Periodic)) == total_mass(f0),
{
    let pol = EdgePolicy::Periodic;
    let f1 = stream_field(f0, pol);
    let da = |q2: int| dir_mass(f1, q2);
    let d0 = |q2: int| dir_mass(f0, q2);
    assert forall|q: int| 0 <= q < 9 implies #[trigger] da(q) == d0(q) by {
        let cxq = cx_spec(q);
        let cyq = cy_spec(q);
        let ra = |y: int| row_mass(f1, y, q);
        let r0 = |y: int| row_mass(f0, y, q);
        let rb = |y: int| r0(wrap(y - cyq, NY as int));
        assert forall|y: int| 0 <= y < NY as int implies #[trigger] ra(y) == rb(y) by {
            let sy = wrap(y - cyq, NY as int);
            let ga = |x: int| f1[idx3(x, y, q)];
            let g0 = |x: int| f0[idx3(x, sy, q)];
            let gb = |x: int| g0(wrap(x - cxq, NX as int));
            assert forall|x: int| 0 <= x < NX as int implies #[trigger] ga(x) == gb(x) by {
                lemma_idx3_decomp(x, y, q);
                assert(f1[idx3(x, y, q)] == stream_val(f0, pol, x, y, q));
            }
            lemma_sum_congruence(ga, gb, NX as int);
            lemma_sum_rotate(g0, NX as int, cxq);
            assert(row_mass(f1, y, q) == sum_fn(ga, NX as int));
            assert(sum_fn(g0, NX as int) == row_mass(f0, sy, q));
        }
        lemma_sum_congruence(ra, rb, NY as int);
        lemma_sum_rotate(r0, NY as int, cyq);
        assert(dir_mass(f1, q) == sum_fn(ra, NY as int));
        assert(sum_fn(r0, NY as int) == dir_mass(f0, q));
    }
    lemma_sum_congruence(da, d0, QDIRS as int);
    assert(total_mass(f1) == sum_fn(da, QDIRS as int));
    assert(sum_fn(d0, QDIRS as int) == total_mass(f0));
}

/// Equilibrium fixed point of collision: a distribution value that
/// already equals its equilibrium is left exactly unchanged by one
/// relaxation, whatever the relaxation parameter.
pub proof fn lemma_equilibrium_fixed_point(fv: int, feq: int, om_num: int, om_den: int)
    requires
        om_den >= 1,
        fv == feq,
    ensures
        relax_val(fv, feq, om_num, om_den) == fv,
{
    assert(om_num * (fv - feq) == 0) by (nonlinear_arith)
        requires
            fv == feq,
    ;
    crate::arith::lemma_tdiv_zero(om_den);
}

/// Bounce-back symmetry: after a full step, an obstacle cell holds in
/// direction `opp(q)` exactly its own post-streaming (pre-collision)
/// value in direction `q` — its outgoing mass is redirected to the
/// opposite direction, and no other cell's value leaks in.
pub proof fn lemma_bounce_back(
    f0: Seq<int>,
    mask: Seq<bool>,
    pol: EdgePolicy,
    x: int,
    y: int,
    q: int,
)
    requires
        0 <= x < NX as int,
        0 <= y < NY as int,
        0 <= q < 9,
        mask[cell_of(x, y)],
    ensures
        next_field(f0, mask, pol)[idx3(x, y, opp_spec(q))] == stream_field(f0, pol)[idx3(x, y, q)],
{
    lemma_opp_involution();
    lemma_idx3_decomp(x, y, opp_spec(q));
    lemma_idx3_decomp(x, y, q);
}

/// Bounce-back conserves an obstacle cell's mass exactly: the nine
/// values it holds after the step are a permutation of the nine values
/// it held after streaming.
#[verifier::rlimit(100)]
pub proof fn lemma_bounce_cell_mass(f0: Seq<int>, mask: Seq<bool>, pol: EdgePolicy, x: int, y: int)
    requires
        0 <= x < NX as int,
        0 <= y < NY as int,
        mask[cell_of(x, y)],
    ensures
        ({
            let nf = next_field(f0, mask, pol);
            let f1 = stream_field(f0, pol);
            nf[idx3(x, y, 0)] + nf[idx3(x, y, 1)] + nf[idx3(x, y, 2)] + nf[idx3(x, y, 3)]
                + nf[idx3(x, y, 4)] + nf[idx3(x, y, 5)] + nf[idx3(x, y, 6)] + nf[idx3(x, y, 7)]
                + nf[idx3(x, y, 8)] == f1[idx3(x, y, 0)] + f1[idx3(x, y, 1)] + f1[idx3(x, y, 2)]
                + f1[idx3(x, y, 3)] + f1[idx3(x, y, 4)] + f1[idx3(x, y, 5)] + f1[idx3(x, y, 6)]
                + f1[idx3(x, y, 7)] + f1[idx3(x, y, 8)]
        }),
{
    lemma_bounce_back(f0, mask, pol, x, y, 0);
    lemma_bounce_back(f0, mask, pol, x, y, 1);
    lemma_bounce_back(f0, mask, pol, x, y, 2);
    lemma_bounce_back(f0, mask, pol, x, y, 3);
    lemma_bounce_back(f0, mask, pol, x, y, 4);
    lemma_bounce_back(f0, mask, pol, x, y, 5);
    lemma_bounce_back(f0, mask, pol, x, y, 6);
    lemma_bounce_back(f0, mask, pol, x, y, 7);
    lemma_bounce_back(f0, mask, pol, x, y, 8);
}

/// Collision conserves a fluid cell's mass up to fixed-point
/// truncation: the nine equilibrium values for `(rho, u)` sum to `rho`
/// with an error of at most `35 rho + 324 SCALE` in units of
/// `1 / (36 SCALE)` — under the stability bounds fewer than
/// `rho / SCALE + 9` integer units, below 1e-4 in lattice units. In
/// exact real arithmetic the sum is exactly `rho`: the weighted
/// velocity terms of the equilibrium formula cancel by the lattice's
/// moment identities, and only the truncated divisions remain.
#[verifier::rlimit(100)]
pub proof fn lemma_collision_cell_mass(rho: int, ux: int, uy: int)
    requires
        0 < rho <= RHO_MAX as int,
        -(U_LIMIT as int) <= ux <= U_LIMIT as int,
        -(U_LIMIT as int) <= uy <= U_LIMIT as int,
    ensures
        ({
            let s = SCALE as int;
            let total = feq_val(rho, ux, uy, 0) + feq_val(rho, ux, uy, 1) + feq_val(rho, ux, uy, 2)
                + feq_val(rho, ux, uy, 3) + feq_val(rho, ux, uy, 4) + feq_val(rho, ux, uy, 5)
                + feq_val(rho, ux, uy, 6) + feq_val(rho, ux, uy, 7) + feq_val(rho, ux, uy, 8);
            -(35 * rho + 324 * s) <= 36 * s * (total - rho) <= 35 * rho + 324 * s
        }),
{
    let s = SCALE as int;
    assert(s == 100_000_000);
    assert(2 * s == 200_000_000);
    assert((WDEN as int) * (SCALE as int) == 3_600_000_000) by (nonlinear_arith)
        requires
            WDEN as int == 36,
            SCALE as int == 100_000_000,
    ;
    let cu0 = cu_of(ux, uy, 0);
    let cu1 = cu_of(ux, uy, 1);
    let cu2 = cu_of(ux, uy, 2);
    let cu3 = cu_of(ux, uy, 3);
    let cu4 = cu_of(ux, uy, 4);
    let cu5 = cu_of(ux, uy, 5);
    let cu6 = cu_of(ux, uy, 6);
    let cu7 = cu_of(ux, uy, 7);
    let cu8 = cu_of(ux, uy, 8);
    assert(cu0 == 0 && cu1 == ux && cu2 == uy && cu3 == -ux && cu4 == -uy && cu5 == ux + uy && cu6
        == -ux + uy && cu7 == -ux - uy && cu8 == ux - uy);
    let usq = usq_of(ux, uy);
    let t2_0 = tdiv(9 * cu0 * cu0, 200_000_000);
    let t2_1 = tdiv(9 * cu1 * cu1, 200_000_000);
    let t2_2 = tdiv(9 * cu2 * cu2, 200_000_000);
    let t2_3 = tdiv(9 * cu3 * cu3, 200_000_000);
    let t2_4 = tdiv(9 * cu4 * cu4, 200_000_000);
    let t2_5 = tdiv(9 * cu5 * cu5, 200_000_000);
    let t2_6 = tdiv(9 * cu6 * cu6, 200_000_000);
    let t2_7 = tdiv(9 * cu7 * cu7, 200_000_000);
    let t2_8 = tdiv(9 * cu8 * cu8, 200_000_000);
    let t3 = tdiv(3 * usq, 200_000_000);
    crate::arith::lemma_tdiv_remainder(9 * cu0 * cu0, 200_000_000);
    crate::arith::lemma_tdiv_remainder(9 * cu1 * cu1, 200_000_000);
    crate::arith::lemma_tdiv_remainder(9 * cu2 * cu2, 200_000_000);
    crate::arith::lemma_tdiv_remainder(9 * cu3 * cu3, 200_000_000);
    crate::arith::lemma_tdiv_remainder(9 * cu4 * cu4, 200_000_000);
    crate::arith::lemma_tdiv_remainder(9 * cu5 * cu5, 200_000_000);
    crate::arith::lemma_tdiv_remainder(9 * cu6 * cu6, 200_000_000);
    crate::arith::lemma_tdiv_remainder(9 * cu7 * cu7, 200_000_000);
    crate::arith::lemma_tdiv_remainder(9 * cu8 * cu8, 200_000_000);
    crate::arith::lemma_tdiv_remainder(3 * usq, 200_000_000);
    assert(9 * cu0 * cu0 >= 0 && 9 * cu1 * cu1 >= 0 && 9 * cu2 * cu2 >= 0 && 9 * cu3 * cu3 >= 0
        && 9 * cu4 * cu4 >= 0 && 9 * cu5 * cu5 >= 0 && 9 * cu6 * cu6 >= 0 && 9 * cu7 * cu7 >= 0 && 9
        * cu8 * cu8 >= 0 && usq >= 0) by (nonlinear_arith)
        requires
            usq == ux * ux + uy * uy,
    ;
    let e2_0 = 9 * cu0 * cu0 - 200_000_000 * t2_0;
    let e2_1 = 9 * cu1 * cu1 - 200_000_000 * t2_1;
    let e2_2 = 9 * cu2 * cu2 - 200_000_000 * t2_2;
    let e2_3 = 9 * cu3 * cu3 - 200_000_000 * t2_3;
    let e2_4 = 9 * cu4 * cu4 - 200_000_000 * t2_4;
    let e2_5 = 9 * cu5 * cu5 - 200_000_000 * t2_5;
    let e2_6 = 9 * cu6 * cu6 - 200_000_000 * t2_6;
    let e2_7 = 9 * cu7 * cu7 - 200_000_000 * t2_7;
    let e2_8 = 9 * cu8 * cu8 - 200_000_000 * t2_8;
    let e3 = 3 * usq - 200_000_000 * t3;
    let b0 = br_of(ux, uy, 0);
    let b1 = br_of(ux, uy, 1);
    let b2 = br_of(ux, uy, 2);
    let b3 = br_of(ux, uy, 3);
    let b4 = br_of(ux, uy, 4);
    let b5 = br_of(ux, uy, 5);
    let b6 = br_of(ux, uy, 6);
    let b7 = br_of(ux, uy, 7);
    let b8 = br_of(ux, uy, 8);
    assert(b0 == s + 3 * cu0 + t2_0 - t3);
    assert(b1 == s + 3 * cu1 + t2_1 - t3);
    assert(b2 == s + 3 * cu2 + t2_2 - t3);
    assert(b3 == s + 3 * cu3 + t2_3 - t3);
    assert(b4 == s + 3 * cu4 + t2_4 - t3);
    assert(b5 == s + 3 * cu5 + t2_5 - t3);
    assert(b6 == s + 3 * cu6 + t2_6 - t3);
    assert(b7 == s + 3 * cu7 + t2_7 - t3);
    assert(b8 == s + 3 * cu8 + t2_8 - t3);
    let w_sum = 16 * b0 + 4 * b1 + 4 * b2 + 4 * b3 + 4 * b4 + b5 + b6 + b7 + b8;
    let xx = w_sum - 3_600_000_000;
    assert(xx == (16 * t2_0 + 4 * t2_1 + 4 * t2_2 + 4 * t2_3 + 4 * t2_4 + t2_5 + t2_6 + t2_7
        + t2_8) - 36 * t3);
    assert(16 * (9 * cu0 * cu0) + 4 * (9 * cu1 * cu1) + 4 * (9 * cu2 * cu2) + 4 * (9 * cu3 * cu3)
        + 4 * (9 * cu4 * cu4) + (9 * cu5 * cu5) + (9 * cu6 * cu6) + (9 * cu7 * cu7) + (9 * cu8
        * cu8) == 108 * usq) by (nonlinear_arith)
        requires
            cu0 == 0,
            cu1 == ux,
            cu2 == uy,
            cu3 == -ux,
            cu4 == -uy,
            cu5 == ux + uy,
            cu6 == -ux + uy,
            cu7 == -ux - uy,
            cu8 == ux - uy,
            usq == ux * ux + uy * uy,
    ;
    let ee2 = 16 * e2_0 + 4 * e2_1 + 4 * e2_2 + 4 * e2_3 + 4 * e2_4 + e2_5 + e2_6 + e2_7 + e2_8;
    assert(0 <= ee2 <= 36 * 199_999_999);
    assert(0 <= 36 * e3 <= 36 * 199_999_999);
    assert(200_000_000 * xx == 36 * e3 - ee2);
    assert(-36 < xx && xx < 36);
    let a0 = w_num_spec(0) * rho * b0;
    let a1 = w_num_spec(1) * rho * b1;
    let a2 = w_num_spec(2) * rho * b2;
    let a3 = w_num_spec(3) * rho * b3;
    let a4 = w_num_spec(4) * rho * b4;
    let a5 = w_num_spec(5) * rho * b5;
    let a6 = w_num_spec(6) * rho * b6;
    let a7 = w_num_spec(7) * rho * b7;
    let a8 = w_num_spec(8) * rho * b8;
    crate::arith::lemma_tdiv_remainder(a0, 3_600_000_000);
    crate::arith::lemma_tdiv_remainder(a1, 3_600_000_000);
    crate::arith::lemma_tdiv_remainder(a2, 3_600_000_000);
    crate::arith::lemma_tdiv_remainder(a3, 3_600_000_000);
    crate::arith::lemma_tdiv_remainder(a4, 3_600_000_000);
    crate::arith::lemma_tdiv_remainder(a5, 3_600_000_000);
    crate::arith::lemma_tdiv_remainder(a6, 3_600_000_000);
    crate::arith::lemma_tdiv_remainder(a7, 3_600_000_000);
    crate::arith::lemma_tdiv_remainder(a8, 3_600_000_000);
    assert(a0 + a1 + a2 + a3 + a4 + a5 + a6 + a7 + a8 == rho * w_sum) by (nonlinear_arith)
        requires
            a0 == 16 * rho * b0,
            a1 == 4 * rho * b1,
            a2 == 4 * rho * b2,
            a3 == 4 * rho * b3,
            a4 == 4 * rho * b4,
            a5 == 1 * rho * b5,
            a6 == 1 * rho * b6,
            a7 == 1 * rho * b7,
            a8 == 1 * rho * b8,
            w_sum == 16 * b0 + 4 * b1 + 4 * b2 + 4 * b3 + 4 * b4 + b5 + b6 + b7 + b8,
    ;
    assert(rho * w_sum == 3_600_000_000 * rho + rho * xx) by (nonlinear_arith)
        requires
            w_sum == 3_600_000_000 + xx,
    ;
    assert(-35 * rho <= rho * xx <= 35 * rho) by (nonlinear_arith)
        requires
            -36 < xx < 36,
            rho > 0,
    ;
    let total = feq_val(rho, ux, uy, 0) + feq_val(rho, ux, uy, 1) + feq_val(rho, ux, uy, 2)
        + feq_val(rho, ux, uy, 3) + feq_val(rho, ux, uy, 4) + feq_val(rho, ux, uy, 5) + feq_val(
        rho,
        ux,
        uy,
        6,
    ) + feq_val(rho, ux, uy, 7) + feq_val(rho, ux, uy, 8);
    assert(feq_val(rho, ux, uy, 0) == tdiv(a0, 3_600_000_000));
    assert(feq_val(rho, ux, uy, 1) == tdiv(a1, 3_600_000_000));
    assert(feq_val(rho, ux, uy, 2) == tdiv(a2, 3_600_000_000));
    assert(feq_val(rho, ux, uy, 3) == tdiv(a3, 3_600_000_000));
    assert(feq_val(rho, ux, uy, 4) == tdiv(a4, 3_600_000_000));
    assert(feq_val(rho, ux, uy, 5) == tdiv(a5, 3_600_000_000));
    assert(feq_val(rho, ux, uy, 6) == tdiv(a6, 3_600_000_000));
    assert(feq_val(rho, ux, uy, 7) == tdiv(a7, 3_600_000_000));
    assert(feq_val(rho, ux, uy, 8) == tdiv(a8, 3_600_000_000));
    let rr = (a0 - 3_600_000_000 * tdiv(a0, 3_600_000_000)) + (a1 - 3_600_000_000 * tdiv(
        a1,
        3_600_000_000,
    )) + (a2 - 3_600_000_000 * tdiv(a2, 3_600_000_000)) + (a3 - 3_600_000_000 * tdiv(
        a3,
        3_600_000_000,
    )) + (a4 - 3_600_000_000 * tdiv(a4, 3_600_000_000)) + (a5 - 3_600_000_000 * tdiv(
        a5,
        3_600_000_000,
    )) + (a6 - 3_600_000_000 * tdiv(a6, 3_600_000_000)) + (a7 - 3_600_000_000 * tdiv(
        a7,
        3_600_000_000,
    )) + (a8 - 3_600_000_000 * tdiv(a8, 3_600_000_000));
    assert(-9 * 3_600_000_000 < rr < 9 * 3_600_000_000);
    assert(3_600_000_000 * (total - rho) == rho * xx - rr);
    assert(36 * s * (total - rho) == 3_600_000_000 * (total - rho)) by (nonlinear_arith)
        requires
            s == 100_000_000,
    ;
    assert(-(35 * rho + 324 * s) <= 36 * s * (total - rho) <= 35 * rho + 324 * s);
}

/// Inflow pinning: after a full step under the inflow/outflow policy,
/// every fluid cell of the leftmost column holds exactly the
/// equilibrium distribution for density 1 and the inflow velocity.
pub proof fn lemma_inflow_left_column(f0: Seq<int>, mask: Seq<bool>, y: int, q: int)
    requires
        0 <= y < NY as int,
        0 <= q < 9,
        !mask[cell_of(0, y)],
    ensures
        next_field(f0, mask, EdgePolicy::InflowOutflow)[idx3(0, y, q)] == feq_val(
            SCALE as int,
            INFLOW_UX as int,
            INFLOW_UY as int,
            q,
        ),
{
    lemma_idx3_decomp(0, y, q);
}

/// Inflow pinning of the macroscopic fields: the leftmost column's
/// velocity is held at the configured inflow velocity after every
/// successful step.
pub proof fn lemma_inflow_velocity_pinned(
    f0: Seq<int>,
    mask: Seq<bool>,
    old_ux: Seq<int>,
    old_uy: Seq<int>,
    y: int,
)
    requires
        0 <= y < NY as int,
        !mask[cell_of(0, y)],
    ensures
        next_ux_at(f0, mask, EdgePolicy::InflowOutflow, old_ux, cell_of(0, y)) == INFLOW_UX as int,
        next_uy_at(f0, mask, EdgePolicy::InflowOutflow, old_uy, cell_of(0, y)) == INFLOW_UY as int,
{
    lemma_idx3_decomp(0, y, 0);
}

/// Outflow closure: after a full step under the inflow/outflow policy,
/// a fluid cell of the rightmost column holds, in each direction,
/// either its left neighbor's post-collision value (for the directions
/// that point back into the domain) or the equilibrium value for the
/// cell's own just-derived density and velocity — so the column can
/// never hold more than those two sources supply.
pub proof fn lemma_outflow_right_column(f0: Seq<int>, mask: Seq<bool>, y: int, q: int)
    requires
        0 <= y < NY as int,
        0 <= q < 9,
        !mask[cell_of(NX as int - 1, y)],
    ensures
        ({
            let f1 = stream_field(f0, EdgePolicy::InflowOutflow);
            let f2 = collide_field(f1, mask);
            let c = cell_of(NX as int - 1, y);
            if cx_spec(q) == -1 {
                next_field(f0, mask, EdgePolicy::InflowOutflow)[idx3(NX as int - 1, y, q)] == f2[
                    idx3(NX as int - 2, y, q)]
            } else {
                next_field(f0, mask, EdgePolicy::InflowOutflow)[idx3(NX as int - 1, y, q)]
                    == feq_val(rho_of(f1, c), ux_of(f1, c), uy_of(f1, c), q)
            }
        }),
{
    lemma_idx3_decomp(NX as int - 1, y, q);
    lemma_idx3_decomp(NX as int - 2, y, q);
}

/// Mass conservation over one full step with periodic edges and no
/// obstacle: streaming permutes the distribution values exactly, and
/// collision preserves each cell's density up to fixed-point
/// truncation, so the total mass moves by less than
/// `total / SCALE + 9 NCELLS` integer units — for a grid near density 1
/// that is below 2e-3 in lattice units against a total of 20000.
#[verifier::rlimit(100)]
pub proof fn lemma_step_mass_periodic(f0: Seq<int>, mask: Seq<bool>)
    requires
        f0.len() == NDIST as int,
        mask.len() == NCELLS as int,
        forall|c: int| 0 <= c < NCELLS as int ==> !mask[c],
        all_stable(stream_field(f0, EdgePolicy::Periodic), mask),
    ensures
        ({
            let s = SCALE as int;
            let diff = total_mass(next_field(f0, mask, EdgePolicy::Periodic)) - total_mass(f0);
            -(35 * total_mass(f0) + 324 * (NCELLS as int) * s) <= 36 * s * diff <= 35 * total_mass(
                f0,
            ) + 324 * (NCELLS as int) * s
        }),
{
    let s = SCALE as int;
    assert(s == 100_000_000);
    let pol = EdgePolicy::Periodic;
    let f1 = stream_field(f0, pol);
    let f2 = collide_field(f1, mask);
    let nf = next_field(f0, mask, pol);
    assert forall|i: int| 0 <= i < NDIST as int implies #[trigger] nf[i] == f2[i] by {
        lemma_dist_bounds(i);
    }
    lemma_total_mass_congruence(nf, f2);
    lemma_stream_mass_periodic(f0);
    lemma_total_mass_by_cells(f2);
    lemma_total_mass_by_cells(f1);
    let rc2 = |c: int| rho_of(f2, c);
    let rc1 = |c: int| rho_of(f1, c);
    let uu = |c: int| 3_600_000_000 * rc2(c);
    let vv = |c: int| 3_600_000_000 * rc1(c);
    let w35 = |c: int| 35 * rc1(c);
    let cnst = |x: int| 32_400_000_000;
    let ww = |x: int| w35(x) + cnst(x);
    assert forall|c: int| 0 <= c < NCELLS as int implies -(ww(c)) <= (#[trigger] uu(c)) - vv(c)
        && uu(c) - vv(c) <= ww(c) by {
        lemma_cell_bounds(c);
        assert(!mask[c]);
        assert(cell_stable(f1, c));
        let rho = rho_of(f1, c);
        let uxv = ux_of(f1, c);
        let uyv = uy_of(f1, c);
        lemma_collision_cell_mass(rho, uxv, uyv);
        assert forall|t: int| 0 <= t < 9 implies f2[#[trigger] (9 * c + t)] == feq_val(
            rho,
            uxv,
            uyv,
            t,
        ) by {
            lemma_idx3_decomp(xc(c), yc(c), t);
            crate::arith::lemma_tdiv_one(
                (OMEGA_NUM as int) * (f1[9 * c + t] - feq_val(rho, uxv, uyv, t)),
            );
        }
        assert(rho_of(f2, c) == feq_val(rho, uxv, uyv, 0) + feq_val(rho, uxv, uyv, 1) + feq_val(
            rho,
            uxv,
            uyv,
            2,
        ) + feq_val(rho, uxv, uyv, 3) + feq_val(rho, uxv, uyv, 4) + feq_val(rho, uxv, uyv, 5)
            + feq_val(rho, uxv, uyv, 6) + feq_val(rho, uxv, uyv, 7) + feq_val(rho, uxv, uyv, 8));
        let dsum = rho_of(f2, c) - rho;
        assert(36 * s * dsum == 3_600_000_000 * dsum) by (nonlinear_arith)
            requires
                s == 100_000_000,
        ;
        assert(324 * s == 32_400_000_000);
    }
    lemma_sum_bound(uu, vv, ww, NCELLS as int);
    lemma_sum_scale(rc2, 3_600_000_000, NCELLS as int);
    lemma_sum_scale(rc1, 3_600_000_000, NCELLS as int);
    lemma_sum_scale(rc1, 35, NCELLS as int);
    lemma_sum_add(w35, cnst, NCELLS as int);
    lemma_sum_const(32_400_000_000, NCELLS as int);
    lemma_sum_congruence(|x: int| 35 * rc1(x), w35, NCELLS as int);
    lemma_sum_congruence(|x: int| 32_400_000_000, cnst, NCELLS as int);
    let t2 = total_mass(f2);
    let t1 = total_mass(f1);
    assert(sum_fn(uu, NCELLS as int) == 3_600_000_000 * t2);
    assert(sum_fn(vv, NCELLS as int) == 3_600_000_000 * t1);
    assert(sum_fn(ww, NCELLS as int) == 35 * t1 + 32_400_000_000 * (NCELLS as int));
    let diff = total_mass(nf) - total_mass(f0);
    assert(3_600_000_000 * t2 - 3_600_000_000 * t1 == 3_600_000_000 * diff);
    assert(36 * s * diff == 3_600_000_000 * diff) by (nonlinear_arith)
        requires
            s == 100_000_000,
    ;
    assert(324 * (NCELLS as int) * s == 32_400_000_000 * (NCELLS as int)) by (nonlinear_arith)
        requires
            s == 100_000_000,
    ;
}

} // verus!
