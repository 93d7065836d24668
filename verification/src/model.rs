//! The mathematical model of the solver: every stage of the per-timestep
//! pipeline as a function on integer sequences, in the same fixed-point
//! arithmetic the executable code uses.
//!
//! A distribution field is a sequence of `NX * NY * 9` values; entry
//! `idx3(x, y, q)` is the value at cell `(x, y)` in direction `q`, scaled
//! by [`SCALE`].

use vstd::prelude::*;
use vstd::arithmetic::div_mod::{
    lemma_div_multiples_vanish, lemma_fundamental_div_mod, lemma_fundamental_div_mod_converse,
    lemma_mod_pos_bound,
};
use crate::arith::{lemma_tdiv_bound, tdiv};
use crate::lattice::{
    cx_spec, cy_spec, opp_spec, w_num_spec, NCELLS, NDIST, NX, NY, QDIRS, SCALE, WDEN,
};

verus! {

/// A fluid cell whose density leaves `(0, RHO_MAX]` (in units of
/// `SCALE`, so `RHO_MAX` is a density of 10^4) makes the step fail as
/// unstable.
pub const RHO_MAX: i64 = 1_000_000_000_000;

/// A fluid cell whose velocity component leaves `[-U_LIMIT, U_LIMIT]`
/// (one lattice unit per step — far past the low-Mach validity range)
/// makes the step fail as unstable.
pub const U_LIMIT: i64 = SCALE;

/// Every equilibrium value computed under the stability bounds lies in
/// `[-FEQ_MAX, FEQ_MAX]`.
pub const FEQ_MAX: i64 = 13_000_000_000_000;

/// Inflow velocity imposed at the left edge under the inflow/outflow
/// policy (0.05 lattice units per step).
pub const INFLOW_UX: i64 = 5_000_000;

/// Vertical inflow velocity at the left edge (zero).
pub const INFLOW_UY: i64 = 0;

/// Numerator of the relaxation parameter omega.
pub const OMEGA_NUM: i64 = 1;

/// Denominator of the relaxation parameter omega; omega is 1, a
/// relaxation time of one lattice unit.
pub const OMEGA_DEN: i64 = 1;

/// Treatment of the grid's edges, chosen once at construction.
#[derive(Clone, Copy, PartialEq, Eq, Structural, Debug)]
pub enum EdgePolicy {
    /// Both axes wrap around.
    Periodic,
    /// Solid slip walls at the top and bottom rows; left and right wrap.
    SlipWall,
    /// Fixed-velocity inflow at the left column, zero-gradient outflow at
    /// the right column; top and bottom wrap.
    InflowOutflow,
}

/// Initial velocity profile used to seed the equilibrium distribution.
#[derive(Clone, Copy, PartialEq, Eq, Structural, Debug)]
pub enum InitProfile {
    /// The same velocity at every cell.
    Uniform { ux: i64, uy: i64 },
    /// One horizontal velocity left of the obstacle's x-coordinate,
    /// another right of it; no vertical component.
    TwoZone { upstream_ux: i64, downstream_ux: i64 },
}

/// View of a fixed-point vector as a sequence of unbounded integers.
pub open spec fn as_ints(s: Seq<i64>) -> Seq<int> {
    Seq::new(s.len(), |i: int| s[i] as int)
}

/// Index of cell `(x, y)` in a per-cell field.
pub open spec fn cell_of(x: int, y: int) -> int {
    y * (NX as int) + x
}

/// Index of `(x, y, q)` in a distribution field.
pub open spec fn idx3(x: int, y: int, q: int) -> int {
    cell_of(x, y) * (QDIRS as int) + q
}

/// Column of the cell holding distribution entry `i`.
pub open spec fn xi(i: int) -> int {
    (i / (QDIRS as int)) % (NX as int)
}

/// Row of the cell holding distribution entry `i`.
pub open spec fn yi(i: int) -> int {
    (i / (QDIRS as int)) / (NX as int)
}

/// Direction of distribution entry `i`.
pub open spec fn qi(i: int) -> int {
    i % (QDIRS as int)
}

/// Column of cell `c`.
pub open spec fn xc(c: int) -> int {
    c % (NX as int)
}

/// Row of cell `c`.
pub open spec fn yc(c: int) -> int {
    c / (NX as int)
}

/// `idx3` and the coordinate extractors are inverse to each other.
pub proof fn lemma_idx3_decomp(x: int, y: int, q: int)
    requires
        0 <= x < NX as int,
        0 <= y < NY as int,
        0 <= q < QDIRS as int,
    ensures
        0 <= idx3(x, y, q) < NDIST as int,
        xi(idx3(x, y, q)) == x,
        yi(idx3(x, y, q)) == y,
        qi(idx3(x, y, q)) == q,
        idx3(x, y, q) / (QDIRS as int) == cell_of(x, y),
        xc(cell_of(x, y)) == x,
        yc(cell_of(x, y)) == y,
        0 <= cell_of(x, y) < NCELLS as int,
{
    let c = cell_of(x, y);
    lemma_fundamental_div_mod_converse(idx3(x, y, q), QDIRS as int, c, q);
    lemma_fundamental_div_mod_converse(c, NX as int, y, x);
}

/// Coordinates of a valid cell index are in range and invert `cell_of`.
pub proof fn lemma_cell_bounds(c: int)
    requires
        0 <= c < NCELLS as int,
    ensures
        0 <= xc(c) < NX as int,
        0 <= yc(c) < NY as int,
        cell_of(xc(c), yc(c)) == c,
{
    lemma_fundamental_div_mod(c, NX as int);
    lemma_mod_pos_bound(c, NX as int);
}

/// Coordinates of a valid distribution index are in range and invert
/// `idx3`.
pub proof fn lemma_dist_bounds(i: int)
    requires
        0 <= i < NDIST as int,
    ensures
        0 <= xi(i) < NX as int,
        0 <= yi(i) < NY as int,
        0 <= qi(i) < QDIRS as int,
        0 <= i / (QDIRS as int) < NCELLS as int,
        xc(i / (QDIRS as int)) == xi(i),
        yc(i / (QDIRS as int)) == yi(i),
        idx3(xi(i), yi(i), qi(i)) == i,
        i / (QDIRS as int) == cell_of(xi(i), yi(i)),
{
    lemma_fundamental_div_mod(i, QDIRS as int);
    lemma_mod_pos_bound(i, QDIRS as int);
    lemma_cell_bounds(i / (QDIRS as int));
}

/// The constructors accept a velocity profile whose components stay
/// within the stability limit.
pub open spec fn profile_ok(profile: InitProfile) -> bool {
    match profile {
        InitProfile::Uniform { ux, uy } => {
            &&& -(U_LIMIT as int) <= ux as int <= U_LIMIT as int
            &&& -(U_LIMIT as int) <= uy as int <= U_LIMIT as int
        },
        InitProfile::TwoZone { upstream_ux, downstream_ux } => {
            &&& -(U_LIMIT as int) <= upstream_ux as int <= U_LIMIT as int
            &&& -(U_LIMIT as int) <= downstream_ux as int <= U_LIMIT as int
        },
    }
}

/// Geometry parameters the constructors accept, bounded so that the
/// squared-distance obstacle test cannot overflow.
pub const GEOM_LIMIT: i64 = 1_000_000_000_000_000;

/// Wrap an index that is off the `[0, n)` range by at most one period.
pub open spec fn wrap(v: int, n: int) -> int {
    if v < 0 {
        v + n
    } else if v >= n {
        v - n
    } else {
        v
    }
}

/// Value that streaming writes at `(x, y, q)`: the value pulled from the
/// cell one velocity vector upstream, wrapping around the edges. Under
/// the slip-wall policy a vertically out-of-range source is not pulled:
/// the destination keeps its previous value (the boundary stage rewrites
/// exactly those entries afterwards).
pub open spec fn stream_val(f0: Seq<int>, pol: EdgePolicy, x: int, y: int, q: int) -> int {
    let sy = y - cy_spec(q);
    if pol == EdgePolicy::SlipWall && !(0 <= sy < NY as int) {
        f0[idx3(x, y, q)]
    } else {
        f0[idx3(wrap(x - cx_spec(q), NX as int), wrap(sy, NY as int), q)]
    }
}

/// The whole field after the streaming stage.
pub open spec fn stream_field(f0: Seq<int>, pol: EdgePolicy) -> Seq<int> {
    Seq::new(NDIST as nat, |i: int| stream_val(f0, pol, xi(i), yi(i), qi(i)))
}

/// Density at cell `c`: the sum of the cell's nine distribution values.
pub open spec fn rho_of(f: Seq<int>, c: int) -> int {
    f[9 * c] + f[9 * c + 1] + f[9 * c + 2] + f[9 * c + 3] + f[9 * c + 4] + f[9 * c + 5] + f[9
        * c + 6] + f[9 * c + 7] + f[9 * c + 8]
}

/// Horizontal momentum at cell `c`: the distribution values weighted by
/// the directions' horizontal velocity components.
pub open spec fn mx_of(f: Seq<int>, c: int) -> int {
    f[9 * c + 1] - f[9 * c + 3] + f[9 * c + 5] - f[9 * c + 6] - f[9 * c + 7] + f[9 * c + 8]
}

/// Vertical momentum at cell `c`.
pub open spec fn my_of(f: Seq<int>, c: int) -> int {
    f[9 * c + 2] - f[9 * c + 4] + f[9 * c + 5] + f[9 * c + 6] - f[9 * c + 7] - f[9 * c + 8]
}

/// Horizontal velocity at cell `c`: momentum over density, in `SCALE`
/// units.
pub open spec fn ux_of(f: Seq<int>, c: int) -> int {
    tdiv(mx_of(f, c) * (SCALE as int), rho_of(f, c))
}

/// Vertical velocity at cell `c`.
pub open spec fn uy_of(f: Seq<int>, c: int) -> int {
    tdiv(my_of(f, c) * (SCALE as int), rho_of(f, c))
}

/// A fluid cell is stable when its density is positive and not absurdly
/// large and its velocity stays within one lattice unit per step.
pub open spec fn cell_stable(f: Seq<int>, c: int) -> bool {
    &&& 0 < rho_of(f, c) <= RHO_MAX as int
    &&& -(U_LIMIT as int) <= ux_of(f, c) <= U_LIMIT as int
    &&& -(U_LIMIT as int) <= uy_of(f, c) <= U_LIMIT as int
}

/// The step succeeds exactly when every fluid cell of the post-streaming
/// field is stable.
pub open spec fn all_stable(f: Seq<int>, mask: Seq<bool>) -> bool {
    forall|c: int| 0 <= c < NCELLS as int && !mask[c] ==> #[trigger] cell_stable(f, c)
}

/// Projection of velocity `(ux, uy)` onto direction `q`'s velocity
/// vector.
pub open spec fn cu_of(ux: int, uy: int, q: int) -> int {
    cx_spec(q) * ux + cy_spec(q) * uy
}

/// Squared speed.
pub open spec fn usq_of(ux: int, uy: int) -> int {
    ux * ux + uy * uy
}

/// The bracket `(1 + 3 c.u + 4.5 (c.u)^2 - 1.5 |u|^2)` of the
/// equilibrium formula, in `SCALE` units, with each division truncated.
pub open spec fn br_of(ux: int, uy: int, q: int) -> int {
    (SCALE as int) + 3 * cu_of(ux, uy, q) + tdiv(
        9 * cu_of(ux, uy, q) * cu_of(ux, uy, q),
        2 * (SCALE as int),
    ) - tdiv(3 * usq_of(ux, uy), 2 * (SCALE as int))
}

/// The discrete equilibrium distribution in direction `q` for density
/// `rho` and velocity `(ux, uy)` (all in `SCALE` units):
/// `w_q * rho * (1 + 3 c.u + 4.5 (c.u)^2 - 1.5 |u|^2)`, with each
/// division truncated.
pub open spec fn feq_val(rho: int, ux: int, uy: int, q: int) -> int {
    tdiv(w_num_spec(q) * rho * br_of(ux, uy, q), (WDEN as int) * (SCALE as int))
}

/// One BGK relaxation: move `fv` toward `feq` by the fraction
/// `om_num / om_den`.
pub open spec fn relax_val(fv: int, feq: int, om_num: int, om_den: int) -> int {
    fv - tdiv(om_num * (fv - feq), om_den)
}

/// Value of distribution entry `i` after the collision stage: obstacle
/// cells are left alone, fluid cells are relaxed toward the equilibrium
/// of their own just-computed density and velocity.
pub open spec fn collide_val(f1: Seq<int>, mask: Seq<bool>, i: int) -> int {
    let c = i / (QDIRS as int);
    if mask[c] {
        f1[i]
    } else {
        relax_val(
            f1[i],
            feq_val(rho_of(f1, c), ux_of(f1, c), uy_of(f1, c), qi(i)),
            OMEGA_NUM as int,
            OMEGA_DEN as int,
        )
    }
}

/// The whole field after the collision stage.
pub open spec fn collide_field(f1: Seq<int>, mask: Seq<bool>) -> Seq<int> {
    Seq::new(NDIST as nat, |i: int| collide_val(f1, mask, i))
}

/// Value of distribution entry `i` after the edge-policy stage, applied
/// to the post-collision field `f2`; `f1` is the post-streaming field,
/// whose macroscopic values the outflow closure reads. Obstacle cells
/// are excluded from every edge correction.
pub open spec fn edge_val(
    f2: Seq<int>,
    f1: Seq<int>,
    mask: Seq<bool>,
    pol: EdgePolicy,
    i: int,
) -> int {
    let x = xi(i);
    let y = yi(i);
    let q = qi(i);
    let c = i / (QDIRS as int);
    if mask[c] {
        f2[i]
    } else if pol == EdgePolicy::SlipWall {
        if y == NY as int - 1 {
            if q == 4 {
                f2[idx3(x, y, 2)]
            } else if q == 7 {
                f2[idx3(x, y, 6)]
            } else if q == 8 {
                f2[idx3(x, y, 5)]
            } else {
                f2[i]
            }
        } else if y == 0 {
            if q == 2 {
                f2[idx3(x, y, 4)]
            } else if q == 6 {
                f2[idx3(x, y, 7)]
            } else if q == 5 {
                f2[idx3(x, y, 8)]
            } else {
                f2[i]
            }
        } else {
            f2[i]
        }
    } else if pol == EdgePolicy::InflowOutflow {
        if x == 0 {
            feq_val(SCALE as int, INFLOW_UX as int, INFLOW_UY as int, q)
        } else if x == NX as int - 1 {
            if cx_spec(q) == -1 {
                f2[idx3(x - 1, y, q)]
            } else {
                feq_val(rho_of(f1, c), ux_of(f1, c), uy_of(f1, c), q)
            }
        } else {
            f2[i]
        }
    } else {
        f2[i]
    }
}

/// The whole field after the edge-policy stage.
pub open spec fn edge_field(
    f2: Seq<int>,
    f1: Seq<int>,
    mask: Seq<bool>,
    pol: EdgePolicy,
) -> Seq<int> {
    Seq::new(NDIST as nat, |i: int| edge_val(f2, f1, mask, pol, i))
}

/// Value of distribution entry `i` after obstacle bounce-back: at an
/// obstacle cell the value in direction `q` becomes the cell's own
/// pre-collision (post-streaming) value in the opposite direction.
pub open spec fn bounce_val(f3: Seq<int>, f1: Seq<int>, mask: Seq<bool>, i: int) -> int {
    let c = i / (QDIRS as int);
    if mask[c] {
        f1[9 * c + opp_spec(qi(i))]
    } else {
        f3[i]
    }
}

/// The whole field after bounce-back.
pub open spec fn bounce_field(f3: Seq<int>, f1: Seq<int>, mask: Seq<bool>) -> Seq<int> {
    Seq::new(NDIST as nat, |i: int| bounce_val(f3, f1, mask, i))
}

/// The distribution field after one full step
/// (streaming, collision, edge policy, bounce-back).
pub open spec fn next_field(f0: Seq<int>, mask: Seq<bool>, pol: EdgePolicy) -> Seq<int> {
    let f1 = stream_field(f0, pol);
    let f2 = collide_field(f1, mask);
    let f3 = edge_field(f2, f1, mask, pol);
    bounce_field(f3, f1, mask)
}

/// Density field entry at cell `c` after one full step. Obstacle cells
/// keep their previous value; the inflow column is pinned to density 1.
pub open spec fn next_rho_at(
    f0: Seq<int>,
    mask: Seq<bool>,
    pol: EdgePolicy,
    old_rho: Seq<int>,
    c: int,
) -> int {
    if mask[c] {
        old_rho[c]
    } else if pol == EdgePolicy::InflowOutflow && xc(c) == 0 {
        SCALE as int
    } else {
        rho_of(stream_field(f0, pol), c)
    }
}

/// Horizontal velocity field entry at cell `c` after one full step.
pub open spec fn next_ux_at(
    f0: Seq<int>,
    mask: Seq<bool>,
    pol: EdgePolicy,
    old_ux: Seq<int>,
    c: int,
) -> int {
    if mask[c] {
        old_ux[c]
    } else if pol == EdgePolicy::InflowOutflow && xc(c) == 0 {
        INFLOW_UX as int
    } else {
        ux_of(stream_field(f0, pol), c)
    }
}

/// Vertical velocity field entry at cell `c` after one full step: the
/// slip walls zero it on the top and bottom rows, the inflow column pins
/// it to the inflow value.
pub open spec fn next_uy_at(
    f0: Seq<int>,
    mask: Seq<bool>,
    pol: EdgePolicy,
    old_uy: Seq<int>,
    c: int,
) -> int {
    if mask[c] {
        old_uy[c]
    } else if pol == EdgePolicy::InflowOutflow && xc(c) == 0 {
        INFLOW_UY as int
    } else if pol == EdgePolicy::SlipWall && (yc(c) == 0 || yc(c) == NY as int - 1) {
        0
    } else {
        uy_of(stream_field(f0, pol), c)
    }
}

/// Density field entry at cell `c` after the edge stage, given the
/// post-collision density field `rho2`.
pub open spec fn edge_rho_at(rho2: Seq<int>, mask: Seq<bool>, pol: EdgePolicy, c: int) -> int {
    if !mask[c] && pol == EdgePolicy::InflowOutflow && xc(c) == 0 {
        SCALE as int
    } else {
        rho2[c]
    }
}

/// Horizontal velocity field entry at cell `c` after the edge stage.
pub open spec fn edge_ux_at(ux2: Seq<int>, mask: Seq<bool>, pol: EdgePolicy, c: int) -> int {
    if !mask[c] && pol == EdgePolicy::InflowOutflow && xc(c) == 0 {
        INFLOW_UX as int
    } else {
        ux2[c]
    }
}

/// Vertical velocity field entry at cell `c` after the edge stage.
pub open spec fn edge_uy_at(uy2: Seq<int>, mask: Seq<bool>, pol: EdgePolicy, c: int) -> int {
    if !mask[c] && pol == EdgePolicy::InflowOutflow && xc(c) == 0 {
        INFLOW_UY as int
    } else if !mask[c] && pol == EdgePolicy::SlipWall && (yc(c) == 0 || yc(c) == NY as int - 1) {
        0
    } else {
        uy2[c]
    }
}

/// Whether cell `(x, y)` lies strictly inside the configured circle
/// (`radius`, `ccx`, `ccy` in `SCALE` units); cells exactly on the
/// circle are fluid.
pub open spec fn obstacle_at(radius: int, ccx: int, ccy: int, x: int, y: int) -> bool {
    let dx = x * (SCALE as int) - ccx;
    let dy = y * (SCALE as int) - ccy;
    dx * dx + dy * dy < radius * radius
}

/// Initial horizontal velocity at column `x` for a profile (the obstacle
/// center's x-coordinate `ccx` splits the two-zone profile).
pub open spec fn init_ux_at(profile: InitProfile, ccx: int, x: int) -> int {
    match profile {
        InitProfile::Uniform { ux, .. } => ux as int,
        InitProfile::TwoZone { upstream_ux, downstream_ux } => {
            if x * (SCALE as int) < ccx {
                upstream_ux as int
            } else {
                downstream_ux as int
            }
        },
    }
}

/// Initial vertical velocity for a profile.
pub open spec fn init_uy_at(profile: InitProfile) -> int {
    match profile {
        InitProfile::Uniform { uy, .. } => uy as int,
        InitProfile::TwoZone { .. } => 0,
    }
}

/// Initial distribution value at `(x, y, q)`: the equilibrium for
/// density 1 and the profile's velocity.
pub open spec fn init_f_at(profile: InitProfile, ccx: int, x: int, q: int) -> int {
    feq_val(SCALE as int, init_ux_at(profile, ccx, x), init_uy_at(profile), q)
}

/// Initial density at column `x`: the sum of the nine equilibrium
/// values just written there.
pub open spec fn init_rho_at(profile: InitProfile, ccx: int, x: int) -> int {
    init_f_at(profile, ccx, x, 0) + init_f_at(profile, ccx, x, 1) + init_f_at(profile, ccx, x, 2)
        + init_f_at(profile, ccx, x, 3) + init_f_at(profile, ccx, x, 4) + init_f_at(
        profile,
        ccx,
        x,
        5,
    ) + init_f_at(profile, ccx, x, 6) + init_f_at(profile, ccx, x, 7) + init_f_at(
        profile,
        ccx,
        x,
        8,
    )
}

/// Under the stability bounds every equilibrium value fits well inside
/// `i64`.
pub proof fn lemma_feq_bound(rho: int, ux: int, uy: int, q: int)
    requires
        0 < rho <= RHO_MAX as int,
        -(U_LIMIT as int) <= ux <= U_LIMIT as int,
        -(U_LIMIT as int) <= uy <= U_LIMIT as int,
        0 <= q < 9,
    ensures
        -2 * (SCALE as int) <= cu_of(ux, uy, q) <= 2 * (SCALE as int),
        0 <= usq_of(ux, uy) <= 2 * (SCALE as int) * (SCALE as int),
        -18 * (SCALE as int) <= tdiv(
            9 * cu_of(ux, uy, q) * cu_of(ux, uy, q),
            2 * (SCALE as int),
        ) <= 18 * (SCALE as int),
        -3 * (SCALE as int) <= tdiv(3 * usq_of(ux, uy), 2 * (SCALE as int)) <= 3 * (SCALE as int),
        -28 * (SCALE as int) <= br_of(ux, uy, q) <= 28 * (SCALE as int),
        -448 * (SCALE as int) * (RHO_MAX as int) <= w_num_spec(q) * rho * br_of(ux, uy, q) <= 448 * (
        SCALE as int) * (RHO_MAX as int),
        -(FEQ_MAX as int) <= feq_val(rho, ux, uy, q) <= FEQ_MAX as int,
{
    let s = SCALE as int;
    let rm = RHO_MAX as int;
    assert(s == 100_000_000);
    assert(rm == 1_000_000_000_000);
    let a = cx_spec(q);
    let b = cy_spec(q);
    assert(-1 <= a <= 1 && -1 <= b <= 1);
    let cu = cu_of(ux, uy, q);
    let usq = usq_of(ux, uy);
    assert(-2 * s <= cu <= 2 * s) by (nonlinear_arith)
        requires
            cu == a * ux + b * uy,
            -1 <= a <= 1,
            -1 <= b <= 1,
            -s <= ux <= s,
            -s <= uy <= s,
            0 < s,
    ;
    assert(0 <= cu * cu <= 4 * s * s) by (nonlinear_arith)
        requires
            -2 * s <= cu <= 2 * s,
            0 < s,
    ;
    assert(0 <= usq <= 2 * s * s) by (nonlinear_arith)
        requires
            usq == ux * ux + uy * uy,
            -s <= ux <= s,
            -s <= uy <= s,
            0 < s,
    ;
    assert(9 * cu * cu == 9 * (cu * cu)) by (nonlinear_arith);
    assert((2 * s) * (18 * s) == 36 * s * s) by (nonlinear_arith);
    assert((2 * s) * (3 * s) == 6 * s * s) by (nonlinear_arith);
    lemma_tdiv_bound(9 * cu * cu, 2 * s, 36 * s * s);
    lemma_div_multiples_vanish(18 * s, 2 * s);
    lemma_tdiv_bound(3 * usq, 2 * s, 6 * s * s);
    lemma_div_multiples_vanish(3 * s, 2 * s);
    let t2 = tdiv(9 * cu * cu, 2 * s);
    let t3 = tdiv(3 * usq, 2 * s);
    assert(-18 * s <= t2 <= 18 * s);
    assert(-3 * s <= t3 <= 3 * s);
    let br = br_of(ux, uy, q);
    assert(br == s + 3 * cu + t2 - t3);
    assert(-28 * s <= br <= 28 * s);
    let w = w_num_spec(q);
    assert(1 <= w <= 16);
    let rb = rho * br;
    let wrb = w * rho * br;
    assert(-28 * s * rm <= rb <= 28 * s * rm) by (nonlinear_arith)
        requires
            rb == rho * br,
            0 < rho <= rm,
            -28 * s <= br <= 28 * s,
            0 < s,
            0 < rm,
    ;
    assert(wrb == w * rb) by (nonlinear_arith)
        requires
            wrb == w * rho * br,
            rb == rho * br,
    ;
    assert(-448 * s * rm <= wrb <= 448 * s * rm) by (nonlinear_arith)
        requires
            wrb == w * rb,
            1 <= w <= 16,
            -28 * s * rm <= rb <= 28 * s * rm,
            0 < s,
            0 < rm,
    ;
    let den = (WDEN as int) * s;
    assert(den == 3_600_000_000);
    assert(-(FEQ_MAX as int) * den <= wrb <= (FEQ_MAX as int) * den);
    lemma_tdiv_bound(wrb, den, (FEQ_MAX as int) * den);
    lemma_div_multiples_vanish(FEQ_MAX as int, den);
    assert(den * (FEQ_MAX as int) == (FEQ_MAX as int) * den);
}

} // verus!
