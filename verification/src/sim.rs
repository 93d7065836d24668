//! The solver itself: construction, the per-timestep update, and the
//! accessors the host reads between steps.

use vstd::prelude::*;
use crate::arith::{isqrt_u64, lemma_mul_bounds, lemma_tdiv_one, tdiv, tdiv_i128};
use crate::lattice::{cx_of, cy_of, w_num_of, NCELLS, NDIST, NX, NY, QDIRS, SCALE, WDEN};
use crate::model::{
    all_stable, as_ints, bounce_val, br_of, cell_stable, collide_field, cu_of, edge_field,
    edge_rho_at, idx3,
    edge_ux_at, edge_uy_at, feq_val, init_f_at, init_rho_at, init_ux_at, init_uy_at,
    lemma_cell_bounds, lemma_dist_bounds, lemma_feq_bound, mx_of, my_of, next_field, next_rho_at,
    next_ux_at, next_uy_at, obstacle_at, profile_ok, qi, relax_val, rho_of, stream_field,
    stream_val,
    usq_of, ux_of, uy_of, wrap, xc, xi, yc, yi, EdgePolicy, InitProfile, FEQ_MAX, GEOM_LIMIT,
    INFLOW_UX, INFLOW_UY, OMEGA_DEN, OMEGA_NUM, RHO_MAX, U_LIMIT,
};

verus! {

/// Returned by [`FluidSim::step`] when a fluid cell's density or
/// velocity leaves the stable range: the simulation has become
/// non-physical and later steps would only propagate garbage.
#[derive(Clone, Copy, PartialEq, Eq, Structural, Debug)]
pub struct Instability;

/// A vector of `n` zeros.
fn zeros(n: usize) -> (v: Vec<i64>)
    ensures
        v@.len() == n,
        forall|j: int| 0 <= j < n ==> v@[j] == 0i64,
{
    let mut v: Vec<i64> = Vec::new();
    let mut k: usize = 0;
    while k < n
        invariant
            k <= n,
            v@.len() == k,
            forall|j: int| 0 <= j < k ==> v@[j] == 0i64,
        decreases n - k,
    {
        v.push(0);
        k += 1;
    }
    v
}

/// An element-wise copy of a fixed-point vector.
fn copy_vec(v: &Vec<i64>) -> (out: Vec<i64>)
    ensures
        out@ == v@,
{
    let mut out: Vec<i64> = Vec::new();
    let mut k: usize = 0;
    while k < v.len()
        invariant
            k <= v@.len(),
            out@.len() == k,
            forall|j: int| 0 <= j < k ==> out@[j] == v@[j],
        decreases v@.len() - k,
    {
        out.push(v[k]);
        k += 1;
    }
    proof {
        assert(out@ =~= v@);
    }
    out
}

/// Wrap an index that is off `[0, n)` by at most one period back into
/// range.
fn wrap_idx(v: i64, n: usize) -> (r: usize)
    requires
        0 < n < 1_000_000,
        -(n as i64) <= v < 2 * (n as i64),
    ensures
        r as int == wrap(v as int, n as int),
        r < n,
{
    if v < 0 {
        (v + n as i64) as usize
    } else if v >= n as i64 {
        (v - n as i64) as usize
    } else {
        v as usize
    }
}

/// The circle test fixing the obstacle mask: strictly inside means
/// obstacle, the circle itself is fluid.
fn is_obstacle(radius: i64, ccx: i64, ccy: i64, x: usize, y: usize) -> (r: bool)
    requires
        -GEOM_LIMIT <= radius <= GEOM_LIMIT,
        -GEOM_LIMIT <= ccx <= GEOM_LIMIT,
        -GEOM_LIMIT <= ccy <= GEOM_LIMIT,
        x < NX,
        y < NY,
    ensures
        r == obstacle_at(radius as int, ccx as int, ccy as int, x as int, y as int),
{
    let dx: i128 = (x as i128) * (SCALE as i128) - (ccx as i128);
    let dy: i128 = (y as i128) * (SCALE as i128) - (ccy as i128);
    proof {
        lemma_mul_bounds(dx as int, dx as int, 1_100_000_000_000_000, 1_100_000_000_000_000);
        lemma_mul_bounds(dy as int, dy as int, 1_100_000_000_000_000, 1_100_000_000_000_000);
        lemma_mul_bounds(radius as int, radius as int, GEOM_LIMIT as int, GEOM_LIMIT as int);
    }
    let dsq: i128 = dx * dx + dy * dy;
    let rsq: i128 = (radius as i128) * (radius as i128);
    dsq < rsq
}

/// The equilibrium distribution value for direction `q`, computed in
/// `i128` and truncated exactly as [`feq_val`] states.
fn feq_fixed(rho: i64, ux: i64, uy: i64, q: usize) -> (r: i64)
    requires
        0 < rho <= RHO_MAX,
        -U_LIMIT <= ux <= U_LIMIT,
        -U_LIMIT <= uy <= U_LIMIT,
        q < 9,
    ensures
        r as int == feq_val(rho as int, ux as int, uy as int, q as int),
        -FEQ_MAX <= r <= FEQ_MAX,
{
    proof {
        lemma_feq_bound(rho as int, ux as int, uy as int, q as int);
    }
    let s: i128 = SCALE as i128;
    let cxq: i64 = cx_of(q);
    let cyq: i64 = cy_of(q);
    let w: i64 = w_num_of(q);
    proof {
        lemma_mul_bounds(cxq as int, ux as int, 1, U_LIMIT as int);
        lemma_mul_bounds(cyq as int, uy as int, 1, U_LIMIT as int);
    }
    let cu: i128 = (cxq as i128) * (ux as i128) + (cyq as i128) * (uy as i128);
    proof {
        assert(cu as int == cu_of(ux as int, uy as int, q as int));
        lemma_mul_bounds(9 * (cu as int), cu as int, 1_800_000_000, 200_000_000);
        lemma_mul_bounds(ux as int, ux as int, U_LIMIT as int, U_LIMIT as int);
        lemma_mul_bounds(uy as int, uy as int, U_LIMIT as int, U_LIMIT as int);
    }
    let nine_cu_cu: i128 = 9 * cu * cu;
    let usq: i128 = (ux as i128) * (ux as i128) + (uy as i128) * (uy as i128);
    let t2: i128 = tdiv_i128(nine_cu_cu, 2 * s);
    let t3: i128 = tdiv_i128(3 * usq, 2 * s);
    proof {
        assert(usq as int == usq_of(ux as int, uy as int));
        assert(t2 as int == tdiv(
            9 * cu_of(ux as int, uy as int, q as int) * cu_of(ux as int, uy as int, q as int),
            2 * (SCALE as int),
        ));
        assert(t3 as int == tdiv(3 * usq_of(ux as int, uy as int), 2 * (SCALE as int)));
    }
    let br: i128 = s + 3 * cu + t2 - t3;
    proof {
        assert(br as int == br_of(ux as int, uy as int, q as int));
        lemma_mul_bounds(w as int, rho as int, 16, RHO_MAX as int);
        lemma_mul_bounds(
            (w as int) * (rho as int),
            br as int,
            16 * (RHO_MAX as int),
            28 * (SCALE as int),
        );
    }
    let wrb: i128 = (w as i128) * (rho as i128) * br;
    let r128: i128 = tdiv_i128(wrb, (WDEN as i128) * s);
    proof {
        assert(r128 as int == feq_val(rho as int, ux as int, uy as int, q as int));
    }
    r128 as i64
}

/// One BGK relaxation of a single distribution value; with the fixed
/// omega of 1 the result is the equilibrium value itself.
fn relax_fixed(fv: i64, feqv: i64) -> (r: i64)
    requires
        -FEQ_MAX <= feqv <= FEQ_MAX,
    ensures
        r as int == relax_val(fv as int, feqv as int, OMEGA_NUM as int, OMEGA_DEN as int),
        r == feqv,
{
    let d: i128 = (fv as i128) - (feqv as i128);
    let scaled: i128 = (OMEGA_NUM as i128) * d;
    let corr: i128 = tdiv_i128(scaled, OMEGA_DEN as i128);
    proof {
        lemma_tdiv_one(scaled as int);
        lemma_tdiv_one((OMEGA_NUM as int) * ((fv as int) - (feqv as int)));
    }
    let r128: i128 = (fv as i128) - corr;
    r128 as i64
}

/// The result of the streaming stage: the field with every value pulled
/// from the cell one velocity vector upstream.
fn stage_stream(f: &Vec<i64>, pol: EdgePolicy) -> (out: Vec<i64>)
    requires
        f@.len() == NDIST,
    ensures
        out@.len() == NDIST,
        forall|i: int|
            0 <= i < NDIST ==> #[trigger] out@[i] as int == stream_field(as_ints(f@), pol)[i],
{
    let ghost g0 = as_ints(f@);
    let mut out: Vec<i64> = Vec::new();
    let mut i: usize = 0;
    while i < NDIST
        invariant
            i <= NDIST,
            out@.len() == i,
            f@.len() == NDIST,
            g0 == as_ints(f@),
            forall|j: int| 0 <= j < i ==> #[trigger] out@[j] as int == stream_field(g0, pol)[j],
        decreases NDIST - i,
    {
        proof {
            lemma_dist_bounds(i as int);
        }
        let cell: usize = i / QDIRS;
        let x: usize = cell % NX;
        let y: usize = cell / NX;
        let q: usize = i % QDIRS;
        let cxq: i64 = cx_of(q);
        let cyq: i64 = cy_of(q);
        let syi: i64 = y as i64 - cyq;
        let v: i64;
        if pol == EdgePolicy::SlipWall && (syi < 0 || syi >= NY as i64) {
            v = f[i];
        } else {
            let sx: usize = wrap_idx(x as i64 - cxq, NX);
            let sy: usize = wrap_idx(syi, NY);
            let src: usize = (sy * NX + sx) * QDIRS + q;
            proof {
                crate::model::lemma_idx3_decomp(sx as int, sy as int, q as int);
            }
            v = f[src];
        }
        out.push(v);
        proof {
            assert(v as int == stream_val(g0, pol, xi(i as int), yi(i as int), qi(i as int)));
        }
        i += 1;
    }
    out
}

/// The vectors the collision stage produces: the relaxed field and the
/// freshly derived macroscopic fields.
struct StageOut {
    f: Vec<i64>,
    rho: Vec<i64>,
    ux: Vec<i64>,
    uy: Vec<i64>,
}

/// The collision stage: per fluid cell, derive density and velocity
/// from the streamed field and relax every direction toward the cell's
/// equilibrium; obstacle cells are skipped. Returns `None` — leaving
/// nothing committed — exactly when some fluid cell is unstable.
#[verifier::rlimit(80)]
fn stage_collide(
    f1: &Vec<i64>,
    mask: &Vec<bool>,
    old_rho: &Vec<i64>,
    old_ux: &Vec<i64>,
    old_uy: &Vec<i64>,
) -> (res: Option<StageOut>)
    requires
        f1@.len() == NDIST,
        mask@.len() == NCELLS,
        old_rho@.len() == NCELLS,
        old_ux@.len() == NCELLS,
        old_uy@.len() == NCELLS,
        forall|c: int| 0 <= c < NCELLS ==> -U_LIMIT <= #[trigger] old_ux@[c] <= U_LIMIT,
        forall|c: int| 0 <= c < NCELLS ==> -U_LIMIT <= #[trigger] old_uy@[c] <= U_LIMIT,
    ensures
        match res {
            Some(out) => {
                &&& all_stable(as_ints(f1@), mask@)
                &&& out.f@.len() == NDIST
                &&& out.rho@.len() == NCELLS
                &&& out.ux@.len() == NCELLS
                &&& out.uy@.len() == NCELLS
                &&& forall|i: int|
                    0 <= i < NDIST ==> #[trigger] out.f@[i] as int == collide_field(
                        as_ints(f1@),
                        mask@,
                    )[i]
                &&& forall|c: int|
                    0 <= c < NCELLS && mask@[c] ==> #[trigger] out.rho@[c] == old_rho@[c]
                &&& forall|c: int|
                    0 <= c < NCELLS && mask@[c] ==> #[trigger] out.ux@[c] == old_ux@[c]
                &&& forall|c: int|
                    0 <= c < NCELLS && mask@[c] ==> #[trigger] out.uy@[c] == old_uy@[c]
                &&& forall|c: int|
                    0 <= c < NCELLS && !mask@[c] ==> #[trigger] out.rho@[c] as int == rho_of(
                        as_ints(f1@),
                        c,
                    )
                &&& forall|c: int|
                    0 <= c < NCELLS && !mask@[c] ==> #[trigger] out.ux@[c] as int == ux_of(
                        as_ints(f1@),
                        c,
                    )
                &&& forall|c: int|
                    0 <= c < NCELLS && !mask@[c] ==> #[trigger] out.uy@[c] as int == uy_of(
                        as_ints(f1@),
                        c,
                    )
                &&& forall|c: int|
                    0 <= c < NCELLS && !mask@[c] ==> 0 < #[trigger] out.rho@[c] <= RHO_MAX
                &&& forall|c: int| 0 <= c < NCELLS ==> -U_LIMIT <= #[trigger] out.ux@[c] <= U_LIMIT
                &&& forall|c: int| 0 <= c < NCELLS ==> -U_LIMIT <= #[trigger] out.uy@[c] <= U_LIMIT
            },
            None => !all_stable(as_ints(f1@), mask@),
        },
{
    let ghost g1 = as_ints(f1@);
    let mut nf: Vec<i64> = Vec::new();
    let mut nrho: Vec<i64> = Vec::new();
    let mut nux: Vec<i64> = Vec::new();
    let mut nuy: Vec<i64> = Vec::new();
    let mut c: usize = 0;
    while c < NCELLS
        invariant
            c <= NCELLS,
            f1@.len() == NDIST,
            mask@.len() == NCELLS,
            old_rho@.len() == NCELLS,
            old_ux@.len() == NCELLS,
            old_uy@.len() == NCELLS,
            forall|j: int| 0 <= j < NCELLS ==> -U_LIMIT <= #[trigger] old_ux@[j] <= U_LIMIT,
            forall|j: int| 0 <= j < NCELLS ==> -U_LIMIT <= #[trigger] old_uy@[j] <= U_LIMIT,
            g1 == as_ints(f1@),
            nf@.len() == c * QDIRS,
            nrho@.len() == c,
            nux@.len() == c,
            nuy@.len() == c,
            forall|j: int| 0 <= j < c && !mask@[j] ==> #[trigger] cell_stable(g1, j),
            forall|i: int|
                0 <= i < c * QDIRS ==> #[trigger] nf@[i] as int == collide_field(g1, mask@)[i],
            forall|j: int| 0 <= j < c && mask@[j] ==> #[trigger] nrho@[j] == old_rho@[j],
            forall|j: int| 0 <= j < c && mask@[j] ==> #[trigger] nux@[j] == old_ux@[j],
            forall|j: int| 0 <= j < c && mask@[j] ==> #[trigger] nuy@[j] == old_uy@[j],
            forall|j: int|
                0 <= j < c && !mask@[j] ==> #[trigger] nrho@[j] as int == rho_of(g1, j),
            forall|j: int| 0 <= j < c && !mask@[j] ==> #[trigger] nux@[j] as int == ux_of(g1, j),
            forall|j: int| 0 <= j < c && !mask@[j] ==> #[trigger] nuy@[j] as int == uy_of(g1, j),
            forall|j: int| 0 <= j < c && !mask@[j] ==> 0 < #[trigger] nrho@[j] <= RHO_MAX,
            forall|j: int| 0 <= j < c ==> -U_LIMIT <= #[trigger] nux@[j] <= U_LIMIT,
            forall|j: int| 0 <= j < c ==> -U_LIMIT <= #[trigger] nuy@[j] <= U_LIMIT,
        decreases NCELLS - c,
    {
        let b: usize = c * QDIRS;
        proof {
            lemma_cell_bounds(c as int);
            assert forall|t: int| 0 <= t < 9 implies qi(#[trigger] (b as int + t)) == t && (b as int
                + t) / (QDIRS as int) == c as int by {
                crate::model::lemma_idx3_decomp(xc(c as int), yc(c as int), t);
            }
        }
        if mask[c] {
            nf.push(f1[b]);
            nf.push(f1[b + 1]);
            nf.push(f1[b + 2]);
            nf.push(f1[b + 3]);
            nf.push(f1[b + 4]);
            nf.push(f1[b + 5]);
            nf.push(f1[b + 6]);
            nf.push(f1[b + 7]);
            nf.push(f1[b + 8]);
            nrho.push(old_rho[c]);
            nux.push(old_ux[c]);
            nuy.push(old_uy[c]);
        } else {
            let fv0: i64 = f1[b];
            let fv1: i64 = f1[b + 1];
            let fv2: i64 = f1[b + 2];
            let fv3: i64 = f1[b + 3];
            let fv4: i64 = f1[b + 4];
            let fv5: i64 = f1[b + 5];
            let fv6: i64 = f1[b + 6];
            let fv7: i64 = f1[b + 7];
            let fv8: i64 = f1[b + 8];
            let rho128: i128 = fv0 as i128 + fv1 as i128 + fv2 as i128 + fv3 as i128 + fv4 as i128
                + fv5 as i128 + fv6 as i128 + fv7 as i128 + fv8 as i128;
            let mx128: i128 = fv1 as i128 - fv3 as i128 + fv5 as i128 - fv6 as i128 - fv7 as i128
                + fv8 as i128;
            let my128: i128 = fv2 as i128 - fv4 as i128 + fv5 as i128 + fv6 as i128 - fv7 as i128
                - fv8 as i128;
            proof {
                assert(rho128 as int == rho_of(g1, c as int));
                assert(mx128 as int == mx_of(g1, c as int));
                assert(my128 as int == my_of(g1, c as int));
            }
            if rho128 <= 0 || rho128 > RHO_MAX as i128 {
                proof {
                    assert(!cell_stable(g1, c as int));
                }
                return None;
            }
            proof {
                lemma_mul_bounds(
                    mx128 as int,
                    SCALE as int,
                    55_340_232_221_128_654_848,
                    SCALE as int,
                );
                lemma_mul_bounds(
                    my128 as int,
                    SCALE as int,
                    55_340_232_221_128_654_848,
                    SCALE as int,
                );
            }
            let ux128: i128 = tdiv_i128(mx128 * (SCALE as i128), rho128);
            let uy128: i128 = tdiv_i128(my128 * (SCALE as i128), rho128);
            proof {
                assert(ux128 as int == ux_of(g1, c as int));
                assert(uy128 as int == uy_of(g1, c as int));
            }
            if ux128 < -(U_LIMIT as i128) || ux128 > U_LIMIT as i128 || uy128 < -(
            U_LIMIT as i128) || uy128 > U_LIMIT as i128 {
                proof {
                    assert(!cell_stable(g1, c as int));
                }
                return None;
            }
            let rho64: i64 = rho128 as i64;
            let uxv: i64 = ux128 as i64;
            let uyv: i64 = uy128 as i64;
            proof {
                assert(cell_stable(g1, c as int));
            }
            let w0 = relax_fixed(fv0, feq_fixed(rho64, uxv, uyv, 0));
            let w1 = relax_fixed(fv1, feq_fixed(rho64, uxv, uyv, 1));
            let w2 = relax_fixed(fv2, feq_fixed(rho64, uxv, uyv, 2));
            let w3 = relax_fixed(fv3, feq_fixed(rho64, uxv, uyv, 3));
            let w4 = relax_fixed(fv4, feq_fixed(rho64, uxv, uyv, 4));
            let w5 = relax_fixed(fv5, feq_fixed(rho64, uxv, uyv, 5));
            let w6 = relax_fixed(fv6, feq_fixed(rho64, uxv, uyv, 6));
            let w7 = relax_fixed(fv7, feq_fixed(rho64, uxv, uyv, 7));
            let w8 = relax_fixed(fv8, feq_fixed(rho64, uxv, uyv, 8));
            nf.push(w0);
            nf.push(w1);
            nf.push(w2);
            nf.push(w3);
            nf.push(w4);
            nf.push(w5);
            nf.push(w6);
            nf.push(w7);
            nf.push(w8);
            nrho.push(rho64);
            nux.push(uxv);
            nuy.push(uyv);
        }
        c += 1;
    }
    Some(StageOut { f: nf, rho: nrho, ux: nux, uy: nuy })
}

/// The edge-policy stage, applied in place to the collision stage's
/// output. `f1s` is the post-streaming field, whose macroscopic values
/// the outflow closure reads.
#[verifier::rlimit(80)]
fn stage_edge(out: &mut StageOut, mask: &Vec<bool>, pol: EdgePolicy, Ghost(f1s): Ghost<Seq<int>>)
    requires
        mask@.len() == NCELLS,
        old(out).f@.len() == NDIST,
        old(out).rho@.len() == NCELLS,
        old(out).ux@.len() == NCELLS,
        old(out).uy@.len() == NCELLS,
        forall|i: int|
            0 <= i < NDIST ==> #[trigger] old(out).f@[i] as int == collide_field(f1s, mask@)[i],
        forall|c: int|
            0 <= c < NCELLS && !mask@[c] ==> #[trigger] old(out).rho@[c] as int == rho_of(f1s, c),
        forall|c: int|
            0 <= c < NCELLS && !mask@[c] ==> #[trigger] old(out).ux@[c] as int == ux_of(f1s, c),
        forall|c: int|
            0 <= c < NCELLS && !mask@[c] ==> #[trigger] old(out).uy@[c] as int == uy_of(f1s, c),
        forall|c: int|
            0 <= c < NCELLS && !mask@[c] ==> 0 < #[trigger] old(out).rho@[c] <= RHO_MAX,
        forall|c: int| 0 <= c < NCELLS ==> -U_LIMIT <= #[trigger] old(out).ux@[c] <= U_LIMIT,
        forall|c: int| 0 <= c < NCELLS ==> -U_LIMIT <= #[trigger] old(out).uy@[c] <= U_LIMIT,
    ensures
        final(out).f@.len() == NDIST,
        final(out).rho@.len() == NCELLS,
        final(out).ux@.len() == NCELLS,
        final(out).uy@.len() == NCELLS,
        forall|i: int|
            0 <= i < NDIST ==> #[trigger] final(out).f@[i] as int == edge_field(
                collide_field(f1s, mask@),
                f1s,
                mask@,
                pol,
            )[i],
        forall|c: int|
            0 <= c < NCELLS ==> #[trigger] final(out).rho@[c] as int == edge_rho_at(
                as_ints(old(out).rho@),
                mask@,
                pol,
                c,
            ),
        forall|c: int|
            0 <= c < NCELLS ==> #[trigger] final(out).ux@[c] as int == edge_ux_at(
                as_ints(old(out).ux@),
                mask@,
                pol,
                c,
            ),
        forall|c: int|
            0 <= c < NCELLS ==> #[trigger] final(out).uy@[c] as int == edge_uy_at(
                as_ints(old(out).uy@),
                mask@,
                pol,
                c,
            ),
        forall|c: int| 0 <= c < NCELLS ==> -U_LIMIT <= #[trigger] final(out).ux@[c] <= U_LIMIT,
        forall|c: int| 0 <= c < NCELLS ==> -U_LIMIT <= #[trigger] final(out).uy@[c] <= U_LIMIT,
{
    let ghost f2s = collide_field(f1s, mask@);
    let ghost e = edge_field(f2s, f1s, mask@, pol);
    let ghost rho2s = as_ints(old(out).rho@);
    let ghost ux2s = as_ints(old(out).ux@);
    let ghost uy2s = as_ints(old(out).uy@);
    if pol == EdgePolicy::Periodic {
        proof {
            assert forall|i: int| 0 <= i < NDIST implies #[trigger] out.f@[i] as int == e[i] by {
                lemma_dist_bounds(i);
            }
        }
    } else if pol == EdgePolicy::SlipWall {
        let mut x: usize = 0;
        while x < NX
            invariant
                x <= NX,
                pol == EdgePolicy::SlipWall,
                mask@.len() == NCELLS,
                old(out).f@.len() == NDIST,
                old(out).uy@.len() == NCELLS,
                out.f@.len() == NDIST,
                out.rho@ == old(out).rho@,
                out.ux@ == old(out).ux@,
                out.uy@.len() == NCELLS,
                f2s == collide_field(f1s, mask@),
                e == edge_field(f2s, f1s, mask@, pol),
                uy2s == as_ints(old(out).uy@),
                forall|i: int|
                    0 <= i < NDIST ==> #[trigger] old(out).f@[i] as int == f2s[i],
                forall|c: int|
                    0 <= c < NCELLS ==> -U_LIMIT <= #[trigger] old(out).uy@[c] <= U_LIMIT,
                forall|i: int|
                    0 <= i < NDIST && xi(i) < x ==> #[trigger] out.f@[i] as int == e[i],
                forall|i: int|
                    0 <= i < NDIST && xi(i) >= x ==> #[trigger] out.f@[i] == old(out).f@[i],
                forall|c: int|
                    0 <= c < NCELLS && xc(c) < x ==> #[trigger] out.uy@[c] as int == edge_uy_at(
                        uy2s,
                        mask@,
                        pol,
                        c,
                    ),
                forall|c: int|
                    0 <= c < NCELLS && xc(c) >= x ==> #[trigger] out.uy@[c] == old(out).uy@[c],
            decreases NX - x,
        {
            let ct: usize = (NY - 1) * NX + x;
            let cb: usize = x;
            proof {
                assert forall|t: int| 0 <= t < 9 implies {
                    &&& idx3(x as int, NY as int - 1, t) == ct as int * QDIRS + t
                    &&& xi(#[trigger] (ct as int * QDIRS + t)) == x as int
                    &&& yi(ct as int * QDIRS + t) == NY as int - 1
                    &&& qi(ct as int * QDIRS + t) == t
                    &&& (ct as int * QDIRS + t) / (QDIRS as int) == ct as int
                } by {
                    crate::model::lemma_idx3_decomp(x as int, NY as int - 1, t);
                }
                assert forall|t: int| 0 <= t < 9 implies {
                    &&& idx3(x as int, 0, t) == cb as int * QDIRS + t
                    &&& xi(#[trigger] (cb as int * QDIRS + t)) == x as int
                    &&& yi(cb as int * QDIRS + t) == 0
                    &&& qi(cb as int * QDIRS + t) == t
                    &&& (cb as int * QDIRS + t) / (QDIRS as int) == cb as int
                } by {
                    crate::model::lemma_idx3_decomp(x as int, 0, t);
                }
                crate::model::lemma_idx3_decomp(x as int, NY as int - 1, 0);
                crate::model::lemma_idx3_decomp(x as int, 0, 0);
            }
            if !mask[ct] {
                let bt: usize = ct * QDIRS;
                let v2: i64 = out.f[bt + 2];
                let v6: i64 = out.f[bt + 6];
                let v5: i64 = out.f[bt + 5];
                out.f.set(bt + 4, v2);
                out.f.set(bt + 7, v6);
                out.f.set(bt + 8, v5);
                out.uy.set(ct, 0);
            }
            if !mask[cb] {
                let bb: usize = cb * QDIRS;
                let v4: i64 = out.f[bb + 4];
                let v7: i64 = out.f[bb + 7];
                let v8: i64 = out.f[bb + 8];
                out.f.set(bb + 2, v4);
                out.f.set(bb + 6, v7);
                out.f.set(bb + 5, v8);
                out.uy.set(cb, 0);
            }
            proof {
                assert forall|i: int| 0 <= i < NDIST && xi(i) < x + 1 implies #[trigger] out.f@[i]
                    as int == e[i] by {
                    lemma_dist_bounds(i);
                }
                assert forall|c: int| 0 <= c < NCELLS && xc(c) < x + 1 implies #[trigger] out.uy@[c]
                    as int == edge_uy_at(uy2s, mask@, pol, c) by {
                    lemma_cell_bounds(c);
                }
            }
            x += 1;
        }
        proof {
            assert forall|i: int| 0 <= i < NDIST implies #[trigger] out.f@[i] as int == e[i] by {
                lemma_dist_bounds(i);
            }
            assert forall|c: int| 0 <= c < NCELLS implies #[trigger] out.uy@[c] as int
                == edge_uy_at(uy2s, mask@, pol, c) by {
                lemma_cell_bounds(c);
            }
        }
    } else {
        let mut y: usize = 0;
        while y < NY
            invariant
                y <= NY,
                pol == EdgePolicy::InflowOutflow,
                mask@.len() == NCELLS,
                old(out).f@.len() == NDIST,
                old(out).rho@.len() == NCELLS,
                old(out).ux@.len() == NCELLS,
                old(out).uy@.len() == NCELLS,
                out.f@.len() == NDIST,
                out.rho@.len() == NCELLS,
                out.ux@.len() == NCELLS,
                out.uy@.len() == NCELLS,
                f2s == collide_field(f1s, mask@),
                e == edge_field(f2s, f1s, mask@, pol),
                rho2s == as_ints(old(out).rho@),
                ux2s == as_ints(old(out).ux@),
                uy2s == as_ints(old(out).uy@),
                forall|i: int|
                    0 <= i < NDIST ==> #[trigger] old(out).f@[i] as int == f2s[i],
                forall|i: int|
                    0 <= i < NDIST && xi(i) == 0 && yi(i) < y ==> #[trigger] out.f@[i] as int
                        == e[i],
                forall|i: int|
                    0 <= i < NDIST && !(xi(i) == 0 && yi(i) < y) ==> #[trigger] out.f@[i]
                        == old(out).f@[i],
                forall|c: int|
                    0 <= c < NCELLS && xc(c) == 0 && yc(c) < y ==> #[trigger] out.rho@[c] as int
                        == edge_rho_at(rho2s, mask@, pol, c),
                forall|c: int|
                    0 <= c < NCELLS && xc(c) == 0 && yc(c) < y ==> #[trigger] out.ux@[c] as int
                        == edge_ux_at(ux2s, mask@, pol, c),
                forall|c: int|
                    0 <= c < NCELLS && xc(c) == 0 && yc(c) < y ==> #[trigger] out.uy@[c] as int
                        == edge_uy_at(uy2s, mask@, pol, c),
                forall|c: int|
                    0 <= c < NCELLS && !(xc(c) == 0 && yc(c) < y) ==> #[trigger] out.rho@[c]
                        == old(out).rho@[c],
                forall|c: int|
                    0 <= c < NCELLS && !(xc(c) == 0 && yc(c) < y) ==> #[trigger] out.ux@[c]
                        == old(out).ux@[c],
                forall|c: int|
                    0 <= c < NCELLS && !(xc(c) == 0 && yc(c) < y) ==> #[trigger] out.uy@[c]
                        == old(out).uy@[c],
                forall|c: int| 0 <= c < NCELLS ==> -U_LIMIT <= #[trigger] out.ux@[c] <= U_LIMIT,
                forall|c: int| 0 <= c < NCELLS ==> -U_LIMIT <= #[trigger] out.uy@[c] <= U_LIMIT,
            decreases NY - y,
        {
            let cl: usize = y * NX;
            proof {
                assert forall|t: int| 0 <= t < 9 implies {
                    &&& idx3(0, y as int, t) == cl as int * QDIRS + t
                    &&& xi(#[trigger] (cl as int * QDIRS + t)) == 0
                    &&& yi(cl as int * QDIRS + t) == y as int
                    &&& qi(cl as int * QDIRS + t) == t
                    &&& (cl as int * QDIRS + t) / (QDIRS as int) == cl as int
                } by {
                    crate::model::lemma_idx3_decomp(0, y as int, t);
                }
                crate::model::lemma_idx3_decomp(0, y as int, 0);
            }
            if !mask[cl] {
                let bl: usize = cl * QDIRS;
                let e0 = feq_fixed(SCALE, INFLOW_UX, INFLOW_UY, 0);
                let e1 = feq_fixed(SCALE, INFLOW_UX, INFLOW_UY, 1);
                let e2 = feq_fixed(SCALE, INFLOW_UX, INFLOW_UY, 2);
                let e3 = feq_fixed(SCALE, INFLOW_UX, INFLOW_UY, 3);
                let e4 = feq_fixed(SCALE, INFLOW_UX, INFLOW_UY, 4);
                let e5 = feq_fixed(SCALE, INFLOW_UX, INFLOW_UY, 5);
                let e6 = feq_fixed(SCALE, INFLOW_UX, INFLOW_UY, 6);
                let e7 = feq_fixed(SCALE, INFLOW_UX, INFLOW_UY, 7);
                let e8 = feq_fixed(SCALE, INFLOW_UX, INFLOW_UY, 8);
                out.f.set(bl, e0);
                out.f.set(bl + 1, e1);
                out.f.set(bl + 2, e2);
                out.f.set(bl + 3, e3);
                out.f.set(bl + 4, e4);
                out.f.set(bl + 5, e5);
                out.f.set(bl + 6, e6);
                out.f.set(bl + 7, e7);
                out.f.set(bl + 8, e8);
                out.rho.set(cl, SCALE);
                out.ux.set(cl, INFLOW_UX);
                out.uy.set(cl, INFLOW_UY);
            }
            proof {
                assert forall|i: int| 0 <= i < NDIST && xi(i) == 0 && yi(i) < y + 1 implies
                    #[trigger] out.f@[i] as int == e[i] by {
                    lemma_dist_bounds(i);
                }
                assert forall|c: int| 0 <= c < NCELLS && xc(c) == 0 && yc(c) < y + 1 implies
                    #[trigger] out.rho@[c] as int == edge_rho_at(rho2s, mask@, pol, c) by {
                    lemma_cell_bounds(c);
                }
                assert forall|c: int| 0 <= c < NCELLS && xc(c) == 0 && yc(c) < y + 1 implies
                    #[trigger] out.ux@[c] as int == edge_ux_at(ux2s, mask@, pol, c) by {
                    lemma_cell_bounds(c);
                }
                assert forall|c: int| 0 <= c < NCELLS && xc(c) == 0 && yc(c) < y + 1 implies
                    #[trigger] out.uy@[c] as int == edge_uy_at(uy2s, mask@, pol, c) by {
                    lemma_cell_bounds(c);
                }
            }
            y += 1;
        }
        let mut y2: usize = 0;
        while y2 < NY
            invariant
                y2 <= NY,
                pol == EdgePolicy::InflowOutflow,
                mask@.len() == NCELLS,
                old(out).f@.len() == NDIST,
                old(out).rho@.len() == NCELLS,
                old(out).ux@.len() == NCELLS,
                old(out).uy@.len() == NCELLS,
                out.f@.len() == NDIST,
                out.rho@.len() == NCELLS,
                out.ux@.len() == NCELLS,
                out.uy@.len() == NCELLS,
                f2s == collide_field(f1s, mask@),
                e == edge_field(f2s, f1s, mask@, pol),
                rho2s == as_ints(old(out).rho@),
                ux2s == as_ints(old(out).ux@),
                uy2s == as_ints(old(out).uy@),
                forall|i: int|
                    0 <= i < NDIST ==> #[trigger] old(out).f@[i] as int == f2s[i],
                forall|c: int|
                    0 <= c < NCELLS && !mask@[c] ==> #[trigger] old(out).rho@[c] as int == rho_of(
                        f1s,
                        c,
                    ),
                forall|c: int|
                    0 <= c < NCELLS && !mask@[c] ==> #[trigger] old(out).ux@[c] as int == ux_of(
                        f1s,
                        c,
                    ),
                forall|c: int|
                    0 <= c < NCELLS && !mask@[c] ==> #[trigger] old(out).uy@[c] as int == uy_of(
                        f1s,
                        c,
                    ),
                forall|c: int|
                    0 <= c < NCELLS && !mask@[c] ==> 0 < #[trigger] old(out).rho@[c] <= RHO_MAX,
                forall|c: int|
                    0 <= c < NCELLS ==> -U_LIMIT <= #[trigger] old(out).ux@[c] <= U_LIMIT,
                forall|c: int|
                    0 <= c < NCELLS ==> -U_LIMIT <= #[trigger] old(out).uy@[c] <= U_LIMIT,
                forall|i: int|
                    0 <= i < NDIST && (xi(i) == 0 || (xi(i) == NX as int - 1 && yi(i) < y2))
                        ==> #[trigger] out.f@[i] as int == e[i],
                forall|i: int|
                    0 <= i < NDIST && !(xi(i) == 0 || (xi(i) == NX as int - 1 && yi(i) < y2))
                        ==> #[trigger] out.f@[i] == old(out).f@[i],
                forall|c: int|
                    0 <= c < NCELLS && xc(c) == 0 ==> #[trigger] out.rho@[c] as int == edge_rho_at(
                        rho2s,
                        mask@,
                        pol,
                        c,
                    ),
                forall|c: int|
                    0 <= c < NCELLS && xc(c) == 0 ==> #[trigger] out.ux@[c] as int == edge_ux_at(
                        ux2s,
                        mask@,
                        pol,
                        c,
                    ),
                forall|c: int|
                    0 <= c < NCELLS && xc(c) == 0 ==> #[trigger] out.uy@[c] as int == edge_uy_at(
                        uy2s,
                        mask@,
                        pol,
                        c,
                    ),
                forall|c: int|
                    0 <= c < NCELLS && xc(c) != 0 ==> #[trigger] out.rho@[c] == old(out).rho@[c],
                forall|c: int|
                    0 <= c < NCELLS && xc(c) != 0 ==> #[trigger] out.ux@[c] == old(out).ux@[c],
                forall|c: int|
                    0 <= c < NCELLS && xc(c) != 0 ==> #[trigger] out.uy@[c] == old(out).uy@[c],
                forall|c: int| 0 <= c < NCELLS ==> -U_LIMIT <= #[trigger] out.ux@[c] <= U_LIMIT,
                forall|c: int| 0 <= c < NCELLS ==> -U_LIMIT <= #[trigger] out.uy@[c] <= U_LIMIT,
            decreases NY - y2,
        {
            let cr: usize = y2 * NX + (NX - 1);
            let cn: usize = y2 * NX + (NX - 2);
            proof {
                assert forall|t: int| 0 <= t < 9 implies {
                    &&& idx3(NX as int - 1, y2 as int, t) == cr as int * QDIRS + t
                    &&& xi(#[trigger] (cr as int * QDIRS + t)) == NX as int - 1
                    &&& yi(cr as int * QDIRS + t) == y2 as int
                    &&& qi(cr as int * QDIRS + t) == t
                    &&& (cr as int * QDIRS + t) / (QDIRS as int) == cr as int
                } by {
                    crate::model::lemma_idx3_decomp(NX as int - 1, y2 as int, t);
                }
                assert forall|t: int| 0 <= t < 9 implies {
                    &&& idx3(NX as int - 2, y2 as int, t) == cn as int * QDIRS + t
                    &&& xi(#[trigger] (cn as int * QDIRS + t)) == NX as int - 2
                    &&& yi(cn as int * QDIRS + t) == y2 as int
                    &&& qi(cn as int * QDIRS + t) == t
                } by {
                    crate::model::lemma_idx3_decomp(NX as int - 2, y2 as int, t);
                }
                crate::model::lemma_idx3_decomp(NX as int - 1, y2 as int, 0);
            }
            if !mask[cr] {
                let br2: usize = cr * QDIRS;
                let bn: usize = cn * QDIRS;
                let n3: i64 = out.f[bn + 3];
                let n6: i64 = out.f[bn + 6];
                let n7: i64 = out.f[bn + 7];
                out.f.set(br2 + 3, n3);
                out.f.set(br2 + 6, n6);
                out.f.set(br2 + 7, n7);
                let rv: i64 = out.rho[cr];
                let uxv: i64 = out.ux[cr];
                let uyv: i64 = out.uy[cr];
                proof {
                    assert(xc(cr as int) == NX as int - 1);
                    assert(rv as int == rho_of(f1s, cr as int));
                    assert(uxv as int == ux_of(f1s, cr as int));
                    assert(uyv as int == uy_of(f1s, cr as int));
                    assert(0 < rv <= RHO_MAX);
                }
                let q0 = feq_fixed(rv, uxv, uyv, 0);
                let q1 = feq_fixed(rv, uxv, uyv, 1);
                let q2 = feq_fixed(rv, uxv, uyv, 2);
                let q4 = feq_fixed(rv, uxv, uyv, 4);
                let q5 = feq_fixed(rv, uxv, uyv, 5);
                let q8 = feq_fixed(rv, uxv, uyv, 8);
                out.f.set(br2, q0);
                out.f.set(br2 + 1, q1);
                out.f.set(br2 + 2, q2);
                out.f.set(br2 + 4, q4);
                out.f.set(br2 + 5, q5);
                out.f.set(br2 + 8, q8);
            }
            proof {
                assert forall|i: int|
                    0 <= i < NDIST && (xi(i) == 0 || (xi(i) == NX as int - 1 && yi(i) < y2 + 1))
                        implies #[trigger] out.f@[i] as int == e[i] by {
                    lemma_dist_bounds(i);
                }
            }
            y2 += 1;
        }
        proof {
            assert forall|i: int| 0 <= i < NDIST implies #[trigger] out.f@[i] as int == e[i] by {
                lemma_dist_bounds(i);
            }
            assert forall|c: int| 0 <= c < NCELLS implies #[trigger] out.rho@[c] as int
                == edge_rho_at(rho2s, mask@, pol, c) by {
                lemma_cell_bounds(c);
            }
            assert forall|c: int| 0 <= c < NCELLS implies #[trigger] out.ux@[c] as int
                == edge_ux_at(ux2s, mask@, pol, c) by {
                lemma_cell_bounds(c);
            }
            assert forall|c: int| 0 <= c < NCELLS implies #[trigger] out.uy@[c] as int
                == edge_uy_at(uy2s, mask@, pol, c) by {
                lemma_cell_bounds(c);
            }
        }
    }
}

/// Obstacle bounce-back, applied in place after the edge stage: at
/// every obstacle cell, each direction receives the cell's own
/// post-streaming value from the opposite direction.
fn stage_bounce(fv: &mut Vec<i64>, f1: &Vec<i64>, mask: &Vec<bool>)
    requires
        old(fv)@.len() == NDIST,
        f1@.len() == NDIST,
        mask@.len() == NCELLS,
    ensures
        final(fv)@.len() == NDIST,
        forall|i: int|
            0 <= i < NDIST ==> #[trigger] final(fv)@[i] as int == bounce_val(
                as_ints(old(fv)@),
                as_ints(f1@),
                mask@,
                i,
            ),
{
    let ghost f3s = as_ints(old(fv)@);
    let ghost g1 = as_ints(f1@);
    let mut c: usize = 0;
    while c < NCELLS
        invariant
            c <= NCELLS,
            old(fv)@.len() == NDIST,
            fv@.len() == NDIST,
            f1@.len() == NDIST,
            mask@.len() == NCELLS,
            f3s == as_ints(old(fv)@),
            g1 == as_ints(f1@),
            forall|i: int|
                0 <= i < NDIST && i / (QDIRS as int) < c ==> #[trigger] fv@[i] as int == bounce_val(
                    f3s,
                    g1,
                    mask@,
                    i,
                ),
            forall|i: int|
                0 <= i < NDIST && i / (QDIRS as int) >= c ==> #[trigger] fv@[i] == old(fv)@[i],
        decreases NCELLS - c,
    {
        proof {
            lemma_cell_bounds(c as int);
            assert forall|t: int| 0 <= t < 9 implies {
                &&& xi(#[trigger] (c as int * QDIRS + t)) == xc(c as int)
                &&& qi(c as int * QDIRS + t) == t
                &&& (c as int * QDIRS + t) / (QDIRS as int) == c as int
                &&& 0 <= c as int * QDIRS + t < NDIST
            } by {
                crate::model::lemma_idx3_decomp(xc(c as int), yc(c as int), t);
            }
        }
        if mask[c] {
            let b: usize = c * QDIRS;
            fv.set(b, f1[b]);
            fv.set(b + 3, f1[b + 1]);
            fv.set(b + 4, f1[b + 2]);
            fv.set(b + 1, f1[b + 3]);
            fv.set(b + 2, f1[b + 4]);
            fv.set(b + 7, f1[b + 5]);
            fv.set(b + 8, f1[b + 6]);
            fv.set(b + 5, f1[b + 7]);
            fv.set(b + 6, f1[b + 8]);
        }
        c += 1;
    }
}

/// A D2Q9 lattice-Boltzmann solver over a fixed `NX` by `NY` grid with
/// a circular obstacle. All quantities are fixed-point integers scaled
/// by [`SCALE`].
pub struct FluidSim {
    f: Vec<i64>,
    f_temp: Vec<i64>,
    rho: Vec<i64>,
    ux: Vec<i64>,
    uy: Vec<i64>,
    obstacle_map: Vec<bool>,
    cylinder_radius: i64,
    cylinder_center_x: i64,
    cylinder_center_y: i64,
    policy: EdgePolicy,
}

impl FluidSim {
    /// The current distribution field, as integers.
    pub closed spec fn dist(&self) -> Seq<int> {
        as_ints(self.f@)
    }

    /// The scratch field: after a successful step it holds the
    /// post-streaming, pre-collision capture bounce-back reads.
    pub closed spec fn scratch(&self) -> Seq<int> {
        as_ints(self.f_temp@)
    }

    /// The per-cell density field.
    pub closed spec fn density(&self) -> Seq<int> {
        as_ints(self.rho@)
    }

    /// The per-cell horizontal velocity field.
    pub closed spec fn vel_x(&self) -> Seq<int> {
        as_ints(self.ux@)
    }

    /// The per-cell vertical velocity field.
    pub closed spec fn vel_y(&self) -> Seq<int> {
        as_ints(self.uy@)
    }

    /// The obstacle mask.
    pub closed spec fn mask(&self) -> Seq<bool> {
        self.obstacle_map@
    }

    /// The edge policy chosen at construction.
    pub closed spec fn edge_policy(&self) -> EdgePolicy {
        self.policy
    }

    /// The obstacle geometry chosen at construction
    /// (radius, center x, center y, in `SCALE` units).
    pub closed spec fn geom(&self) -> (int, int, int) {
        (self.cylinder_radius as int, self.cylinder_center_x as int, self.cylinder_center_y as int)
    }

    /// Well-formedness: the fields have their fixed sizes and the
    /// stored velocities stay within the stability limit.
    pub closed spec fn wf(&self) -> bool {
        &&& self.f@.len() == NDIST
        &&& self.f_temp@.len() == NDIST
        &&& self.rho@.len() == NCELLS
        &&& self.ux@.len() == NCELLS
        &&& self.uy@.len() == NCELLS
        &&& self.obstacle_map@.len() == NCELLS
        &&& forall|c: int|
            0 <= c < NCELLS ==> -U_LIMIT <= #[trigger] self.ux@[c] <= U_LIMIT
        &&& forall|c: int|
            0 <= c < NCELLS ==> -U_LIMIT <= #[trigger] self.uy@[c] <= U_LIMIT
    }

    /// Build the obstacle mask for the configured circle.
    fn build_mask(radius: i64, ccx: i64, ccy: i64) -> (omap: Vec<bool>)
        requires
            -GEOM_LIMIT <= radius <= GEOM_LIMIT,
            -GEOM_LIMIT <= ccx <= GEOM_LIMIT,
            -GEOM_LIMIT <= ccy <= GEOM_LIMIT,
        ensures
            omap@.len() == NCELLS,
            forall|c: int|
                0 <= c < NCELLS ==> #[trigger] omap@[c] == obstacle_at(
                    radius as int,
                    ccx as int,
                    ccy as int,
                    xc(c),
                    yc(c),
                ),
    {
        let mut omap: Vec<bool> = Vec::new();
        let mut c: usize = 0;
        while c < NCELLS
            invariant
                c <= NCELLS,
                omap@.len() == c,
                -GEOM_LIMIT <= radius <= GEOM_LIMIT,
                -GEOM_LIMIT <= ccx <= GEOM_LIMIT,
                -GEOM_LIMIT <= ccy <= GEOM_LIMIT,
                forall|j: int|
                    0 <= j < c ==> #[trigger] omap@[j] == obstacle_at(
                        radius as int,
                        ccx as int,
                        ccy as int,
                        xc(j),
                        yc(j),
                    ),
            decreases NCELLS - c,
        {
            proof {
                lemma_cell_bounds(c as int);
            }
            let x: usize = c % NX;
            let y: usize = c / NX;
            let ob = is_obstacle(radius, ccx, ccy, x, y);
            omap.push(ob);
            c += 1;
        }
        omap
    }

    /// Construct a solver with the given obstacle circle, edge policy,
    /// and initial velocity profile. Every cell starts at the
    /// equilibrium distribution for density 1 and the profile's
    /// velocity; the density field is set to the sum of those nine
    /// values, and the mask is fixed for the solver's lifetime.
    pub fn new_with(
        cylinder_radius: i64,
        cylinder_center_x: i64,
        cylinder_center_y: i64,
        policy: EdgePolicy,
        profile: InitProfile,
    ) -> (sim: FluidSim)
        requires
            -GEOM_LIMIT <= cylinder_radius <= GEOM_LIMIT,
            -GEOM_LIMIT <= cylinder_center_x <= GEOM_LIMIT,
            -GEOM_LIMIT <= cylinder_center_y <= GEOM_LIMIT,
            profile_ok(profile),
        ensures
            sim.wf(),
            sim.edge_policy() == policy,
            sim.geom() == (cylinder_radius as int, cylinder_center_x as int,
            cylinder_center_y as int),
            forall|c: int|
                0 <= c < NCELLS ==> #[trigger] sim.mask()[c] == obstacle_at(
                    cylinder_radius as int,
                    cylinder_center_x as int,
                    cylinder_center_y as int,
                    xc(c),
                    yc(c),
                ),
            forall|i: int|
                0 <= i < NDIST ==> #[trigger] sim.dist()[i] == init_f_at(
                    profile,
                    cylinder_center_x as int,
                    xi(i),
                    qi(i),
                ),
            forall|c: int|
                0 <= c < NCELLS ==> #[trigger] sim.density()[c] == init_rho_at(
                    profile,
                    cylinder_center_x as int,
                    xc(c),
                ),
            forall|c: int|
                0 <= c < NCELLS ==> #[trigger] sim.vel_x()[c] == init_ux_at(
                    profile,
                    cylinder_center_x as int,
                    xc(c),
                ),
            forall|c: int| 0 <= c < NCELLS ==> #[trigger] sim.vel_y()[c] == init_uy_at(profile),
    {
        let omap = Self::build_mask(cylinder_radius, cylinder_center_x, cylinder_center_y);
        let mut f: Vec<i64> = Vec::new();
        let mut rho: Vec<i64> = Vec::new();
        let mut ux: Vec<i64> = Vec::new();
        let mut uy: Vec<i64> = Vec::new();
        let mut c: usize = 0;
        while c < NCELLS
            invariant
                c <= NCELLS,
                f@.len() == c * QDIRS,
                rho@.len() == c,
                ux@.len() == c,
                uy@.len() == c,
                -GEOM_LIMIT <= cylinder_center_x <= GEOM_LIMIT,
                profile_ok(profile),
                forall|j: int|
                    0 <= j < c * QDIRS ==> #[trigger] f@[j] as int == init_f_at(
                        profile,
                        cylinder_center_x as int,
                        xi(j),
                        qi(j),
                    ),
                forall|j: int|
                    0 <= j < c ==> #[trigger] rho@[j] as int == init_rho_at(
                        profile,
                        cylinder_center_x as int,
                        xc(j),
                    ),
                forall|j: int|
                    0 <= j < c ==> #[trigger] ux@[j] as int == init_ux_at(
                        profile,
                        cylinder_center_x as int,
                        xc(j),
                    ),
                forall|j: int| 0 <= j < c ==> #[trigger] uy@[j] as int == init_uy_at(profile),
                forall|j: int| 0 <= j < c ==> -U_LIMIT <= #[trigger] ux@[j] <= U_LIMIT,
                forall|j: int| 0 <= j < c ==> -U_LIMIT <= #[trigger] uy@[j] <= U_LIMIT,
            decreases NCELLS - c,
        {
            proof {
                lemma_cell_bounds(c as int);
            }
            let x: usize = c % NX;
            let ux0: i64;
            let uy0: i64;
            match profile {
                InitProfile::Uniform { ux: pux, uy: puy } => {
                    ux0 = pux;
                    uy0 = puy;
                },
                InitProfile::TwoZone { upstream_ux, downstream_ux } => {
                    if (x as i64) * SCALE < cylinder_center_x {
                        ux0 = upstream_ux;
                    } else {
                        ux0 = downstream_ux;
                    }
                    uy0 = 0;
                },
            }
            proof {
                assert(ux0 as int == init_ux_at(profile, cylinder_center_x as int, xc(c as int)));
                assert(uy0 as int == init_uy_at(profile));
            }
            let v0 = feq_fixed(SCALE, ux0, uy0, 0);
            let v1 = feq_fixed(SCALE, ux0, uy0, 1);
            let v2 = feq_fixed(SCALE, ux0, uy0, 2);
            let v3 = feq_fixed(SCALE, ux0, uy0, 3);
            let v4 = feq_fixed(SCALE, ux0, uy0, 4);
            let v5 = feq_fixed(SCALE, ux0, uy0, 5);
            let v6 = feq_fixed(SCALE, ux0, uy0, 6);
            let v7 = feq_fixed(SCALE, ux0, uy0, 7);
            let v8 = feq_fixed(SCALE, ux0, uy0, 8);
            f.push(v0);
            f.push(v1);
            f.push(v2);
            f.push(v3);
            f.push(v4);
            f.push(v5);
            f.push(v6);
            f.push(v7);
            f.push(v8);
            let ssum: i64 = v0 + v1 + v2 + v3 + v4 + v5 + v6 + v7 + v8;
            rho.push(ssum);
            ux.push(ux0);
            uy.push(uy0);
            proof {
                assert forall|t: int| 0 <= t < 9 implies xi(
                    #[trigger] (c as int * QDIRS + t),
                ) == xc(c as int) && qi(c as int * QDIRS + t) == t by {
                    crate::model::lemma_idx3_decomp(xc(c as int), yc(c as int), t);
                }
                assert(ssum as int == init_rho_at(profile, cylinder_center_x as int, xc(c as int)));
            }
            c += 1;
        }
        let f_temp = zeros(NDIST);
        FluidSim {
            f,
            f_temp,
            rho,
            ux,
            uy,
            obstacle_map: omap,
            cylinder_radius,
            cylinder_center_x,
            cylinder_center_y,
            policy,
        }
    }

    /// Construct the default configuration: inflow/outflow edges and a
    /// uniform initial velocity equal to the inflow velocity.
    pub fn new(cylinder_radius: i64, cylinder_center_x: i64, cylinder_center_y: i64) -> (sim:
        FluidSim)
        requires
            -GEOM_LIMIT <= cylinder_radius <= GEOM_LIMIT,
            -GEOM_LIMIT <= cylinder_center_x <= GEOM_LIMIT,
            -GEOM_LIMIT <= cylinder_center_y <= GEOM_LIMIT,
        ensures
            sim.wf(),
            sim.edge_policy() == EdgePolicy::InflowOutflow,
            sim.geom() == (cylinder_radius as int, cylinder_center_x as int,
            cylinder_center_y as int),
            forall|c: int|
                0 <= c < NCELLS ==> #[trigger] sim.mask()[c] == obstacle_at(
                    cylinder_radius as int,
                    cylinder_center_x as int,
                    cylinder_center_y as int,
                    xc(c),
                    yc(c),
                ),
            forall|i: int|
                0 <= i < NDIST ==> #[trigger] sim.dist()[i] == init_f_at(
                    InitProfile::Uniform { ux: INFLOW_UX, uy: INFLOW_UY },
                    cylinder_center_x as int,
                    xi(i),
                    qi(i),
                ),
    {
        Self::new_with(
            cylinder_radius,
            cylinder_center_x,
            cylinder_center_y,
            EdgePolicy::InflowOutflow,
            InitProfile::Uniform { ux: INFLOW_UX, uy: INFLOW_UY },
        )
    }

    /// Construct a solver from a caller-supplied distribution field
    /// (for resuming a saved state); the derived macroscopic fields
    /// start at zero and are recomputed by the first step.
    pub fn new_with_distribution(
        cylinder_radius: i64,
        cylinder_center_x: i64,
        cylinder_center_y: i64,
        policy: EdgePolicy,
        f: Vec<i64>,
    ) -> (sim: FluidSim)
        requires
            -GEOM_LIMIT <= cylinder_radius <= GEOM_LIMIT,
            -GEOM_LIMIT <= cylinder_center_x <= GEOM_LIMIT,
            -GEOM_LIMIT <= cylinder_center_y <= GEOM_LIMIT,
            f@.len() == NDIST,
        ensures
            sim.wf(),
            sim.edge_policy() == policy,
            sim.geom() == (cylinder_radius as int, cylinder_center_x as int,
            cylinder_center_y as int),
            forall|c: int|
                0 <= c < NCELLS ==> #[trigger] sim.mask()[c] == obstacle_at(
                    cylinder_radius as int,
                    cylinder_center_x as int,
                    cylinder_center_y as int,
                    xc(c),
                    yc(c),
                ),
            forall|i: int| 0 <= i < NDIST ==> #[trigger] sim.dist()[i] == f@[i] as int,
    {
        let omap = Self::build_mask(cylinder_radius, cylinder_center_x, cylinder_center_y);
        FluidSim {
            f,
            f_temp: zeros(NDIST),
            rho: zeros(NCELLS),
            ux: zeros(NCELLS),
            uy: zeros(NCELLS),
            obstacle_map: omap,
            cylinder_radius,
            cylinder_center_x,
            cylinder_center_y,
            policy,
        }
    }

    /// Advance the simulation by one full timestep: streaming, then
    /// collision, then the configured edge policy, then obstacle
    /// bounce-back. Succeeds exactly when every fluid cell of the
    /// streamed field is stable; on instability nothing is committed,
    /// the state is left as it was, and the error is surfaced.
    pub fn step(&mut self) -> (r: Result<(), Instability>)
        requires
            old(self).wf(),
        ensures
            final(self).wf(),
            final(self).mask() == old(self).mask(),
            final(self).edge_policy() == old(self).edge_policy(),
            final(self).geom() == old(self).geom(),
            r is Ok <==> all_stable(
                stream_field(old(self).dist(), old(self).edge_policy()),
                old(self).mask(),
            ),
            r is Err ==> *final(self) == *old(self),
            r is Ok ==> forall|i: int|
                0 <= i < NDIST ==> #[trigger] final(self).dist()[i] == next_field(
                    old(self).dist(),
                    old(self).mask(),
                    old(self).edge_policy(),
                )[i],
            r is Ok ==> forall|i: int|
                0 <= i < NDIST ==> #[trigger] final(self).scratch()[i] == stream_field(
                    old(self).dist(),
                    old(self).edge_policy(),
                )[i],
            r is Ok ==> forall|c: int|
                0 <= c < NCELLS ==> #[trigger] final(self).density()[c] == next_rho_at(
                    old(self).dist(),
                    old(self).mask(),
                    old(self).edge_policy(),
                    old(self).density(),
                    c,
                ),
            r is Ok ==> forall|c: int|
                0 <= c < NCELLS ==> #[trigger] final(self).vel_x()[c] == next_ux_at(
                    old(self).dist(),
                    old(self).mask(),
                    old(self).edge_policy(),
                    old(self).vel_x(),
                    c,
                ),
            r is Ok ==> forall|c: int|
                0 <= c < NCELLS ==> #[trigger] final(self).vel_y()[c] == next_uy_at(
                    old(self).dist(),
                    old(self).mask(),
                    old(self).edge_policy(),
                    old(self).vel_y(),
                    c,
                ),
    {
        let ghost g0 = self.dist();
        let ghost mk = self.mask();
        let ghost polg = self.policy;
        let ghost f1g = stream_field(g0, polg);
        let streamed = stage_stream(&self.f, self.policy);
        proof {
            assert(as_ints(streamed@) =~= f1g);
        }
        let res = stage_collide(&streamed, &self.obstacle_map, &self.rho, &self.ux, &self.uy);
        match res {
            None => Err(Instability),
            Some(out) => {
                let mut out = out;
                let ghost rho2s = as_ints(out.rho@);
                let ghost ux2s = as_ints(out.ux@);
                let ghost uy2s = as_ints(out.uy@);
                stage_edge(&mut out, &self.obstacle_map, self.policy, Ghost(f1g));
                let ghost f3g = as_ints(out.f@);
                proof {
                    assert(f3g =~= edge_field(collide_field(f1g, mk), f1g, mk, polg));
                }
                stage_bounce(&mut out.f, &streamed, &self.obstacle_map);
                self.f_temp = streamed;
                self.f = out.f;
                self.rho = out.rho;
                self.ux = out.ux;
                self.uy = out.uy;
                proof {
                    assert forall|i: int| 0 <= i < NDIST implies #[trigger] self.dist()[i]
                        == next_field(g0, mk, polg)[i] by {
                        assert(self.f@[i] as int == bounce_val(f3g, as_ints(self.f_temp@), mk, i));
                    }
                    assert forall|c: int| 0 <= c < NCELLS implies #[trigger] self.density()[c]
                        == next_rho_at(g0, mk, polg, as_ints(old(self).rho@), c) by {
                        assert(self.rho@[c] as int == edge_rho_at(rho2s, mk, polg, c));
                    }
                    assert forall|c: int| 0 <= c < NCELLS implies #[trigger] self.vel_x()[c]
                        == next_ux_at(g0, mk, polg, as_ints(old(self).ux@), c) by {
                        assert(self.ux@[c] as int == edge_ux_at(ux2s, mk, polg, c));
                    }
                    assert forall|c: int| 0 <= c < NCELLS implies #[trigger] self.vel_y()[c]
                        == next_uy_at(g0, mk, polg, as_ints(old(self).uy@), c) by {
                        assert(self.uy@[c] as int == edge_uy_at(uy2s, mk, polg, c));
                    }
                }
                Ok(())
            },
        }
    }

    /// The grid width.
    pub fn get_nx(&self) -> (n: usize)
        ensures
            n == NX,
    {
        NX
    }

    /// The grid height.
    pub fn get_ny(&self) -> (n: usize)
        ensures
            n == NY,
    {
        NY
    }

    /// The obstacle mask as a renderable byte array (1 = obstacle).
    pub fn get_obstacle_map(&self) -> (m: Vec<u8>)
        requires
            self.wf(),
        ensures
            m@.len() == NCELLS,
            forall|c: int|
                0 <= c < NCELLS ==> #[trigger] m@[c] == (if self.mask()[c] {
                    1u8
                } else {
                    0u8
                }),
    {
        let mut m: Vec<u8> = Vec::new();
        let mut c: usize = 0;
        while c < NCELLS
            invariant
                c <= NCELLS,
                m@.len() == c,
                self.wf(),
                forall|j: int|
                    0 <= j < c ==> #[trigger] m@[j] == (if self.mask()[j] {
                        1u8
                    } else {
                        0u8
                    }),
            decreases NCELLS - c,
        {
            if self.obstacle_map[c] {
                m.push(1);
            } else {
                m.push(0);
            }
            c += 1;
        }
        m
    }

    /// The per-cell speed, in `SCALE` units: the integer square root of
    /// `ux^2 + uy^2`, recomputed on demand.
    pub fn get_velocity_magnitudes(&self) -> (m: Vec<i64>)
        requires
            self.wf(),
        ensures
            m@.len() == NCELLS,
            forall|c: int|
                0 <= c < NCELLS ==> {
                    &&& 0 <= #[trigger] m@[c]
                    &&& (m@[c] as int) * (m@[c] as int) <= usq_of(self.vel_x()[c], self.vel_y()[c])
                    &&& usq_of(self.vel_x()[c], self.vel_y()[c]) < (m@[c] as int + 1) * (m@[c] as int
                        + 1)
                },
    {
        let mut m: Vec<i64> = Vec::new();
        let mut c: usize = 0;
        while c < NCELLS
            invariant
                c <= NCELLS,
                m@.len() == c,
                self.wf(),
                forall|j: int|
                    0 <= j < c ==> {
                        &&& 0 <= #[trigger] m@[j]
                        &&& (m@[j] as int) * (m@[j] as int) <= usq_of(
                            self.vel_x()[j],
                            self.vel_y()[j],
                        )
                        &&& usq_of(self.vel_x()[j], self.vel_y()[j]) < (m@[j] as int + 1) * (
                        m@[j] as int + 1)
                    },
            decreases NCELLS - c,
        {
            let vx: i64 = self.ux[c];
            let vy: i64 = self.uy[c];
            proof {
                lemma_mul_bounds(vx as int, vx as int, U_LIMIT as int, U_LIMIT as int);
                lemma_mul_bounds(vy as int, vy as int, U_LIMIT as int, U_LIMIT as int);
                assert(vx as int * (vx as int) >= 0) by (nonlinear_arith);
                assert(vy as int * (vy as int) >= 0) by (nonlinear_arith);
            }
            let m2: i64 = vx * vx + vy * vy;
            let r: u64 = isqrt_u64(m2 as u64);
            m.push(r as i64);
            c += 1;
        }
        m
    }

    /// The per-cell density field, in `SCALE` units.
    pub fn get_density(&self) -> (d: Vec<i64>)
        requires
            self.wf(),
        ensures
            d@.len() == NCELLS,
            forall|c: int| 0 <= c < NCELLS ==> #[trigger] d@[c] as int == self.density()[c],
    {
        copy_vec(&self.rho)
    }

    /// The per-cell horizontal velocity field, in `SCALE` units.
    pub fn get_ux(&self) -> (v: Vec<i64>)
        requires
            self.wf(),
        ensures
            v@.len() == NCELLS,
            forall|c: int| 0 <= c < NCELLS ==> #[trigger] v@[c] as int == self.vel_x()[c],
    {
        copy_vec(&self.ux)
    }

    /// The per-cell vertical velocity field, in `SCALE` units.
    pub fn get_uy(&self) -> (v: Vec<i64>)
        requires
            self.wf(),
        ensures
            v@.len() == NCELLS,
            forall|c: int| 0 <= c < NCELLS ==> #[trigger] v@[c] as int == self.vel_y()[c],
    {
        copy_vec(&self.uy)
    }

    /// The raw distribution field, row-major, nine values per cell, in
    /// `SCALE` units.
    pub fn get_distribution(&self) -> (d: Vec<i64>)
        requires
            self.wf(),
        ensures
            d@.len() == NDIST,
            forall|i: int| 0 <= i < NDIST ==> #[trigger] d@[i] as int == self.dist()[i],
    {
        copy_vec(&self.f)
    }
}

} // verus!
