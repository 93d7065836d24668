//! Scenario tests for the fixed-point D2Q9 solver.
//!
//! All quantities are fixed-point integers scaled by `SCALE` (1e8), so
//! a tolerance of 100 units is 1e-6 in lattice units.

use lbm2d::lattice::{NCELLS, NDIST, NX, NY, SCALE};
use lbm2d::{opp_of, EdgePolicy, FluidSim, InitProfile};

/// Reference equilibrium value, computed the way the solver defines it:
/// `w_q * rho * (1 + 3 c.u + 4.5 (c.u)^2 - 1.5 |u|^2)` with truncating
/// fixed-point divisions.
fn feq_ref(rho: i64, ux: i64, uy: i64, q: usize) -> i64 {
    let s: i128 = SCALE as i128;
    let cx: i128 = match q {
        1 | 5 | 8 => 1,
        3 | 6 | 7 => -1,
        _ => 0,
    };
    let cy: i128 = match q {
        2 | 5 | 6 => 1,
        4 | 7 | 8 => -1,
        _ => 0,
    };
    let w: i128 = match q {
        0 => 16,
        1 | 2 | 3 | 4 => 4,
        _ => 1,
    };
    let cu = cx * ux as i128 + cy * uy as i128;
    let usq = (ux as i128) * (ux as i128) + (uy as i128) * (uy as i128);
    let br = s + 3 * cu + (9 * cu * cu) / (2 * s) - (3 * usq) / (2 * s);
    ((w * rho as i128 * br) / (36 * s)) as i64
}

#[test]
fn weights_sum_to_one() {
    let mut num_sum: i64 = 0;
    let mut float_sum: f64 = 0.0;
    for q in 0..9 {
        let w = lbm2d::lattice::w_num_of(q);
        num_sum += w;
        float_sum += w as f64 / 36.0;
    }
    assert_eq!(num_sum, 36);
    assert!((float_sum - 1.0).abs() < 1e-12);
}

#[test]
fn opposite_direction_involution() {
    assert_eq!(opp_of(0), 0);
    for q in 0..9 {
        assert_eq!(opp_of(opp_of(q)), q);
    }
    assert_eq!(opp_of(1), 3);
    assert_eq!(opp_of(2), 4);
    assert_eq!(opp_of(5), 7);
    assert_eq!(opp_of(6), 8);
}

#[test]
fn grid_dimensions() {
    let sim = FluidSim::new(0, 0, 0);
    assert_eq!(sim.get_nx(), 200);
    assert_eq!(sim.get_ny(), 100);
    assert_eq!(sim.get_obstacle_map().len(), NCELLS);
    assert_eq!(sim.get_velocity_magnitudes().len(), NCELLS);
    assert_eq!(sim.get_distribution().len(), NDIST);
}

#[test]
fn obstacle_mask_shape() {
    let sim = FluidSim::new(10 * SCALE, 50 * SCALE, 50 * SCALE);
    let map = sim.get_obstacle_map();
    assert_eq!(map[50 * NX + 50], 1);
    assert_eq!(map[65 * NX + 50], 0);
    for y in 1..100usize {
        for x in 0..101usize {
            let mirrored = (100 - y) * NX + (100 - x);
            assert_eq!(map[y * NX + x], map[mirrored]);
        }
    }
}

#[test]
fn obstacle_mask_circle_boundary_is_fluid() {
    // Cells exactly on the circle are fluid: distance 10 from (50,50).
    let sim = FluidSim::new(10 * SCALE, 50 * SCALE, 50 * SCALE);
    let map = sim.get_obstacle_map();
    assert_eq!(map[50 * NX + 60], 0);
    assert_eq!(map[40 * NX + 50], 0);
    assert_eq!(map[50 * NX + 59], 1);
}

#[test]
fn negative_radius_squares_like_positive() {
    let a = FluidSim::new(10 * SCALE, 50 * SCALE, 50 * SCALE);
    let b = FluidSim::new(-10 * SCALE, 50 * SCALE, 50 * SCALE);
    assert_eq!(a.get_obstacle_map(), b.get_obstacle_map());
}

#[test]
fn uniform_equilibrium_is_a_fixed_point() {
    // No obstacle, periodic edges, uniform velocity (0.05, 0): one step
    // keeps density within 1e-6 of 1.0 and velocity within 1e-6 of the
    // initial value.
    let mut sim = FluidSim::new_with(
        0,
        50 * SCALE,
        50 * SCALE,
        EdgePolicy::Periodic,
        InitProfile::Uniform { ux: SCALE / 20, uy: 0 },
    );
    assert!(sim.step().is_ok());
    let rho = sim.get_density();
    let ux = sim.get_ux();
    let uy = sim.get_uy();
    for c in 0..NCELLS {
        assert!((rho[c] - SCALE).abs() <= 100, "density drifted at cell {}", c);
        assert!((ux[c] - SCALE / 20).abs() <= 100, "ux drifted at cell {}", c);
        assert!(uy[c].abs() <= 100, "uy drifted at cell {}", c);
    }
}

#[test]
fn mass_conserved_under_periodic_edges() {
    // No obstacle, periodic edges, a sheared two-zone profile; the total
    // mass stays fixed up to fixed-point truncation in collision
    // (streaming is an exact permutation).
    let mut sim = FluidSim::new_with(
        0,
        100 * SCALE,
        50 * SCALE,
        EdgePolicy::Periodic,
        InitProfile::TwoZone { upstream_ux: 6_000_000, downstream_ux: 4_000_000 },
    );
    let total_before: i128 = sim.get_distribution().iter().map(|&v| v as i128).sum();
    for _ in 0..3 {
        assert!(sim.step().is_ok());
    }
    let total_after: i128 = sim.get_distribution().iter().map(|&v| v as i128).sum();
    assert!((total_after - total_before).abs() < 1_000_000);
}

#[test]
fn two_zone_profile_splits_at_center() {
    let sim = FluidSim::new_with(
        0,
        50 * SCALE,
        50 * SCALE,
        EdgePolicy::Periodic,
        InitProfile::TwoZone { upstream_ux: 6_000_000, downstream_ux: 4_000_000 },
    );
    let ux = sim.get_ux();
    for y in 0..NY {
        for x in 0..NX {
            let expected = if x < 50 { 6_000_000 } else { 4_000_000 };
            assert_eq!(ux[y * NX + x], expected);
        }
    }
}

#[test]
fn inflow_left_column_stays_pinned() {
    let mut sim = FluidSim::new(10 * SCALE, 50 * SCALE, 50 * SCALE);
    let map = sim.get_obstacle_map();
    for _ in 0..3 {
        assert!(sim.step().is_ok());
        let rho = sim.get_density();
        let ux = sim.get_ux();
        let uy = sim.get_uy();
        let f = sim.get_distribution();
        for y in 0..NY {
            let c = y * NX;
            if map[c] == 0 {
                assert_eq!(rho[c], SCALE);
                assert_eq!(ux[c], 5_000_000);
                assert_eq!(uy[c], 0);
                for q in 0..9 {
                    assert_eq!(f[c * 9 + q], feq_ref(SCALE, 5_000_000, 0, q));
                }
            }
        }
    }
}

#[test]
fn outflow_right_column_copies_or_equilibrates() {
    // Each right-column value is either the left neighbor's value (for
    // the three directions pointing back into the domain) or the
    // equilibrium of the cell's own just-derived macroscopic state, so
    // it never exceeds the larger of the two.
    let mut sim = FluidSim::new(10 * SCALE, 50 * SCALE, 50 * SCALE);
    let map = sim.get_obstacle_map();
    for _ in 0..3 {
        assert!(sim.step().is_ok());
        let rho = sim.get_density();
        let ux = sim.get_ux();
        let uy = sim.get_uy();
        let f = sim.get_distribution();
        for y in 0..NY {
            let cr = y * NX + (NX - 1);
            let cn = y * NX + (NX - 2);
            if map[cr] == 0 {
                for q in 0..9 {
                    let v = f[cr * 9 + q];
                    if q == 3 || q == 6 || q == 7 {
                        assert_eq!(v, f[cn * 9 + q]);
                    } else {
                        assert_eq!(v, feq_ref(rho[cr], ux[cr], uy[cr], q));
                    }
                    let bound = f[cn * 9 + q].max(feq_ref(rho[cr], ux[cr], uy[cr], q));
                    assert!(v <= bound);
                }
            }
        }
    }
}

#[test]
fn slip_walls_zero_vertical_velocity() {
    let mut sim = FluidSim::new_with(
        10 * SCALE,
        50 * SCALE,
        50 * SCALE,
        EdgePolicy::SlipWall,
        InitProfile::Uniform { ux: 5_000_000, uy: 0 },
    );
    let map = sim.get_obstacle_map();
    assert!(sim.step().is_ok());
    let uy = sim.get_uy();
    for x in 0..NX {
        if map[x] == 0 {
            assert_eq!(uy[x], 0);
        }
        let top = (NY - 1) * NX + x;
        if map[top] == 0 {
            assert_eq!(uy[top], 0);
        }
    }
}

#[test]
fn zero_density_is_reported_unstable() {
    let f = vec![0i64; NDIST];
    let mut sim =
        FluidSim::new_with_distribution(0, 50 * SCALE, 50 * SCALE, EdgePolicy::Periodic, f);
    let before = sim.get_distribution();
    assert!(sim.step().is_err());
    assert_eq!(sim.get_distribution(), before);
}

#[test]
fn excessive_density_is_reported_unstable() {
    // Nine entries of 2e11 per cell: density 1.8e12 exceeds the bound.
    let f = vec![200_000_000_000i64; NDIST];
    let mut sim =
        FluidSim::new_with_distribution(0, 50 * SCALE, 50 * SCALE, EdgePolicy::Periodic, f);
    assert!(sim.step().is_err());
}

#[test]
fn excessive_velocity_is_reported_unstable() {
    // Density 1e10 but momentum 3e10: velocity 3 lattice units per step.
    let mut f = vec![0i64; NDIST];
    for c in 0..NCELLS {
        f[c * 9 + 1] = 20_000_000_000;
        f[c * 9 + 3] = -10_000_000_000;
    }
    let mut sim =
        FluidSim::new_with_distribution(0, 50 * SCALE, 50 * SCALE, EdgePolicy::Periodic, f);
    assert!(sim.step().is_err());
}

#[test]
fn stable_step_succeeds_after_restored_state() {
    // A state saved from one solver can seed another, and the step
    // result is identical.
    let mut a = FluidSim::new(10 * SCALE, 50 * SCALE, 50 * SCALE);
    let saved = a.get_distribution();
    let mut b = FluidSim::new_with_distribution(
        10 * SCALE,
        50 * SCALE,
        50 * SCALE,
        EdgePolicy::InflowOutflow,
        saved,
    );
    assert!(a.step().is_ok());
    assert!(b.step().is_ok());
    assert_eq!(a.get_distribution(), b.get_distribution());
}

#[test]
fn velocity_magnitudes_match_initial_speed() {
    let sim = FluidSim::new_with(
        0,
        50 * SCALE,
        50 * SCALE,
        EdgePolicy::Periodic,
        InitProfile::Uniform { ux: 5_000_000, uy: 0 },
    );
    let mags = sim.get_velocity_magnitudes();
    for c in 0..NCELLS {
        assert_eq!(mags[c], 5_000_000);
    }
    let tilted = FluidSim::new_with(
        0,
        50 * SCALE,
        50 * SCALE,
        EdgePolicy::Periodic,
        InitProfile::Uniform { ux: 3_000_000, uy: 4_000_000 },
    );
    let mags2 = tilted.get_velocity_magnitudes();
    for c in 0..NCELLS {
        assert_eq!(mags2[c], 5_000_000);
    }
}

#[test]
fn initial_distribution_is_equilibrium() {
    let sim = FluidSim::new_with(
        0,
        50 * SCALE,
        50 * SCALE,
        EdgePolicy::Periodic,
        InitProfile::Uniform { ux: 5_000_000, uy: 0 },
    );
    let f = sim.get_distribution();
    let rho = sim.get_density();
    let mut expected_rho: i64 = 0;
    for q in 0..9 {
        let v = feq_ref(SCALE, 5_000_000, 0, q);
        assert_eq!(f[q], v);
        expected_rho += v;
    }
    assert_eq!(rho[0], expected_rho);
    assert!((expected_rho - SCALE).abs() <= 100);
}
