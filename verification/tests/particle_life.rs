//! Tests for the particle-life core: the force law, the attraction
//! matrix, the clock, friction decay, and full simulation ticks.
//!
//! All quantities are fixed-point with one unit = 1_000_000 raw steps, so
//! a coefficient of 0.9 is 900_000, a distance of 4 blocks is 4_000_000,
//! and 0.04 seconds is 40_000.

use particle_life::force::force;
use particle_life::friction::decay_factor;
use particle_life::math::isqrt;
use particle_life::matrix::{AttractionMatrix, SimError};
use particle_life::sim::{update_particles, Particle, Vec3};
use particle_life::time::Time;

fn particle(ptype: usize, pos: (i64, i64, i64), vel: (i64, i64, i64)) -> Particle {
    Particle {
        ptype,
        position: Vec3 { x: pos.0, y: pos.1, z: pos.2 },
        velocity: Vec3 { x: vel.0, y: vel.1, z: vel.2 },
    }
}

#[test]
fn isqrt_small_values() {
    assert_eq!(isqrt(0), 0);
    assert_eq!(isqrt(1), 1);
    assert_eq!(isqrt(15), 3);
    assert_eq!(isqrt(16), 4);
    assert_eq!(isqrt(1_000_000_000_000), 1_000_000);
    assert_eq!(isqrt(999_999_999_999), 999_999);
}

#[test]
fn force_is_zero_at_and_beyond_cutoff() {
    // r >= 1: no interaction, whatever the coefficient.
    assert_eq!(force(1_000_000, 900_000), 0);
    assert_eq!(force(1_000_000, -900_000), 0);
    assert_eq!(force(7_345_678, 123_456), 0);
}

#[test]
fn force_vanishes_at_beta_from_both_sides() {
    // Continuity at r = beta: the middle branch starts at exactly zero,
    // and the repulsion branch would also give zero there.
    assert_eq!(force(300_000, 900_000), 0);
    assert_eq!(force(300_000, -900_000), 0);
    // One step below beta the repulsion branch is barely negative.
    assert_eq!(force(299_999, 900_000), -4);
}

#[test]
fn force_vanishes_approaching_cutoff() {
    // Continuity at r = 1: just inside the cutoff the force is a few
    // raw steps at most.
    assert_eq!(force(999_999, 900_000), 2);
    assert_eq!(force(999_999, -900_000), -2);
}

#[test]
fn force_peaks_at_band_midpoint() {
    // At r = (1 + beta) / 2 = 0.65 the triangular profile reaches the
    // full coefficient.
    assert_eq!(force(650_000, 900_000), 900_000);
    assert_eq!(force(650_000, -900_000), -900_000);
}

#[test]
fn force_zero_coefficient_gives_zero() {
    assert_eq!(force(300_000, 0), 0);
    assert_eq!(force(500_000, 0), 0);
    assert_eq!(force(999_999, 0), 0);
}

#[test]
fn force_at_eight_tenths() {
    // r = 0.8, a = 0.9: a * (1 - |2r - 1 - beta| / (1 - beta))
    // = 0.9 * (1 - 0.3 / 0.7) ~ 0.514286.
    assert_eq!(force(800_000, 900_000), 514_286);
}

#[test]
fn force_repulsive_below_beta_for_any_coefficient() {
    // r = 0.2 < beta: repulsion regardless of the coefficient's sign.
    assert_eq!(force(200_000, 900_000), -333_334);
    assert_eq!(force(200_000, -900_000), -333_334);
    assert_eq!(force(200_000, 0), -333_334);
    // Very close to contact the repulsion approaches -1.
    assert_eq!(force(1, 900_000), -999_997);
    assert!(force(150_000, -123_456) < 0);
}

#[test]
fn matrix_new_is_zero_filled() {
    let m = AttractionMatrix::new(3);
    for a in 0..3 {
        for b in 0..3 {
            assert_eq!(m.get(a, b), Ok(0));
        }
    }
}

#[test]
fn matrix_default_is_two_types_no_interaction() {
    let m = AttractionMatrix::default();
    assert_eq!(m.size(), 2);
    assert_eq!(m.get(0, 0), Ok(0));
    assert_eq!(m.get(1, 1), Ok(0));
}

#[test]
fn matrix_get_rejects_out_of_range_indices() {
    let m = AttractionMatrix::new(2);
    assert_eq!(m.get(2, 0), Err(SimError::IndexOutOfRange));
    assert_eq!(m.get(0, 2), Err(SimError::IndexOutOfRange));
    assert_eq!(m.get(7, 7), Err(SimError::IndexOutOfRange));
}

#[test]
fn matrix_set_overwrites_one_cell() {
    let mut m = AttractionMatrix::new(3);
    assert_eq!(m.set(1, 2, -450_000), Ok(()));
    assert_eq!(m.get(1, 2), Ok(-450_000));
    assert_eq!(m.get(2, 1), Ok(0));
    assert_eq!(m.get(1, 1), Ok(0));
}

#[test]
fn matrix_set_rejects_out_of_range_indices() {
    let mut m = AttractionMatrix::new(2);
    assert_eq!(m.set(2, 0, 5), Err(SimError::IndexOutOfRange));
    assert_eq!(m.set(0, 5, 5), Err(SimError::IndexOutOfRange));
    assert_eq!(m.get(0, 0), Ok(0));
}

#[test]
fn matrix_start_preset_values() {
    let m = AttractionMatrix::start_preset();
    assert_eq!(m.size(), 2);
    assert_eq!(m.get(0, 0), Ok(-900_000));
    assert_eq!(m.get(0, 1), Ok(900_000));
    assert_eq!(m.get(1, 0), Ok(900_000));
    assert_eq!(m.get(1, 1), Ok(0));
}

#[test]
fn matrix_replace_swaps_configuration() {
    let mut m = AttractionMatrix::new(2);
    m.replace(AttractionMatrix::start_preset());
    assert_eq!(m.get(0, 1), Ok(900_000));
}

#[test]
fn clock_measures_elapsed_time() {
    let mut t = Time::new(1_000);
    assert_eq!(t.update_and_get_delta(1_500), 500);
    assert_eq!(t.update_and_get_delta(2_500), 1_000);
    assert_eq!(t.update_and_get_delta(2_500), 0);
}

#[test]
fn decay_factor_is_one_for_no_elapsed_time() {
    assert_eq!(decay_factor(0), 1_000_000);
}

#[test]
fn decay_factor_is_half_after_one_half_life() {
    // FRICTION_HALF_LIFE is 0.040 s.
    assert_eq!(decay_factor(40_000), 500_000);
}

#[test]
fn decay_factor_is_quarter_after_two_half_lives() {
    assert_eq!(decay_factor(80_000), 250_000);
}

#[test]
fn decay_factor_is_root_half_after_half_a_half_life() {
    // 0.5^(1/2) ~ 0.7071067; the fixed-point square root gives 707106.
    assert_eq!(decay_factor(20_000), 707_106);
}

#[test]
fn tick_rejects_type_outside_matrix() {
    let matrix = AttractionMatrix::start_preset();
    let before = vec![
        particle(0, (0, 0, 0), (1_000, 0, 0)),
        particle(2, (3_000_000, 0, 0), (0, 0, 0)),
    ];
    let mut particles = before.clone();
    let r = update_particles(&mut particles, &matrix, 40_000);
    assert_eq!(r, Err(SimError::IndexOutOfRange));
    assert_eq!(particles, before);
}

#[test]
fn tick_beyond_cutoff_only_applies_friction() {
    // Two particles 6 blocks apart with R_MAX = 5: no mutual force, so
    // one half-life tick exactly halves every velocity component
    // (rounding toward zero) and then moves each by velocity * dt.
    let matrix = AttractionMatrix::start_preset();
    let mut particles = vec![
        particle(0, (0, 0, 0), (100_000, -40_000, 7)),
        particle(1, (6_000_000, 0, 0), (2_223, 0, -500_001)),
    ];
    update_particles(&mut particles, &matrix, 40_000).unwrap();
    assert_eq!(particles[0].velocity, Vec3 { x: 50_000, y: -20_000, z: 3 });
    assert_eq!(particles[1].velocity, Vec3 { x: 1_111, y: 0, z: -250_000 });
    assert_eq!(particles[0].position, Vec3 { x: 2_000, y: -800, z: 0 });
    assert_eq!(particles[1].position, Vec3 { x: 6_000_044, y: 0, z: -10_000 });
}

#[test]
fn tick_at_exact_cutoff_distance_has_no_force() {
    let matrix = AttractionMatrix::start_preset();
    let mut particles = vec![
        particle(0, (0, 0, 0), (800, 0, 0)),
        particle(1, (5_000_000, 0, 0), (0, 0, 0)),
    ];
    update_particles(&mut particles, &matrix, 40_000).unwrap();
    assert_eq!(particles[0].velocity, Vec3 { x: 400, y: 0, z: 0 });
    assert_eq!(particles[1].velocity, Vec3 { x: 0, y: 0, z: 0 });
}

#[test]
fn tick_skips_coincident_pairs() {
    // Zero-distance pairs are excluded from force accumulation.
    let matrix = AttractionMatrix::start_preset();
    let mut particles = vec![
        particle(0, (5, 5, 5), (0, 0, 0)),
        particle(1, (5, 5, 5), (2_000, 0, 0)),
    ];
    update_particles(&mut particles, &matrix, 40_000).unwrap();
    assert_eq!(particles[0].velocity, Vec3 { x: 0, y: 0, z: 0 });
    assert_eq!(particles[0].position, Vec3 { x: 5, y: 5, z: 5 });
    assert_eq!(particles[1].velocity, Vec3 { x: 1_000, y: 0, z: 0 });
}

#[test]
fn tick_with_zero_elapsed_time_changes_nothing() {
    let matrix = AttractionMatrix::start_preset();
    let before = vec![
        particle(0, (0, 0, 0), (123, 456, -789)),
        particle(1, (4_000_000, 0, 0), (0, 0, 0)),
    ];
    let mut particles = before.clone();
    update_particles(&mut particles, &matrix, 0).unwrap();
    assert_eq!(particles, before);
}

#[test]
fn single_particle_velocity_halves_after_one_half_life() {
    let matrix = AttractionMatrix::start_preset();
    let mut particles = vec![particle(0, (0, 0, 0), (1_000_001, -1, 999_999))];
    update_particles(&mut particles, &matrix, 40_000).unwrap();
    assert_eq!(particles[0].velocity, Vec3 { x: 500_000, y: 0, z: 499_999 });
    assert_eq!(particles[0].position, Vec3 { x: 20_000, y: 0, z: 19_999 });
}

#[test]
fn attraction_at_four_blocks_pulls_pair_together() {
    // Types 0 and 1 with the start preset, 4 blocks apart: r = 0.8 and
    // both coefficients are 0.9, so each feels ~0.514 toward the other;
    // scaled by R_MAX * FORCE_FACTOR = 50 and dt = 0.04 s.
    let matrix = AttractionMatrix::start_preset();
    let mut particles = vec![
        particle(0, (0, 0, 0), (0, 0, 0)),
        particle(1, (4_000_000, 0, 0), (0, 0, 0)),
    ];
    update_particles(&mut particles, &matrix, 40_000).unwrap();
    assert_eq!(particles[0].velocity, Vec3 { x: 1_028_572, y: 0, z: 0 });
    assert_eq!(particles[1].velocity, Vec3 { x: -1_028_572, y: 0, z: 0 });
    assert_eq!(particles[0].position, Vec3 { x: 41_142, y: 0, z: 0 });
    assert_eq!(particles[1].position, Vec3 { x: 3_958_858, y: 0, z: 0 });
}

#[test]
fn attraction_separation_strictly_decreases() {
    // While r stays within (beta, 1) the preset pair keeps approaching.
    let matrix = AttractionMatrix::start_preset();
    let mut particles = vec![
        particle(0, (0, 0, 0), (0, 0, 0)),
        particle(1, (4_000_000, 0, 0), (0, 0, 0)),
    ];
    let mut separation: i64 = 4_000_000;
    for _ in 0..5 {
        update_particles(&mut particles, &matrix, 40_000).unwrap();
        let next = particles[1].position.x - particles[0].position.x;
        assert!(next < separation);
        separation = next;
        // Still inside the attraction band (r > beta, i.e. > 1.5 blocks).
        assert!(separation > 1_500_000);
    }
}

#[test]
fn repulsion_inside_beta_regardless_of_coefficient_sign() {
    // One block apart: r = 0.2 < beta. The preset coefficient between
    // these types is +0.9, yet both particles are pushed apart.
    let matrix = AttractionMatrix::start_preset();
    let mut particles = vec![
        particle(0, (0, 0, 0), (0, 0, 0)),
        particle(1, (1_000_000, 0, 0), (0, 0, 0)),
    ];
    update_particles(&mut particles, &matrix, 40_000).unwrap();
    assert_eq!(particles[0].velocity, Vec3 { x: -666_668, y: 0, z: 0 });
    assert_eq!(particles[1].velocity, Vec3 { x: 666_668, y: 0, z: 0 });
    assert!(particles[0].velocity.x < 0 && particles[1].velocity.x > 0);
}

#[test]
fn forces_use_the_tick_start_snapshot() {
    // Two identical particles attract each other symmetrically. An
    // implementation that let particle 1 see particle 0's already-moved
    // position would break the symmetry; the snapshot keeps the two
    // displacements exactly opposite.
    let mut matrix = AttractionMatrix::new(1);
    matrix.set(0, 0, 900_000).unwrap();
    let mut particles = vec![
        particle(0, (0, 0, 0), (0, 0, 0)),
        particle(0, (4_000_000, 0, 0), (0, 0, 0)),
    ];
    update_particles(&mut particles, &matrix, 40_000).unwrap();
    assert_eq!(particles[0].velocity.x, -particles[1].velocity.x);
    assert_eq!(particles[0].position.x, 41_142);
    assert_eq!(particles[1].position.x, 4_000_000 - 41_142);
}

#[test]
fn identical_runs_give_identical_trajectories() {
    let matrix = AttractionMatrix::start_preset();
    let start = vec![
        particle(0, (0, 500_000, 0), (10_000, 0, -3)),
        particle(1, (3_500_000, 0, 250_000), (0, 7_000, 0)),
        particle(0, (-2_000_000, 0, 0), (0, 0, 0)),
    ];
    let dts = [40_000_i64, 16_000, 33_333, 1, 40_000];
    let mut run1 = start.clone();
    let mut run2 = start.clone();
    for &dt in dts.iter() {
        update_particles(&mut run1, &matrix, dt).unwrap();
    }
    for &dt in dts.iter() {
        update_particles(&mut run2, &matrix, dt).unwrap();
    }
    assert_eq!(run1, run2);
}
