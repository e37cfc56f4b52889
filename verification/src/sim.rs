//! The per-tick simulation step.
//!
//! Each tick takes a snapshot of every position, accumulates the pairwise
//! forces for every particle against that snapshot, decays and integrates
//! every velocity, and only then moves every position. Velocity updates
//! for all particles strictly precede any position update, so no particle
//! ever sees a neighbour's already-moved position within a tick.

use vstd::prelude::*;
use crate::force::{force, spec_force, FORCE_FACTOR, R_MAX};
use crate::friction::{decay_factor, spec_decay_factor};
use crate::math::{
    abs_i, clamp, clamp_to, isqrt, lemma_abs_mul_le, lemma_muldiv_magnitude, lemma_sqrt_floor_is,
    mul_div_i128, muldiv, sqrt_floor, SCALE,
};
use crate::matrix::{AttractionMatrix, SimError};
use vstd::arithmetic::div_mod::{
    lemma_div_denominator, lemma_div_is_ordered, lemma_div_multiples_vanish,
    lemma_div_nonincreasing, lemma_div_pos_is_pos, lemma_multiply_divide_lt,
};
use vstd::arithmetic::mul::{lemma_mul_basics, lemma_mul_inequality, lemma_mul_nonnegative};

verus! {

/// Largest elapsed time a single tick may integrate: 60 seconds.
pub const DT_LIMIT: i64 = 60_000_000;

/// Positions and velocities are confined to `[-COORD_LIMIT, COORD_LIMIT]`
/// (a million blocks, or blocks per second).
pub const COORD_LIMIT: i64 = 1_000_000_000_000;

/// Largest number of particles a step will scan.
pub const MAX_PARTICLES: usize = 100_000;

/// A fixed-point 3-D vector.
#[derive(Clone, Copy, Debug, PartialEq, Eq, Structural)]
pub struct Vec3 {
    pub x: i64,
    pub y: i64,
    pub z: i64,
}

/// The mathematical value of a `Vec3`: three unbounded integers.
pub struct V3 {
    pub x: int,
    pub y: int,
    pub z: int,
}

/// One particle: a behaviour class and fixed-point position and velocity.
#[derive(Clone, Copy, Debug, PartialEq, Eq, Structural)]
pub struct Particle {
    /// Index into the attraction matrix.
    pub ptype: usize,
    pub position: Vec3,
    pub velocity: Vec3,
}

/// The value of a stored vector.
pub open spec fn v3(v: Vec3) -> V3 {
    V3 { x: v.x as int, y: v.y as int, z: v.z as int }
}

pub open spec fn v3_zero() -> V3 {
    V3 { x: 0, y: 0, z: 0 }
}

pub open spec fn v3_add(a: V3, b: V3) -> V3 {
    V3 { x: a.x + b.x, y: a.y + b.y, z: a.z + b.z }
}

/// A stored vector is within the coordinate bounds.
pub open spec fn vec3_in_bounds(v: Vec3) -> bool {
    -COORD_LIMIT <= v.x <= COORD_LIMIT && -COORD_LIMIT <= v.y <= COORD_LIMIT && -COORD_LIMIT
        <= v.z <= COORD_LIMIT
}

pub open spec fn particle_in_bounds(p: Particle) -> bool {
    vec3_in_bounds(p.position) && vec3_in_bounds(p.velocity)
}

/// What the step requires of the particle set.
pub open spec fn particles_wf(s: Seq<Particle>) -> bool {
    s.len() <= MAX_PARTICLES && forall|k: int|
        0 <= k < s.len() ==> particle_in_bounds(#[trigger] s[k])
}

/// Every particle's type indexes the configured matrix.
pub open spec fn spec_types_ok(s: Seq<Particle>, m: AttractionMatrix) -> bool {
    forall|k: int| 0 <= k < s.len() ==> (#[trigger] s[k].ptype as int) < m.spec_size()
}

/// Magnitude bound of one pairwise force contribution: the largest
/// coefficient magnitude plus one whole unit.
pub open spec fn pair_limit() -> int {
    (i64::MAX as int) + 1 + (SCALE as int)
}

/// The force particle at `pi` feels from a neighbour at `pj` under
/// coefficient `a`: the force law along the unit vector toward `pj`.
/// Coincident pairs and pairs at or beyond the cutoff contribute nothing.
pub open spec fn spec_pair_force(pi: Vec3, pj: Vec3, a: int) -> V3 {
    let dx = pj.x - pi.x;
    let dy = pj.y - pi.y;
    let dz = pj.z - pi.z;
    let d2 = dx * dx + dy * dy + dz * dz;
    let dist = sqrt_floor(d2 as nat) as int;
    if dist == 0 || dist >= R_MAX {
        v3_zero()
    } else {
        let r = muldiv(dist, SCALE as int, R_MAX as int);
        let f = spec_force(r, a);
        V3 {
            x: muldiv(f, muldiv(dx, SCALE as int, dist), SCALE as int),
            y: muldiv(f, muldiv(dy, SCALE as int, dist), SCALE as int),
            z: muldiv(f, muldiv(dz, SCALE as int, dist), SCALE as int),
        }
    }
}

/// Net force on particle `i` from the first `upto` particles of the
/// snapshot (skipping `i` itself).
pub open spec fn spec_net_force(s: Seq<Particle>, m: AttractionMatrix, i: int, upto: int) -> V3
    decreases upto,
{
    if upto <= 0 {
        v3_zero()
    } else {
        let prev = spec_net_force(s, m, i, upto - 1);
        if upto - 1 == i {
            prev
        } else {
            v3_add(
                prev,
                spec_pair_force(
                    s[i].position,
                    s[upto - 1].position,
                    m.spec_coef(s[i].ptype as int, s[upto - 1].ptype as int),
                ),
            )
        }
    }
}

/// One component of the velocity update: decay the old velocity, then add
/// the accumulated force scaled by `R_MAX`, `FORCE_FACTOR` and `dt`.
pub open spec fn spec_vel_component(v: int, nf: int, dt: int) -> int {
    let decay = spec_decay_factor(dt);
    let scaled = muldiv(muldiv(nf, R_MAX as int, SCALE as int), FORCE_FACTOR as int, SCALE as int);
    clamp(muldiv(v, decay, SCALE as int) + muldiv(scaled, dt, SCALE as int), COORD_LIMIT as int)
}

/// The velocity particle `i` carries after the tick.
pub open spec fn spec_step_velocity(s: Seq<Particle>, m: AttractionMatrix, dt: int, i: int) -> V3 {
    let nf = spec_net_force(s, m, i, s.len() as int);
    V3 {
        x: spec_vel_component(s[i].velocity.x as int, nf.x, dt),
        y: spec_vel_component(s[i].velocity.y as int, nf.y, dt),
        z: spec_vel_component(s[i].velocity.z as int, nf.z, dt),
    }
}

/// One component of the position update, using the already-updated
/// velocity.
pub open spec fn spec_pos_component(p: int, v: int, dt: int) -> int {
    clamp(p + muldiv(v, dt, SCALE as int), COORD_LIMIT as int)
}

/// The position particle `i` occupies after the tick.
pub open spec fn spec_step_position(s: Seq<Particle>, m: AttractionMatrix, dt: int, i: int) -> V3 {
    let nv = spec_step_velocity(s, m, dt, i);
    V3 {
        x: spec_pos_component(s[i].position.x as int, nv.x, dt),
        y: spec_pos_component(s[i].position.y as int, nv.y, dt),
        z: spec_pos_component(s[i].position.z as int, nv.z, dt),
    }
}

/// A lone particle feels no force.
pub proof fn lemma_net_force_solo(s: Seq<Particle>, m: AttractionMatrix)
    requires
        s.len() == 1,
    ensures
        spec_net_force(s, m, 0, 1) == v3_zero(),
{
    assert(spec_net_force(s, m, 0, 0) == v3_zero());
}

/// Friction-only decay: with zero net force, one half-life of elapsed
/// time halves every velocity component exactly (rounding toward zero),
/// whatever the velocity was.
pub proof fn lemma_friction_half_life(v: int)
    requires
        abs_i(v) <= COORD_LIMIT,
    ensures
        spec_vel_component(v, 0, crate::friction::FRICTION_HALF_LIFE as int) == muldiv(v, 1, 2),
{
    crate::friction::lemma_half_life_decay();
    let m = abs_i(v);
    assert(abs_i(0int) == 0);
    vstd::arithmetic::mul::lemma_mul_basics(abs_i(R_MAX as int));
    assert(abs_i(0int) * abs_i(R_MAX as int) == 0);
    assert(muldiv(0, R_MAX as int, SCALE as int) == 0);
    assert(muldiv(0, FORCE_FACTOR as int, SCALE as int) == 0);
    assert(muldiv(0, crate::friction::FRICTION_HALF_LIFE as int, SCALE as int) == 0);
    assert(SCALE as int / 2 == 500000int);
    vstd::arithmetic::div_mod::lemma_div_denominator(m * 500000, 500000, 2);
    assert((m * 500000) / (500000int * 2) == ((m * 500000) / 500000) / 2);
    lemma_div_multiples_vanish(m, 500000);
    assert((500000 * m) / 500000 == m);
    assert(m * 500000 == 500000 * m);
    assert(m * 1 == m);
    assert((m * 500000) / 1000000 == m / 2);
    lemma_div_nonincreasing(m, 2);
    assert(abs_i(muldiv(v, 500000, SCALE as int)) <= COORD_LIMIT as int);
}

/// A lone particle ticked for exactly one half-life keeps its direction
/// and halves each velocity component (rounding toward zero): friction is
/// the only influence, and it is frame-rate independent.
pub proof fn lemma_solo_half_life_step(s: Seq<Particle>, m: AttractionMatrix)
    requires
        s.len() == 1,
        particle_in_bounds(s[0]),
    ensures
        spec_step_velocity(s, m, crate::friction::FRICTION_HALF_LIFE as int, 0) == (V3 {
            x: muldiv(s[0].velocity.x as int, 1, 2),
            y: muldiv(s[0].velocity.y as int, 1, 2),
            z: muldiv(s[0].velocity.z as int, 1, 2),
        }),
{
    lemma_net_force_solo(s, m);
    lemma_friction_half_life(s[0].velocity.x as int);
    lemma_friction_half_life(s[0].velocity.y as int);
    lemma_friction_half_life(s[0].velocity.z as int);
}

/// Determinism: the stepped velocity and position are functions of the
/// snapshot, the matrix and the elapsed time alone, so identical initial
/// state, matrix and `dt` sequence give identical trajectories on every
/// run.
pub proof fn lemma_step_deterministic(
    s1: Seq<Particle>,
    s2: Seq<Particle>,
    m1: AttractionMatrix,
    m2: AttractionMatrix,
    dt1: int,
    dt2: int,
    i: int,
)
    requires
        s1 == s2,
        m1 == m2,
        dt1 == dt2,
    ensures
        spec_step_velocity(s1, m1, dt1, i) == spec_step_velocity(s2, m2, dt2, i),
        spec_step_position(s1, m1, dt1, i) == spec_step_position(s2, m2, dt2, i),
{
}

/// Universal repulsion between whole particles: a neighbour along an axis
/// closer than `BETA * R_MAX` (1.5 blocks) pushes the particle away,
/// whatever the sign or size of the attraction coefficient.
pub proof fn lemma_pair_repulsive_on_axis(pi: Vec3, pj: Vec3, a: int)
    requires
        pj.y == pi.y,
        pj.z == pi.z,
        0 < pj.x - pi.x < 1_500_000,
    ensures
        spec_pair_force(pi, pj, a).x < 0,
        spec_pair_force(pi, pj, a).y == 0,
        spec_pair_force(pi, pj, a).z == 0,
{
    let d: int = pj.x - pi.x;
    let d2: int = d * d;
    assert(0 < d * d && d * d < (d + 1) * (d + 1)) by (nonlinear_arith)
        requires
            0 < d,
    ;
    lemma_sqrt_floor_is(d2 as nat, d as nat);
    assert(sqrt_floor(d2 as nat) as int == d);

    // The normalized distance is d / 5, which is below BETA.
    lemma_div_denominator(d * 1_000_000, 1_000_000, 5);
    lemma_div_multiples_vanish(d, 1_000_000);
    assert(d * 1_000_000 == 1_000_000 * d);
    assert((d * 1_000_000) / 5_000_000 == d / 5);
    let r = muldiv(d, SCALE as int, R_MAX as int);
    assert(r == d / 5);
    lemma_div_pos_is_pos(d, 5);
    lemma_multiply_divide_lt(d, 5, 300_000);
    assert(0 <= r < crate::force::BETA);

    // The force law is strictly repulsive there.
    let f = spec_force(r, a);
    if r > 0 {
        crate::force::lemma_force_repulsive(r, a);
    } else {
        lemma_mul_basics(abs_i(SCALE as int));
        assert(muldiv(0, SCALE as int, crate::force::BETA as int) == 0);
        assert(f == -(SCALE as int));
    }
    assert(f < 0);

    // The unit vector toward the neighbour is exactly one unit of x.
    lemma_div_multiples_vanish(SCALE as int, d);
    assert((d * (SCALE as int)) / d == SCALE);
    assert(muldiv(d, SCALE as int, d) == SCALE);

    // Scaling the force by that unit keeps it exactly, sign included.
    crate::math::lemma_muldiv_exact_factor(f, 1, SCALE as int);
    assert(abs_i(muldiv(f, 1 * (SCALE as int), SCALE as int)) == abs_i(f) * 1);
    lemma_mul_nonnegative(abs_i(f), abs_i(SCALE as int));
    lemma_div_pos_is_pos(abs_i(f) * abs_i(SCALE as int), SCALE as int);
    assert(muldiv(f, SCALE as int, SCALE as int) == f);

    // The other components carry no force at all.
    lemma_mul_basics(abs_i(f));
    assert(muldiv(0, SCALE as int, d) == 0);
    assert(muldiv(f, 0, SCALE as int) == 0);
}

/// One pairwise contribution, exactly as `spec_pair_force` states it.
fn pair_force(pi: Vec3, pj: Vec3, a: i64) -> (c: (i128, i128, i128))
    requires
        vec3_in_bounds(pi),
        vec3_in_bounds(pj),
    ensures
        c.0 as int == spec_pair_force(pi, pj, a as int).x,
        c.1 as int == spec_pair_force(pi, pj, a as int).y,
        c.2 as int == spec_pair_force(pi, pj, a as int).z,
        abs_i(c.0 as int) <= pair_limit(),
        abs_i(c.1 as int) <= pair_limit(),
        abs_i(c.2 as int) <= pair_limit(),
{
    let dx: i128 = pj.x as i128 - pi.x as i128;
    let dy: i128 = pj.y as i128 - pi.y as i128;
    let dz: i128 = pj.z as i128 - pi.z as i128;
    proof {
        assert(dx * dx >= 0 && dx * dx <= 4000000000000000000000000int) by (nonlinear_arith)
            requires
                -2000000000000int <= dx <= 2000000000000int,
        ;
        assert(dy * dy >= 0 && dy * dy <= 4000000000000000000000000int) by (nonlinear_arith)
            requires
                -2000000000000int <= dy <= 2000000000000int,
        ;
        assert(dz * dz >= 0 && dz * dz <= 4000000000000000000000000int) by (nonlinear_arith)
            requires
                -2000000000000int <= dz <= 2000000000000int,
        ;
    }
    let d2: i128 = dx * dx + dy * dy + dz * dz;
    let dist: u64 = isqrt(d2 as u128);
    if dist > 0 && dist < R_MAX as u64 {
        let r128 = mul_div_i128(dist as i128, SCALE as i128, R_MAX as i128);
        proof {
            lemma_abs_mul_le(dist as int, SCALE as int, R_MAX as int, SCALE as int);
            assert((dist as int) * (SCALE as int) < (R_MAX as int) * (SCALE as int));
            lemma_multiply_divide_lt((dist as int) * (SCALE as int), R_MAX as int, SCALE as int);
            vstd::arithmetic::div_mod::lemma_div_pos_is_pos(
                (dist as int) * (SCALE as int),
                R_MAX as int,
            );
        }
        let f: i64 = force(r128 as i64, a);
        proof {
            crate::force::lemma_force_magnitude(r128 as int, a as int);
        }
        proof {
            assert(-(dist as int) <= dx as int <= dist as int) by (nonlinear_arith)
                requires
                    dy * dy >= 0,
                    dz * dz >= 0,
                    d2 as int == dx * dx + dy * dy + dz * dz,
                    (d2 as int) < ((dist as int) + 1) * ((dist as int) + 1),
                    dist as int >= 0,
            ;
            assert(-(dist as int) <= dy as int <= dist as int) by (nonlinear_arith)
                requires
                    dx * dx >= 0,
                    dz * dz >= 0,
                    d2 as int == dx * dx + dy * dy + dz * dz,
                    (d2 as int) < ((dist as int) + 1) * ((dist as int) + 1),
                    dist as int >= 0,
            ;
            assert(-(dist as int) <= dz as int <= dist as int) by (nonlinear_arith)
                requires
                    dx * dx >= 0,
                    dy * dy >= 0,
                    d2 as int == dx * dx + dy * dy + dz * dz,
                    (d2 as int) < ((dist as int) + 1) * ((dist as int) + 1),
                    dist as int >= 0,
            ;
            lemma_abs_mul_le(dx as int, SCALE as int, 2000000000000int, SCALE as int);
            lemma_abs_mul_le(dy as int, SCALE as int, 2000000000000int, SCALE as int);
            lemma_abs_mul_le(dz as int, SCALE as int, 2000000000000int, SCALE as int);
        }
        let ux = unit_component(dx, dist);
        let uy = unit_component(dy, dist);
        let uz = unit_component(dz, dist);
        proof {
            lemma_abs_mul_le(f as int, ux as int, pair_limit(), SCALE as int);
            lemma_abs_mul_le(f as int, uy as int, pair_limit(), SCALE as int);
            lemma_abs_mul_le(f as int, uz as int, pair_limit(), SCALE as int);
            lemma_muldiv_magnitude(f as int, ux as int, SCALE as int);
            lemma_muldiv_magnitude(f as int, uy as int, SCALE as int);
            lemma_muldiv_magnitude(f as int, uz as int, SCALE as int);
        }
        let cx = mul_div_i128(f as i128, ux, SCALE as i128);
        let cy = mul_div_i128(f as i128, uy, SCALE as i128);
        let cz = mul_div_i128(f as i128, uz, SCALE as i128);
        (cx, cy, cz)
    } else {
        (0, 0, 0)
    }
}

/// One component of the unit vector toward the neighbour: `d * SCALE`
/// divided by the distance, never larger than one whole unit.
fn unit_component(d: i128, dist: u64) -> (u: i128)
    requires
        dist > 0,
        abs_i(d as int) <= dist as int,
        abs_i(d as int) * (SCALE as int) <= i128::MAX as int,
    ensures
        u as int == muldiv(d as int, SCALE as int, dist as int),
        abs_i(u as int) <= SCALE as int,
{
    proof {
        assert(abs_i(d as int) * (SCALE as int) <= (dist as int) * (SCALE as int));
        lemma_div_is_ordered(
            abs_i(d as int) * (SCALE as int),
            (dist as int) * (SCALE as int),
            dist as int,
        );
        lemma_div_multiples_vanish(SCALE as int, dist as int);
        assert(((dist as int) * (SCALE as int)) / (dist as int) == SCALE);
    }
    mul_div_i128(d, SCALE as i128, dist as i128)
}

/// Advance the whole particle set by one tick of `dt` raw time units.
///
/// Fails with `IndexOutOfRange`, leaving every particle untouched, exactly
/// when some particle's type does not index the matrix. Otherwise every
/// particle's new velocity and position are the ones `spec_step_velocity`
/// and `spec_step_position` compute from the tick-start snapshot.
pub fn update_particles(
    particles: &mut Vec<Particle>,
    matrix: &AttractionMatrix,
    dt: i64,
) -> (res: Result<(), SimError>)
    requires
        matrix.wf(),
        0 <= dt <= DT_LIMIT,
        particles_wf(old(particles)@),
    ensures
        match res {
            Ok(()) => spec_types_ok(old(particles)@, *matrix) && final(particles)@.len() == old(
                particles,
            )@.len() && particles_wf(final(particles)@) && forall|k: int|
                0 <= k < old(particles)@.len() ==> (#[trigger] final(particles)@[k]).ptype == old(
                    particles,
                )@[k].ptype && v3(final(particles)@[k].velocity) == spec_step_velocity(
                    old(particles)@,
                    *matrix,
                    dt as int,
                    k,
                ) && v3(final(particles)@[k].position) == spec_step_position(
                    old(particles)@,
                    *matrix,
                    dt as int,
                    k,
                ),
            Err(e) => e == SimError::IndexOutOfRange && !spec_types_ok(old(particles)@, *matrix)
                && *final(particles) == *old(particles),
        },
{
    let ghost snap: Seq<Particle> = particles@;
    let n: usize = particles.len();
    let msize: usize = matrix.size();

    let mut i: usize = 0;
    while i < n
        invariant
            i <= n,
            n == particles@.len(),
            particles@ == snap,
            msize == matrix.spec_size(),
            forall|k: int| 0 <= k < i ==> (#[trigger] snap[k].ptype as int) < matrix.spec_size(),
        decreases n - i,
    {
        if particles[i].ptype >= msize {
            proof {
                assert(0 <= i < snap.len() && snap[i as int].ptype as int >= matrix.spec_size());
                assert(!spec_types_ok(snap, *matrix));
            }
            return Err(SimError::IndexOutOfRange);
        }
        i = i + 1;
    }
    proof {
        assert(spec_types_ok(snap, *matrix));
    }

    let decay: i64 = decay_factor(dt);

    let mut i: usize = 0;
    while i < n
        invariant
            i <= n,
            n == particles@.len() == snap.len(),
            matrix.wf(),
            0 <= dt <= DT_LIMIT,
            particles_wf(snap),
            spec_types_ok(snap, *matrix),
            decay as int == spec_decay_factor(dt as int),
            0 <= decay <= SCALE,
            forall|k: int|
                0 <= k < n ==> (#[trigger] particles@[k]).ptype == snap[k].ptype
                    && particles@[k].position == snap[k].position,
            forall|k: int|
                0 <= k < i ==> v3((#[trigger] particles@[k]).velocity) == spec_step_velocity(
                    snap,
                    *matrix,
                    dt as int,
                    k,
                ),
            forall|k: int| i <= k < n ==> (#[trigger] particles@[k]).velocity == snap[k].velocity,
        decreases n - i,
    {
        let mut acc_x: i128 = 0;
        let mut acc_y: i128 = 0;
        let mut acc_z: i128 = 0;
        let mut j: usize = 0;
        while j < n
            invariant
                j <= n,
                i < n,
                n == particles@.len() == snap.len(),
                matrix.wf(),
                particles_wf(snap),
                spec_types_ok(snap, *matrix),
                forall|k: int|
                    0 <= k < n ==> (#[trigger] particles@[k]).ptype == snap[k].ptype
                        && particles@[k].position == snap[k].position,
                acc_x as int == spec_net_force(snap, *matrix, i as int, j as int).x,
                acc_y as int == spec_net_force(snap, *matrix, i as int, j as int).y,
                acc_z as int == spec_net_force(snap, *matrix, i as int, j as int).z,
                abs_i(acc_x as int) <= (j as int) * pair_limit(),
                abs_i(acc_y as int) <= (j as int) * pair_limit(),
                abs_i(acc_z as int) <= (j as int) * pair_limit(),
            decreases n - j,
        {
            proof {
                assert(((j + 1) as int) * pair_limit() == (j as int) * pair_limit() + pair_limit())
                    by (nonlinear_arith);
            }
            if j != i {
                let pi_pos: Vec3 = particles[i].position;
                let pj_pos: Vec3 = particles[j].position;
                let a: i64 = matrix.coef_at(particles[i].ptype, particles[j].ptype);
                let c: (i128, i128, i128) = pair_force(pi_pos, pj_pos, a);
                proof {
                    lemma_mul_inequality(j as int, 100000int, pair_limit());
                }
                acc_x = acc_x + c.0;
                acc_y = acc_y + c.1;
                acc_z = acc_z + c.2;
                proof {
                    assert(spec_net_force(snap, *matrix, i as int, (j + 1) as int) == v3_add(
                        spec_net_force(snap, *matrix, i as int, j as int),
                        spec_pair_force(
                            snap[i as int].position,
                            snap[j as int].position,
                            matrix.spec_coef(snap[i as int].ptype as int, snap[j as int].ptype as int),
                        ),
                    ));
                }
            } else {
                proof {
                    assert(spec_net_force(snap, *matrix, i as int, (j + 1) as int)
                        == spec_net_force(snap, *matrix, i as int, j as int));
                }
            }
            j = j + 1;
        }
        proof {
            lemma_mul_inequality(n as int, 100000int, pair_limit());
            assert((n as int) * pair_limit() <= 100000int * pair_limit());
            lemma_abs_mul_le(acc_x as int, R_MAX as int, 100000int * pair_limit(), R_MAX as int);
            lemma_abs_mul_le(acc_y as int, R_MAX as int, 100000int * pair_limit(), R_MAX as int);
            lemma_abs_mul_le(acc_z as int, R_MAX as int, 100000int * pair_limit(), R_MAX as int);
            assert(R_MAX as int == 5 * (SCALE as int));
            crate::math::lemma_muldiv_exact_factor(acc_x as int, 5, SCALE as int);
            crate::math::lemma_muldiv_exact_factor(acc_y as int, 5, SCALE as int);
            crate::math::lemma_muldiv_exact_factor(acc_z as int, 5, SCALE as int);
        }
        let sf_x: i128 = mul_div_i128(acc_x, R_MAX as i128, SCALE as i128);
        let sf_y: i128 = mul_div_i128(acc_y, R_MAX as i128, SCALE as i128);
        let sf_z: i128 = mul_div_i128(acc_z, R_MAX as i128, SCALE as i128);
        proof {
            lemma_abs_mul_le(
                sf_x as int,
                FORCE_FACTOR as int,
                5 * (100000int * pair_limit()),
                FORCE_FACTOR as int,
            );
            lemma_abs_mul_le(
                sf_y as int,
                FORCE_FACTOR as int,
                5 * (100000int * pair_limit()),
                FORCE_FACTOR as int,
            );
            lemma_abs_mul_le(
                sf_z as int,
                FORCE_FACTOR as int,
                5 * (100000int * pair_limit()),
                FORCE_FACTOR as int,
            );
            assert(FORCE_FACTOR as int == 10 * (SCALE as int));
            crate::math::lemma_muldiv_exact_factor(sf_x as int, 10, SCALE as int);
            crate::math::lemma_muldiv_exact_factor(sf_y as int, 10, SCALE as int);
            crate::math::lemma_muldiv_exact_factor(sf_z as int, 10, SCALE as int);
        }
        let ff_x: i128 = mul_div_i128(sf_x, FORCE_FACTOR as i128, SCALE as i128);
        let ff_y: i128 = mul_div_i128(sf_y, FORCE_FACTOR as i128, SCALE as i128);
        let ff_z: i128 = mul_div_i128(sf_z, FORCE_FACTOR as i128, SCALE as i128);
        proof {
            lemma_abs_mul_le(ff_x as int, dt as int, 50 * (100000int * pair_limit()), DT_LIMIT as int);
            lemma_abs_mul_le(ff_y as int, dt as int, 50 * (100000int * pair_limit()), DT_LIMIT as int);
            lemma_abs_mul_le(ff_z as int, dt as int, 50 * (100000int * pair_limit()), DT_LIMIT as int);
        }
        let dv_x: i128 = mul_div_i128(ff_x, dt as i128, SCALE as i128);
        let dv_y: i128 = mul_div_i128(ff_y, dt as i128, SCALE as i128);
        let dv_z: i128 = mul_div_i128(ff_z, dt as i128, SCALE as i128);
        proof {
            lemma_div_nonincreasing(abs_i(ff_x as int) * abs_i(dt as int), SCALE as int);
            lemma_div_nonincreasing(abs_i(ff_y as int) * abs_i(dt as int), SCALE as int);
            lemma_div_nonincreasing(abs_i(ff_z as int) * abs_i(dt as int), SCALE as int);
        }
        let p_old: Particle = particles[i];
        proof {
            assert(particle_in_bounds(snap[i as int]));
            lemma_abs_mul_le(
                p_old.velocity.x as int,
                decay as int,
                COORD_LIMIT as int,
                SCALE as int,
            );
            lemma_abs_mul_le(
                p_old.velocity.y as int,
                decay as int,
                COORD_LIMIT as int,
                SCALE as int,
            );
            lemma_abs_mul_le(
                p_old.velocity.z as int,
                decay as int,
                COORD_LIMIT as int,
                SCALE as int,
            );
            lemma_muldiv_magnitude(p_old.velocity.x as int, decay as int, SCALE as int);
            lemma_muldiv_magnitude(p_old.velocity.y as int, decay as int, SCALE as int);
            lemma_muldiv_magnitude(p_old.velocity.z as int, decay as int, SCALE as int);
        }
        let vd_x: i128 = mul_div_i128(p_old.velocity.x as i128, decay as i128, SCALE as i128);
        let vd_y: i128 = mul_div_i128(p_old.velocity.y as i128, decay as i128, SCALE as i128);
        let vd_z: i128 = mul_div_i128(p_old.velocity.z as i128, decay as i128, SCALE as i128);
        let nv = Vec3 {
            x: clamp_to(vd_x + dv_x, COORD_LIMIT),
            y: clamp_to(vd_y + dv_y, COORD_LIMIT),
            z: clamp_to(vd_z + dv_z, COORD_LIMIT),
        };
        let upd = Particle { ptype: p_old.ptype, position: p_old.position, velocity: nv };
        particles.set(i, upd);
        proof {
            assert(v3(nv) == spec_step_velocity(snap, *matrix, dt as int, i as int));
        }
        i = i + 1;
    }

    let mut i: usize = 0;
    while i < n
        invariant
            i <= n,
            n == particles@.len() == snap.len(),
            matrix.wf(),
            0 <= dt <= DT_LIMIT,
            particles_wf(snap),
            spec_types_ok(snap, *matrix),
            forall|k: int| 0 <= k < n ==> (#[trigger] particles@[k]).ptype == snap[k].ptype,
            forall|k: int|
                0 <= k < n ==> v3((#[trigger] particles@[k]).velocity) == spec_step_velocity(
                    snap,
                    *matrix,
                    dt as int,
                    k,
                ),
            forall|k: int|
                0 <= k < i ==> v3((#[trigger] particles@[k]).position) == spec_step_position(
                    snap,
                    *matrix,
                    dt as int,
                    k,
                ),
            forall|k: int| i <= k < n ==> (#[trigger] particles@[k]).position == snap[k].position,
        decreases n - i,
    {
        let p: Particle = particles[i];
        proof {
            assert(v3(p.velocity) == spec_step_velocity(snap, *matrix, dt as int, i as int));
            assert(abs_i(p.velocity.x as int) <= COORD_LIMIT as int);
            assert(abs_i(p.velocity.y as int) <= COORD_LIMIT as int);
            assert(abs_i(p.velocity.z as int) <= COORD_LIMIT as int);
            lemma_abs_mul_le(p.velocity.x as int, dt as int, COORD_LIMIT as int, DT_LIMIT as int);
            lemma_abs_mul_le(p.velocity.y as int, dt as int, COORD_LIMIT as int, DT_LIMIT as int);
            lemma_abs_mul_le(p.velocity.z as int, dt as int, COORD_LIMIT as int, DT_LIMIT as int);
        }
        let dp_x: i128 = mul_div_i128(p.velocity.x as i128, dt as i128, SCALE as i128);
        let dp_y: i128 = mul_div_i128(p.velocity.y as i128, dt as i128, SCALE as i128);
        let dp_z: i128 = mul_div_i128(p.velocity.z as i128, dt as i128, SCALE as i128);
        proof {
            lemma_div_nonincreasing(abs_i(p.velocity.x as int) * abs_i(dt as int), SCALE as int);
            lemma_div_nonincreasing(abs_i(p.velocity.y as int) * abs_i(dt as int), SCALE as int);
            lemma_div_nonincreasing(abs_i(p.velocity.z as int) * abs_i(dt as int), SCALE as int);
            assert(particle_in_bounds(snap[i as int]));
        }
        let np = Vec3 {
            x: clamp_to(p.position.x as i128 + dp_x, COORD_LIMIT),
            y: clamp_to(p.position.y as i128 + dp_y, COORD_LIMIT),
            z: clamp_to(p.position.z as i128 + dp_z, COORD_LIMIT),
        };
        let upd = Particle { ptype: p.ptype, position: np, velocity: p.velocity };
        particles.set(i, upd);
        proof {
            assert(v3(np) == spec_step_position(snap, *matrix, dt as int, i as int));
        }
        i = i + 1;
    }
    proof {
        assert forall|k: int| 0 <= k < snap.len() implies particle_in_bounds(
            #[trigger] particles@[k],
        ) by {
            assert(v3(particles@[k].velocity) == spec_step_velocity(snap, *matrix, dt as int, k));
            assert(v3(particles@[k].position) == spec_step_position(snap, *matrix, dt as int, k));
        }
    }
    Ok(())
}

} // verus!
