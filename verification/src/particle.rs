//! Particles and population seeding.
//!
//! A particle is a single simulated body.  Seeding draws its position
//! uniformly from a central band of the plane (so clusters start visually
//! separated), gives it zero velocity, and assigns mass by the configured
//! policy.  A group is an ordered `Vec` of particles of one species.

use vstd::prelude::*;
use crate::config::SimConfig;
use crate::fixed::{Fp, SCALE};
use crate::rng::{random_i64, sample_weighted3};
use crate::species::Colour;

verus! {

/// A simulated body: fixed-point position and velocity, mass, species.
#[derive(Clone, Copy, PartialEq, Eq, Structural, Debug)]
pub struct Particle {
    pub x: Fp,
    pub y: Fp,
    pub xv: Fp,
    pub yv: Fp,
    pub mass: Fp,
    pub colour: Colour,
}

/// How a new particle's mass is assigned.
#[derive(Clone, Copy, PartialEq, Eq, Structural, Debug)]
pub enum MassPolicy {
    /// Every particle gets exactly this mass.
    Fixed(Fp),
    /// Mass 1, 2 or 3 whole units, drawn with weights 97, 2 and 1.
    Weighted,
}

/// Left edge of the seeding band on an axis of length `d`: two fifths of
/// the way in.
pub open spec fn region_lo(d: int) -> int {
    2 * d / 5
}

/// Width of the seeding band: a third of the axis.
pub open spec fn region_span(d: int) -> int {
    d / 3
}

/// What seeding promises of one fresh particle.
pub open spec fn seeded(p: Particle, cfg: SimConfig, colour: Colour, policy: MassPolicy) -> bool {
    &&& p.colour == colour
    &&& p.xv@ == 0
    &&& p.yv@ == 0
    &&& region_lo(cfg.width@) <= p.x@ < region_lo(cfg.width@) + region_span(cfg.width@)
    &&& region_lo(cfg.height@) <= p.y@ < region_lo(cfg.height@) + region_span(cfg.height@)
    &&& match policy {
        MassPolicy::Fixed(m) => p.mass == m,
        MassPolicy::Weighted => p.mass@ == SCALE || p.mass@ == 2 * (SCALE as int) || p.mass@ == 3
            * (SCALE as int),
    }
}

/// The seeding band is a strict, non-degenerate sub-range of `[0, d)`.
proof fn lemma_region_inside(d: int)
    requires
        d >= 3,
    ensures
        0 <= region_lo(d),
        region_span(d) >= 1,
        region_lo(d) + region_span(d) < d,
{
    vstd::arithmetic::div_mod::lemma_fundamental_div_mod(2 * d, 5);
    vstd::arithmetic::div_mod::lemma_mod_division_less_than_divisor(2 * d, 5);
    vstd::arithmetic::div_mod::lemma_fundamental_div_mod(d, 3);
    vstd::arithmetic::div_mod::lemma_mod_division_less_than_divisor(d, 3);
    vstd::arithmetic::div_mod::lemma_div_pos_is_pos(2 * d, 5);
}

/// One coordinate of a fresh particle: uniform over the central band of
/// an axis of length `d`.
fn seed_coord(d: Fp) -> (c: Fp)
    requires
        d@ >= 3,
    ensures
        region_lo(d@) <= c@ < region_lo(d@) + region_span(d@),
        0 <= c@ < d@,
{
    proof {
        lemma_region_inside(d@);
        vstd::arithmetic::div_mod::lemma_fundamental_div_mod(2 * d@, 5);
        vstd::arithmetic::div_mod::lemma_mod_division_less_than_divisor(2 * d@, 5);
        vstd::arithmetic::div_mod::lemma_fundamental_div_mod(d@, 3);
        vstd::arithmetic::div_mod::lemma_mod_division_less_than_divisor(d@, 3);
    }
    let lo128: i128 = crate::fixed::tdiv_i128(2 * (d.raw as i128), 5);
    let span128: i128 = crate::fixed::tdiv_i128(d.raw as i128, 3);
    let lo: i64 = lo128 as i64;
    let span: i64 = span128 as i64;
    let r = random_i64(0, span);
    Fp { raw: lo + r }
}

impl Particle {
    /// Seed one particle: a position uniform over the central band of
    /// each axis, zero velocity, and mass by the policy.
    pub fn new(cfg: &SimConfig, colour: Colour, policy: MassPolicy) -> (p: Particle)
        requires
            cfg.wf(),
            cfg.width@ >= 3,
            cfg.height@ >= 3,
        ensures
            seeded(p, *cfg, colour, policy),
            0 <= p.x@ < cfg.width@,
            0 <= p.y@ < cfg.height@,
    {
        let x = seed_coord(cfg.width);
        let y = seed_coord(cfg.height);
        let mass = match policy {
            MassPolicy::Fixed(m) => m,
            MassPolicy::Weighted => {
                let idx = sample_weighted3(97, 2, 1);
                Fp::from_int((idx as i64) + 1)
            },
        };
        Particle { x, y, xv: Fp::zero(), yv: Fp::zero(), mass, colour }
    }
}

/// Seed a whole group: `count` particles of one species.
pub fn seed_group(count: usize, cfg: &SimConfig, colour: Colour, policy: MassPolicy) -> (g: Vec<
    Particle,
>)
    requires
        cfg.wf(),
        cfg.width@ >= 3,
        cfg.height@ >= 3,
    ensures
        g@.len() == count,
        forall|k: int| 0 <= k < count ==> seeded(#[trigger] g@[k], *cfg, colour, policy),
{
    let mut g: Vec<Particle> = Vec::new();
    let mut i: usize = 0;
    while i < count
        invariant
            g@.len() == i,
            i <= count,
            cfg.wf(),
            cfg.width@ >= 3,
            cfg.height@ >= 3,
            forall|k: int| 0 <= k < i ==> seeded(#[trigger] g@[k], *cfg, colour, policy),
        decreases count - i,
    {
        let p = Particle::new(cfg, colour, policy);
        g.push(p);
        i = i + 1;
    }
    g
}

} // verus!
