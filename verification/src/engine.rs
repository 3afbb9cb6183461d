//! The interaction engine.
//!
//! One sub-step updates every particle of an active group against a
//! frozen snapshot of an influence group: a distance-banded force law
//! accumulates into per-particle force sums, velocity is re-derived after
//! every contributing neighbour (the damping factor compounds once per
//! neighbour inside the cutoff — deliberate, visually load-bearing
//! behaviour), and the position is integrated and wrapped onto the torus.
//! The spec functions below pin each result exactly, so a sub-step is a
//! pure function of its inputs.

use vstd::prelude::*;
use vstd::pervasive::VecAdditionalExecFns;
use crate::config::SimConfig;
use crate::fixed::{
    abs, clip, dist_raw, fp_add, fp_div, fp_mul, fp_sub, lemma_tdiv_bound, lemma_tdiv_exact,
    lemma_tdiv_multiple, lemma_wrap_invariant, tdiv, wrap_raw, Fp, SCALE,
};
use crate::matrix::ForceMatrix;
use crate::particle::Particle;

verus! {

/// The signed force magnitude one influence particle contributes, given
/// that it lies inside the cutoff: hard repulsion `-gravity` at or below
/// `min_distance`, else the mass-scaled, inverse-distance law.
pub open spec fn force_raw(gravity: int, m1: int, m2: int, dist: int, min_distance: int) -> int {
    if dist <= min_distance {
        clip(-gravity)
    } else {
        fp_div(fp_mul(gravity, fp_mul(m1, m2)), dist)
    }
}

/// One influence particle folded into the running state
/// `(fx, fy, xv, yv)` of an active particle at `(p1x, p1y)` with mass
/// `m1`.  At or beyond the cutoff the state is untouched; otherwise the
/// force sums grow and the velocity is re-derived from them at once.
pub open spec fn interact(
    p1x: int,
    p1y: int,
    m1: int,
    st: (int, int, int, int),
    p2: Particle,
    gravity: int,
    cfg: SimConfig,
) -> (int, int, int, int) {
    let dx = fp_sub(p1x, p2.x@);
    let dy = fp_sub(p1y, p2.y@);
    let d = dist_raw(dx, dy);
    if d >= cfg.force_distance@ {
        st
    } else {
        let f = force_raw(gravity, m1, p2.mass@, d, cfg.min_distance@);
        let fx = fp_add(st.0, fp_mul(fp_sub(f, fp_mul(st.2, cfg.friction@)), dx));
        let fy = fp_add(st.1, fp_mul(fp_sub(f, fp_mul(st.3, cfg.friction@)), dy));
        let xv = fp_mul(fp_add(st.2, fx), cfg.velocity_factor@);
        let yv = fp_mul(fp_add(st.3, fy), cfg.velocity_factor@);
        (fx, fy, xv, yv)
    }
}

/// The running state after the first `n` influence particles.
pub open spec fn run_influences(
    p1x: int,
    p1y: int,
    m1: int,
    influence: Seq<Particle>,
    n: int,
    st: (int, int, int, int),
    gravity: int,
    cfg: SimConfig,
) -> (int, int, int, int)
    decreases n,
{
    if n <= 0 {
        st
    } else {
        interact(
            p1x,
            p1y,
            m1,
            run_influences(p1x, p1y, m1, influence, n - 1, st, gravity, cfg),
            influence[n - 1],
            gravity,
            cfg,
        )
    }
}

/// One whole sub-step for one active particle: fold the influence
/// snapshot into the accumulators (starting from zero force and the
/// particle's own velocity), then integrate the position and wrap it
/// onto the torus.  Mass and species never change.
pub open spec fn update_one(
    p: Particle,
    influence: Seq<Particle>,
    gravity: int,
    cfg: SimConfig,
) -> Particle {
    let st = run_influences(
        p.x@,
        p.y@,
        p.mass@,
        influence,
        influence.len() as int,
        (0int, 0int, p.xv@, p.yv@),
        gravity,
        cfg,
    );
    Particle {
        x: Fp { raw: wrap_raw(fp_add(p.x@, st.2), cfg.width@) as i64 },
        y: Fp { raw: wrap_raw(fp_add(p.y@, st.3), cfg.height@) as i64 },
        xv: Fp { raw: st.2 as i64 },
        yv: Fp { raw: st.3 as i64 },
        mass: p.mass,
        colour: p.colour,
    }
}

/// The snapshot a sub-step reads: the influence group where one is
/// given, else the active group's own state at the start of the
/// sub-step.
pub open spec fn influence_seq(active: Seq<Particle>, influence: Option<&Vec<Particle>>) -> Seq<
    Particle,
> {
    match influence {
        Some(v) => v@,
        None => active,
    }
}

/// An exact copy of a particle group.
fn copy_particles(v: &Vec<Particle>) -> (r: Vec<Particle>)
    ensures
        r@ == v@,
{
    let mut r: Vec<Particle> = Vec::new();
    let mut i: usize = 0;
    while i < v.len()
        invariant
            i <= v@.len(),
            r@ == v@.subrange(0, i as int),
        decreases v@.len() - i,
    {
        r.push(v[i]);
        proof {
            assert(r@ =~= v@.subrange(0, i + 1));
        }
        i = i + 1;
    }
    proof {
        assert(r@ =~= v@);
    }
    r
}

/// One interaction sub-step: update every particle of the active group
/// against the influence group (`None` means the group's own state,
/// frozen at entry), with the matrix coefficient `gravity` for this
/// ordered species pair.  Every new particle is exactly `update_one` of
/// the old one — the sub-step is deterministic.
pub fn update_particles(
    particles1: &mut Vec<Particle>,
    particles2: Option<&Vec<Particle>>,
    cfg: &SimConfig,
    gravity: Fp,
)
    requires
        cfg.wf(),
    ensures
        final(particles1)@.len() == old(particles1)@.len(),
        forall|i: int|
            0 <= i < old(particles1)@.len() ==> final(particles1)@[i] == update_one(
                old(particles1)@[i],
                influence_seq(old(particles1)@, particles2),
                gravity@,
                *cfg,
            ),
{
    let ghost orig = particles1@;
    let snap: Vec<Particle> = match particles2 {
        Some(v) => copy_particles(v),
        None => copy_particles(particles1),
    };
    let ghost inf = snap@;
    proof {
        assert(inf == influence_seq(orig, particles2));
    }
    let n = particles1.len();
    let mut i: usize = 0;
    while i < n
        invariant
            cfg.wf(),
            i <= n,
            n == orig.len(),
            particles1@.len() == orig.len(),
            snap@ == inf,
            forall|k: int|
                0 <= k < i ==> particles1@[k] == update_one(orig[k], inf, gravity@, *cfg),
            forall|k: int| i <= k < n ==> particles1@[k] == orig[k],
        decreases n - i,
    {
        let p = particles1[i];
        let ghost init = (0int, 0int, p.xv@, p.yv@);
        let mut fx = Fp::zero();
        let mut fy = Fp::zero();
        let mut xv = p.xv;
        let mut yv = p.yv;
        let m = snap.len();
        let mut j: usize = 0;
        while j < m
            invariant
                cfg.wf(),
                j <= m,
                m == inf.len(),
                snap@ == inf,
                init == (0int, 0int, p.xv@, p.yv@),
                (fx@, fy@, xv@, yv@) == run_influences(
                    p.x@,
                    p.y@,
                    p.mass@,
                    inf,
                    j as int,
                    init,
                    gravity@,
                    *cfg,
                ),
            decreases m - j,
        {
            let p2 = snap[j];
            let dx = p.x.sub(p2.x);
            let dy = p.y.sub(p2.y);
            let d = crate::fixed::dist(dx, dy);
            if d.raw < cfg.force_distance.raw {
                let f = if d.raw <= cfg.min_distance.raw {
                    gravity.neg()
                } else {
                    gravity.mul(p.mass.mul(p2.mass)).div(d)
                };
                fx = fx.add(f.sub(xv.mul(cfg.friction)).mul(dx));
                fy = fy.add(f.sub(yv.mul(cfg.friction)).mul(dy));
                xv = xv.add(fx).mul(cfg.velocity_factor);
                yv = yv.add(fy).mul(cfg.velocity_factor);
            }
            j = j + 1;
        }
        let nx = crate::fixed::wrap_coord(p.x.add(xv), cfg.width);
        let ny = crate::fixed::wrap_coord(p.y.add(yv), cfg.height);
        let newp = Particle { x: nx, y: ny, xv, yv, mass: p.mass, colour: p.colour };
        proof {
            assert(newp == update_one(orig[i as int], inf, gravity@, *cfg));
        }
        particles1.set(i, newp);
        i = i + 1;
    }
}

/// At or beyond the cutoff radius there is no interaction at all: such
/// an influence particle leaves force sums and velocity untouched.
pub proof fn lemma_cutoff_no_contribution(
    p1x: int,
    p1y: int,
    m1: int,
    st: (int, int, int, int),
    p2: Particle,
    gravity: int,
    cfg: SimConfig,
)
    requires
        dist_raw(fp_sub(p1x, p2.x@), fp_sub(p1y, p2.y@)) >= cfg.force_distance@,
    ensures
        interact(p1x, p1y, m1, st, p2, gravity, cfg) == st,
{
}

/// At or below `min_distance` the contributed force is exactly
/// `-gravity`, whatever the two masses are — hard short-range repulsion,
/// mass-independent, and finite even at distance zero.
pub proof fn lemma_short_range_repulsion(
    gravity: int,
    m1: int,
    m2: int,
    dist: int,
    min_distance: int,
)
    requires
        dist <= min_distance,
        i64::MIN < gravity <= i64::MAX,
    ensures
        force_raw(gravity, m1, m2, dist, min_distance) == -gravity,
{
}

/// Strictly above `min_distance` the contributed force is the exact
/// fixed-point image of `gravity * mass1 * mass2 / dist`: for whole-unit
/// masses `a1`, `a2`, when no step of the chain saturates and the final
/// division is exact, the force times the distance gives back
/// `gravity * a1 * a2` whole units.
pub proof fn lemma_mid_band_force(gravity: int, a1: int, a2: int, dist: int, min_distance: int)
    requires
        0 <= min_distance < dist,
        abs(a1 * a2) * (SCALE as int) <= i64::MAX,
        abs(gravity * a1 * a2) * (SCALE as int) <= i64::MAX,
        (gravity * a1 * a2 * (SCALE as int)) % dist == 0,
    ensures
        force_raw(gravity, a1 * (SCALE as int), a2 * (SCALE as int), dist, min_distance) * dist
            == gravity * a1 * a2 * (SCALE as int),
        force_raw(gravity, a1 * (SCALE as int), a2 * (SCALE as int), dist, min_distance)
            == (gravity * a1 * a2 * (SCALE as int)) / dist,
{
    let s = SCALE as int;
    assert((a1 * s) * (a2 * s) == (a1 * a2 * s) * s) by (nonlinear_arith);
    lemma_tdiv_multiple(a1 * a2 * s, s);
    assert(abs(a1 * a2 * s) == abs(a1 * a2) * s) by (nonlinear_arith)
        requires
            s > 0,
    ;
    assert(fp_mul(a1 * s, a2 * s) == a1 * a2 * s);
    assert(gravity * (a1 * a2 * s) == (gravity * a1 * a2) * s) by (nonlinear_arith);
    lemma_tdiv_multiple(gravity * a1 * a2, s);
    assert(abs(gravity * a1 * a2) <= abs(gravity * a1 * a2) * s) by (nonlinear_arith)
        requires
            s >= 1,
    ;
    assert(fp_mul(gravity, a1 * a2 * s) == gravity * a1 * a2);
    let x = gravity * a1 * a2 * s;
    assert((gravity * a1 * a2) * s == x);
    lemma_tdiv_exact(x, dist);
    lemma_tdiv_bound(x, dist);
    assert(abs(x) == abs(gravity * a1 * a2) * s) by (nonlinear_arith)
        requires
            s > 0,
            x == gravity * a1 * a2 * s,
    ;
    assert(fp_div(gravity * a1 * a2, dist) == tdiv(x, dist));
}

/// The mid-band force scales linearly with mass: doubling one mass
/// doubles the contributed force (symmetry of the product gives the same
/// for the other).
pub proof fn lemma_mid_band_mass_linear(gravity: int, a1: int, a2: int, dist: int, min_distance: int)
    requires
        0 <= min_distance < dist,
        abs(2 * a1 * a2) * (SCALE as int) <= i64::MAX,
        abs(gravity * 2 * a1 * a2) * (SCALE as int) <= i64::MAX,
        (gravity * a1 * a2 * (SCALE as int)) % dist == 0,
    ensures
        force_raw(
            gravity,
            (2 * a1) * (SCALE as int),
            a2 * (SCALE as int),
            dist,
            min_distance,
        ) == 2 * force_raw(gravity, a1 * (SCALE as int), a2 * (SCALE as int), dist, min_distance),
{
    let s = SCALE as int;
    let x = gravity * a1 * a2 * s;
    assert(abs(a1 * a2) * s <= abs(2 * a1 * a2) * s && abs(gravity * a1 * a2) * s <= abs(
        gravity * 2 * a1 * a2,
    ) * s) by (nonlinear_arith)
        requires
            s > 0,
    ;
    lemma_mid_band_force(gravity, a1, a2, dist, min_distance);
    vstd::arithmetic::div_mod::lemma_fundamental_div_mod(x, dist);
    let q = x / dist;
    assert(gravity * (2 * a1) * a2 * s == 2 * x) by (nonlinear_arith)
        requires
            x == gravity * a1 * a2 * s,
    ;
    assert(2 * x == (2 * q) * dist) by (nonlinear_arith)
        requires
            x == dist * q,
    ;
    vstd::arithmetic::div_mod::lemma_mod_multiples_basic(2 * q, dist);
    assert(abs((2 * a1) * a2) * s == abs(2 * a1 * a2) * s && abs(gravity * (2 * a1) * a2) * s
        == abs(gravity * 2 * a1 * a2) * s) by (nonlinear_arith);
    lemma_mid_band_force(gravity, 2 * a1, a2, dist, min_distance);
    let f1 = force_raw(gravity, a1 * s, a2 * s, dist, min_distance);
    let f2 = force_raw(gravity, (2 * a1) * s, a2 * s, dist, min_distance);
    assert(f2 == 2 * f1) by (nonlinear_arith)
        requires
            f1 * dist == x,
            f2 * dist == 2 * x,
            dist > 0,
    ;
}

/// Only the product of the two masses enters the law: the two orders
/// agree, so the linear-scaling law holds for either mass.
pub proof fn lemma_force_mass_symmetric(
    gravity: int,
    m1: int,
    m2: int,
    dist: int,
    min_distance: int,
)
    ensures
        force_raw(gravity, m1, m2, dist, min_distance) == force_raw(
            gravity,
            m2,
            m1,
            dist,
            min_distance,
        ),
{
    assert(m1 * m2 == m2 * m1) by (nonlinear_arith);
}

/// The mid-band force scales inversely with distance: at twice the
/// distance, half the force (masses held fixed).
pub proof fn lemma_mid_band_distance_inverse(
    gravity: int,
    a1: int,
    a2: int,
    dist: int,
    min_distance: int,
)
    requires
        0 <= min_distance < dist,
        abs(a1 * a2) * (SCALE as int) <= i64::MAX,
        abs(gravity * a1 * a2) * (SCALE as int) <= i64::MAX,
        (gravity * a1 * a2 * (SCALE as int)) % (2 * dist) == 0,
    ensures
        force_raw(gravity, a1 * (SCALE as int), a2 * (SCALE as int), dist, min_distance) == 2
            * force_raw(gravity, a1 * (SCALE as int), a2 * (SCALE as int), 2 * dist, min_distance),
{
    let s = SCALE as int;
    let x = gravity * a1 * a2 * s;
    vstd::arithmetic::div_mod::lemma_fundamental_div_mod(x, 2 * dist);
    let q = x / (2 * dist);
    assert(x == (2 * q) * dist) by (nonlinear_arith)
        requires
            x == (2 * dist) * q,
    ;
    vstd::arithmetic::div_mod::lemma_mod_multiples_basic(2 * q, dist);
    lemma_mid_band_force(gravity, a1, a2, dist, min_distance);
    lemma_mid_band_force(gravity, a1, a2, 2 * dist, min_distance);
    let f1 = force_raw(gravity, a1 * s, a2 * s, dist, min_distance);
    let f2 = force_raw(gravity, a1 * s, a2 * s, 2 * dist, min_distance);
    assert(f1 == 2 * f2) by (nonlinear_arith)
        requires
            f1 * dist == x,
            f2 * (2 * dist) == x,
            dist > 0,
    ;
}

/// `x` fits an `i64`.
pub open spec fn in_i64(x: int) -> bool {
    i64::MIN <= x <= i64::MAX
}

/// The running state never leaves the `i64` range: every component an
/// interaction writes is saturated.
pub proof fn lemma_run_in_range(
    p1x: int,
    p1y: int,
    m1: int,
    influence: Seq<Particle>,
    n: int,
    st: (int, int, int, int),
    gravity: int,
    cfg: SimConfig,
)
    requires
        in_i64(st.0),
        in_i64(st.1),
        in_i64(st.2),
        in_i64(st.3),
    ensures
        in_i64(run_influences(p1x, p1y, m1, influence, n, st, gravity, cfg).0),
        in_i64(run_influences(p1x, p1y, m1, influence, n, st, gravity, cfg).1),
        in_i64(run_influences(p1x, p1y, m1, influence, n, st, gravity, cfg).2),
        in_i64(run_influences(p1x, p1y, m1, influence, n, st, gravity, cfg).3),
    decreases n,
{
    if n > 0 {
        lemma_run_in_range(p1x, p1y, m1, influence, n - 1, st, gravity, cfg);
    }
}

/// Determinism: one interaction sub-step of one particle is a pure
/// function of the old particle, the influence snapshot, the coefficient
/// and the tunables — equal inputs give equal outputs, bit for bit.
pub proof fn lemma_update_deterministic(
    p1: Particle,
    p2: Particle,
    inf1: Seq<Particle>,
    inf2: Seq<Particle>,
    g1: int,
    g2: int,
    c1: SimConfig,
    c2: SimConfig,
)
    requires
        p1 == p2,
        inf1 == inf2,
        g1 == g2,
        c1 == c2,
    ensures
        update_one(p1, inf1, g1, c1) == update_one(p2, inf2, g2, c2),
{
}

/// After integration every particle is back on the plane: the wrapped
/// position lies in `[0, width) x [0, height)` whenever the sub-step's
/// resulting velocity is smaller in magnitude than one plane dimension.
pub proof fn lemma_position_wrapped(
    p: Particle,
    influence: Seq<Particle>,
    gravity: int,
    cfg: SimConfig,
)
    requires
        cfg.wf(),
        0 <= p.x@ < cfg.width@,
        0 <= p.y@ < cfg.height@,
        2 * cfg.width@ <= i64::MAX,
        2 * cfg.height@ <= i64::MAX,
        -cfg.width@ < update_one(p, influence, gravity, cfg).xv@ < cfg.width@,
        -cfg.height@ < update_one(p, influence, gravity, cfg).yv@ < cfg.height@,
    ensures
        0 <= update_one(p, influence, gravity, cfg).x@ < cfg.width@,
        0 <= update_one(p, influence, gravity, cfg).y@ < cfg.height@,
{
    let st = run_influences(
        p.x@,
        p.y@,
        p.mass@,
        influence,
        influence.len() as int,
        (0int, 0int, p.xv@, p.yv@),
        gravity,
        cfg,
    );
    lemma_run_in_range(
        p.x@,
        p.y@,
        p.mass@,
        influence,
        influence.len() as int,
        (0int, 0int, p.xv@, p.yv@),
        gravity,
        cfg,
    );
    assert(update_one(p, influence, gravity, cfg).xv@ == st.2);
    assert(update_one(p, influence, gravity, cfg).yv@ == st.3);
    lemma_wrap_invariant(p.x@, st.2, cfg.width@);
    lemma_wrap_invariant(p.y@, st.3, cfg.height@);
}

/// The particle sequences of a list of groups.
pub open spec fn views(gs: Seq<Vec<Particle>>) -> Seq<Seq<Particle>> {
    gs.map_values(|v: Vec<Particle>| v@)
}

/// The coefficient a sub-step of groups `i` against `j` uses: the matrix
/// entry for the species of the two groups (read off their first
/// particles).
pub open spec fn pair_gravity(gs: Seq<Seq<Particle>>, i: int, j: int, m: ForceMatrix) -> int {
    m.entry(gs[i][0].colour, gs[j][0].colour).unwrap()@
}

/// One sub-step at the whole-frame level: group `i` updated against the
/// frozen state of group `j` (which is group `i` itself when `i == j`).
pub open spec fn sub_step(
    gs: Seq<Seq<Particle>>,
    i: int,
    j: int,
    m: ForceMatrix,
    cfg: SimConfig,
) -> Seq<Seq<Particle>> {
    gs.update(
        i,
        Seq::new(gs[i].len(), |k: int| update_one(gs[i][k], gs[j], pair_gravity(gs, i, j, m), cfg)),
    )
}

/// The state after the first `j` sub-steps of row `i`: sub-steps run in
/// order, each reading the groups as the one before left them.
pub open spec fn run_row(
    gs: Seq<Seq<Particle>>,
    i: int,
    j: int,
    m: ForceMatrix,
    cfg: SimConfig,
) -> Seq<Seq<Particle>>
    decreases j,
{
    if j <= 0 {
        gs
    } else {
        sub_step(run_row(gs, i, j - 1, m, cfg), i, j - 1, m, cfg)
    }
}

/// The state after the first `i` whole rows of the frame.
pub open spec fn run_rows(
    gs: Seq<Seq<Particle>>,
    i: int,
    m: ForceMatrix,
    cfg: SimConfig,
) -> Seq<Seq<Particle>>
    decreases i,
{
    if i <= 0 {
        gs
    } else {
        run_row(run_rows(gs, i - 1, m, cfg), i - 1, gs.len() as int, m, cfg)
    }
}

/// A whole frame: every ordered pair of groups (self-pairs included), in
/// row order.
pub open spec fn frame(gs: Seq<Seq<Particle>>, m: ForceMatrix, cfg: SimConfig) -> Seq<
    Seq<Particle>,
> {
    run_rows(gs, gs.len() as int, m, cfg)
}

/// Drive one frame: for every ordered pair `(i, j)` of groups, update
/// group `i` against group `j` (against its own frozen state when
/// `i == j`), sequentially, so each sub-step sees the mutations of the
/// ones before it.  Every group must be non-empty and the matrix must
/// cover every ordered species pair present.
pub fn step_frame(groups: &mut Vec<Vec<Particle>>, matrix: &ForceMatrix, cfg: &SimConfig)
    requires
        cfg.wf(),
        matrix.wf(),
        forall|k: int| 0 <= k < old(groups)@.len() ==> (#[trigger] old(groups)@[k])@.len() > 0,
        forall|a: int, b: int|
            0 <= a < old(groups)@.len() && 0 <= b < old(groups)@.len() ==> (#[trigger] matrix.entry(
                old(groups)@[a]@[0].colour,
                old(groups)@[b]@[0].colour,
            )) is Some,
    ensures
        final(groups)@.len() == old(groups)@.len(),
        views(final(groups)@) == frame(views(old(groups)@), *matrix, *cfg),
{
    let n = groups.len();
    let ghost views0 = views(old(groups)@);
    proof {
        assert(views0.len() == n);
    }
    let mut i: usize = 0;
    while i < n
        invariant
            cfg.wf(),
            matrix.wf(),
            i <= n,
            groups@.len() == n,
            views0.len() == n,
            views(groups@) == run_rows(views0, i as int, *matrix, *cfg),
            forall|k: int| 0 <= k < n ==> views0[k].len() > 0,
            forall|k: int| 0 <= k < n ==> (#[trigger] groups@[k])@.len() == views0[k].len(),
            forall|k: int| 0 <= k < n ==> (#[trigger] groups@[k])@[0].colour == views0[k][0].colour,
            forall|a: int, b: int|
                0 <= a < n && 0 <= b < n ==> (#[trigger] matrix.entry(
                    views0[a][0].colour,
                    views0[b][0].colour,
                )) is Some,
        decreases n - i,
    {
        let mut j: usize = 0;
        while j < n
            invariant
                cfg.wf(),
                matrix.wf(),
                i < n,
                j <= n,
                groups@.len() == n,
                views0.len() == n,
                views(groups@) == run_row(
                    run_rows(views0, i as int, *matrix, *cfg),
                    i as int,
                    j as int,
                    *matrix,
                    *cfg,
                ),
                forall|k: int| 0 <= k < n ==> views0[k].len() > 0,
                forall|k: int| 0 <= k < n ==> (#[trigger] groups@[k])@.len() == views0[k].len(),
                forall|k: int|
                    0 <= k < n ==> (#[trigger] groups@[k])@[0].colour == views0[k][0].colour,
                forall|a: int, b: int|
                    0 <= a < n && 0 <= b < n ==> (#[trigger] matrix.entry(
                        views0[a][0].colour,
                        views0[b][0].colour,
                    )) is Some,
            decreases n - j,
        {
            let ghost prev = views(groups@);
            let ci = groups[i][0].colour;
            let cj = groups[j][0].colour;
            let gravity = match matrix.get(ci, cj) {
                Some(g) => g,
                None => vstd::pervasive::unreached(),
            };
            let mut gi = copy_particles(&groups[i]);
            let ghost gi0 = gi@;
            if i == j {
                update_particles(&mut gi, None, cfg, gravity);
            } else {
                update_particles(&mut gi, Some(&groups[j]), cfg, gravity);
            }
            groups.set(i, gi);
            proof {
                assert(prev[i as int] == gi0);
                assert forall|k: int| 0 <= k < n implies views(groups@)[k] == sub_step(
                    prev,
                    i as int,
                    j as int,
                    *matrix,
                    *cfg,
                )[k] by {
                    if k == i as int {
                        assert forall|t: int| 0 <= t < gi0.len() implies gi@[t] == update_one(
                            prev[i as int][t],
                            prev[j as int],
                            pair_gravity(prev, i as int, j as int, *matrix),
                            *cfg,
                        ) by {
                        }
                        assert(views(groups@)[k] =~= sub_step(
                            prev,
                            i as int,
                            j as int,
                            *matrix,
                            *cfg,
                        )[k]);
                    }
                }
                assert(views(groups@) =~= sub_step(prev, i as int, j as int, *matrix, *cfg));
            }
            j = j + 1;
        }
        i = i + 1;
    }
}

} // verus!
