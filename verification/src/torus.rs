//! The torus and its rotation state.
//!
//! The orientation is held as a cached fixed-point (cosine, sine) pair per
//! rotation angle. Advancing an angle uses a first-order rotation recurrence
//! followed by one Newton renormalization step toward unit norm, so no
//! trigonometric function is ever evaluated at run time. A final saturation
//! into `[-FIX_BOUND, FIX_BOUND]` keeps every update total; a pair near unit
//! norm never reaches the saturation bound.

use crate::config::Config;
use crate::fixed::{
    clamp_fix, clamp_fix_exec, fmul, lemma_fmul_zero, lemma_tdiv_mul_cancel, mul_fix, tdiv,
    div_fix, FIX_BOUND, FIX_ONE, TAU_FIX,
};
use vstd::prelude::*;

verus! {

/// A torus renderer: the current orientation (a cosine/sine pair per rotation
/// angle, fixed-point) together with its configuration.
#[derive(Clone, Copy)]
pub struct Donut {
    pub a_cos: i64,
    pub a_sin: i64,
    pub b_cos: i64,
    pub b_sin: i64,
    pub cfg: Config,
}

/// One advance of a cosine/sine pair by the angle `delta`: the first-order
/// rotation `(c - delta*s, s + delta*c)`, one Newton step toward unit norm
/// (scaling by `(3 - (c^2 + s^2)) / 2`), then saturation into the working
/// range.
pub open spec fn rot_step(c: int, s: int, delta: int) -> (int, int) {
    let c1 = c - fmul(delta, s);
    let s1 = s + fmul(delta, c);
    let q = fmul(c1, c1) + fmul(s1, s1);
    let norm = tdiv(3 * FIX_ONE - q, 2);
    (clamp_fix(fmul(c1, norm)), clamp_fix(fmul(s1, norm)))
}

/// The squared norm of a fixed-point cosine/sine pair, in fixed point.
pub open spec fn norm_sq(c: int, s: int) -> int {
    fmul(c, c) + fmul(s, s)
}

/// The orientation after one `rotate(da, db)` call.
pub open spec fn spec_rotate(d: Donut, da: int, db: int) -> Donut {
    let a = rot_step(d.a_cos as int, d.a_sin as int, da);
    let b = rot_step(d.b_cos as int, d.b_sin as int, db);
    Donut {
        a_cos: a.0 as i64,
        a_sin: a.1 as i64,
        b_cos: b.0 as i64,
        b_sin: b.1 as i64,
        cfg: d.cfg,
    }
}

/// The orientation after a whole sequence of `rotate` calls.
pub open spec fn rotate_seq(d: Donut, deltas: Seq<(i64, i64)>) -> Donut
    decreases deltas.len(),
{
    if deltas.len() == 0 {
        d
    } else {
        rotate_seq(spec_rotate(d, deltas[0].0 as int, deltas[0].1 as int), deltas.drop_first())
    }
}

/// Executable advance of one cosine/sine pair; exactly `rot_step`.
pub(crate) fn rot_step_exec(c: i64, s: i64, delta: i64) -> (r: (i64, i64))
    requires
        -FIX_BOUND <= c <= FIX_BOUND,
        -FIX_BOUND <= s <= FIX_BOUND,
        -TAU_FIX <= delta <= TAU_FIX,
    ensures
        (r.0 as int, r.1 as int) == rot_step(c as int, s as int, delta as int),
        -FIX_BOUND <= r.0 <= FIX_BOUND,
        -FIX_BOUND <= r.1 <= FIX_BOUND,
{
    proof {
        crate::fixed::lemma_fmul_bound(delta as int, s as int, TAU_FIX as int, FIX_BOUND as int);
        crate::fixed::lemma_fmul_bound(delta as int, c as int, TAU_FIX as int, FIX_BOUND as int);
    }
    let c1: i64 = c - mul_fix(delta, s);
    let s1: i64 = s + mul_fix(delta, c);
    proof {
        crate::fixed::lemma_fmul_bound(c1 as int, c1 as int, 0x2000000, 0x2000000);
        crate::fixed::lemma_fmul_bound(s1 as int, s1 as int, 0x2000000, 0x2000000);
    }
    let q: i64 = mul_fix(c1, c1) + mul_fix(s1, s1);
    let norm: i64 = div_fix(3 * FIX_ONE - q, 2);
    proof {
        crate::fixed::lemma_tdiv_le(
            3 * FIX_ONE - q as int,
            0x4000_0000_0000_0000,
            2,
        );
        crate::fixed::lemma_fmul_bound(c1 as int, norm as int, 0x2000000, 0x2000_0000_0000_0000);
        crate::fixed::lemma_fmul_bound(s1 as int, norm as int, 0x2000000, 0x2000_0000_0000_0000);
    }
    let rc: i64 = clamp_fix_exec(mul_fix(c1, norm));
    let rs: i64 = clamp_fix_exec(mul_fix(s1, norm));
    (rc, rs)
}

impl Donut {
    /// Well-formedness: the configuration is valid and every orientation
    /// component lies in the saturation range.
    pub open spec fn wf(self) -> bool {
        &&& self.cfg.wf()
        &&& -FIX_BOUND <= self.a_cos <= FIX_BOUND
        &&& -FIX_BOUND <= self.a_sin <= FIX_BOUND
        &&& -FIX_BOUND <= self.b_cos <= FIX_BOUND
        &&& -FIX_BOUND <= self.b_sin <= FIX_BOUND
    }

    /// A donut at the identity orientation (both angles zero: cosine one,
    /// sine zero) with the default configuration.
    pub fn new() -> (d: Donut)
        ensures
            d.wf(),
            d.a_cos == FIX_ONE,
            d.a_sin == 0,
            d.b_cos == FIX_ONE,
            d.b_sin == 0,
            d.cfg.wf(),
            d.cfg.width == 80,
            d.cfg.height == 22,
            d.cfg.viewer_distance == 5,
            d.cfg.brightness_factor == 8,
            d.cfg.j_step == 73400,
            d.cfg.i_step == 20971,
            d.cfg.ramp@ == crate::config::default_ramp(),
    {
        Donut {
            a_cos: FIX_ONE,
            a_sin: 0,
            b_cos: FIX_ONE,
            b_sin: 0,
            cfg: Config::default_config(),
        }
    }

    /// A donut at the identity orientation with the given configuration.
    pub fn with_config(cfg: Config) -> (d: Donut)
        requires
            cfg.wf(),
        ensures
            d.wf(),
            d.a_cos == FIX_ONE,
            d.a_sin == 0,
            d.b_cos == FIX_ONE,
            d.b_sin == 0,
            d.cfg == cfg,
    {
        Donut { a_cos: FIX_ONE, a_sin: 0, b_cos: FIX_ONE, b_sin: 0, cfg }
    }

    /// Advance the two rotation angles by `da` and `db` (fixed-point radians,
    /// at most one full turn in magnitude), by the incremental recurrence with
    /// renormalization. Deterministic: the new state is a function of the old
    /// state and the deltas alone.
    pub fn rotate(&mut self, da: i64, db: i64)
        requires
            old(self).wf(),
            -TAU_FIX <= da <= TAU_FIX,
            -TAU_FIX <= db <= TAU_FIX,
        ensures
            *final(self) == spec_rotate(*old(self), da as int, db as int),
            final(self).wf(),
    {
        let a = rot_step_exec(self.a_cos, self.a_sin, da);
        let b = rot_step_exec(self.b_cos, self.b_sin, db);
        self.a_cos = a.0;
        self.a_sin = a.1;
        self.b_cos = b.0;
        self.b_sin = b.1;
    }
}

impl Default for Donut {
    /// Same as `Donut::new`.
    fn default() -> (d: Donut)
        ensures
            d.wf(),
            d.a_cos == FIX_ONE,
            d.a_sin == 0,
            d.b_cos == FIX_ONE,
            d.b_sin == 0,
    {
        Donut::new()
    }
}

/// Law: rotating by zero at an exactly unit-norm orientation is the identity,
/// bit for bit. (An orientation whose fixed-point squared norm is off by even
/// one unit is renormalized instead, so the hypothesis is needed.)
pub proof fn lemma_rotate_zero_identity(d: Donut)
    requires
        d.wf(),
        norm_sq(d.a_cos as int, d.a_sin as int) == FIX_ONE,
        norm_sq(d.b_cos as int, d.b_sin as int) == FIX_ONE,
    ensures
        spec_rotate(d, 0, 0) == d,
{
    lemma_rot_step_zero(d.a_cos as int, d.a_sin as int);
    lemma_rot_step_zero(d.b_cos as int, d.b_sin as int);
}

/// One axis of `lemma_rotate_zero_identity`.
proof fn lemma_rot_step_zero(c: int, s: int)
    requires
        -FIX_BOUND <= c <= FIX_BOUND,
        -FIX_BOUND <= s <= FIX_BOUND,
        norm_sq(c, s) == FIX_ONE,
    ensures
        rot_step(c, s, 0) == (c, s),
{
    lemma_fmul_zero(s);
    lemma_fmul_zero(c);
    assert(tdiv(3 * FIX_ONE - FIX_ONE, 2) == FIX_ONE);
    lemma_tdiv_mul_cancel(c, FIX_ONE as int);
    lemma_tdiv_mul_cancel(s, FIX_ONE as int);
    assert(fmul(c, FIX_ONE as int) == c);
    assert(fmul(s, FIX_ONE as int) == s);
}

} // verus!
