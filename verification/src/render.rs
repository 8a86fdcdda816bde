//! The rasterizer.
//!
//! One frame sweeps the torus surface with two nested fixed-point angle
//! recurrences (tube angle `j`, ring angle `i`), rotates each surface point by
//! the current orientation, projects it onto the grid, depth-tests it against
//! the cell it lands in, and shades a winning sample by the brightness ramp.
//!
//! The whole frame is specified exactly: `spec_render` folds the samples in
//! sweep order over the cleared buffers, and `render_frame_in_place` ensures
//! its outputs equal that fold, cell for cell.

use crate::config::{lemma_config_bounds, Config};
use crate::fixed::{
    fmul, lemma_fmul_bound, div_fix, mul_fix, tdiv, DIV_MAX, FIX_BOUND, FIX_ONE,
};
use crate::torus::{rot_step, rot_step_exec, Donut};
use vstd::arithmetic::div_mod::{
    lemma_div_by_self, lemma_div_is_ordered, lemma_div_is_ordered_by_denominator,
    lemma_div_multiples_vanish, lemma_fundamental_div_mod_converse_div,
    lemma_fundamental_div_mod_converse_mod,
};
use vstd::prelude::*;

verus! {

/// The sweep state after `n` steps of size `step`: the cosine/sine recurrence
/// iterated from the zero angle `(1, 0)`.
pub open spec fn sweep_state(step: int, n: nat) -> (int, int)
    decreases n,
{
    if n == 0 {
        (FIX_ONE as int, 0int)
    } else {
        let p = sweep_state(step, (n - 1) as nat);
        rot_step(p.0, p.1, step)
    }
}

/// Every sweep state stays inside the saturation range.
pub proof fn lemma_sweep_bounded(step: int, n: nat)
    ensures
        -FIX_BOUND <= sweep_state(step, n).0 <= FIX_BOUND,
        -FIX_BOUND <= sweep_state(step, n).1 <= FIX_BOUND,
    decreases n,
{
    if n > 0 {
        lemma_sweep_bounded(step, (n - 1) as nat);
    }
}

/// A luminance index clamped into the ramp range `[0, 12]`.
pub open spec fn clamp_idx(n: int) -> int {
    if n < 0 {
        0int
    } else if n > 12 {
        12int
    } else {
        n
    }
}

/// One surface sample, as a function of the configuration, the orientation
/// (`sa`, `ca`, `sb`, `cb`), the tube sweep state (`jc`, `js`) and the ring
/// sweep state (`icos`, `isin`), all fixed-point.
///
/// `Some((cell, depth, ramp index))` when the projected point lands on the
/// grid with the projection denominator at least one (reciprocal depth at most
/// one; the torus never comes nearer, so this guard changes no visible
/// sample); `None` when the sample is off screen.
pub open spec fn sample(
    cfg: Config,
    sa: int,
    ca: int,
    sb: int,
    cb: int,
    jc: int,
    js: int,
    icos: int,
    isin: int,
) -> Option<(int, int, int)> {
    let h = jc + 2 * FIX_ONE;
    let u = fmul(isin, h);
    let t = fmul(u, ca) - fmul(js, sa);
    let denom = fmul(u, sa) + fmul(js, ca) + cfg.viewer_distance * FIX_ONE;
    if denom < FIX_ONE {
        None
    } else {
        let d = tdiv(FIX_ONE * FIX_ONE, denom);
        let v = fmul(icos, h);
        let xf = cfg.x_center + fmul(fmul(cfg.x_scale as int, d), fmul(v, cb) - fmul(t, sb));
        let yf = cfg.y_center + fmul(fmul(cfg.y_scale as int, d), fmul(v, sb) + fmul(t, cb));
        let col = tdiv(xf, FIX_ONE as int);
        let row = tdiv(yf, FIX_ONE as int);
        if 0 <= col < cfg.width && 0 <= row < cfg.height {
            let w = fmul(isin, jc);
            let lum = fmul(fmul(js, sa) - fmul(w, ca), cb) - fmul(w, sa) - fmul(js, ca) - fmul(
                fmul(icos, jc),
                sb,
            );
            let n = tdiv(cfg.brightness_factor * lum, FIX_ONE as int);
            Some((row * cfg.width + col, d, clamp_idx(n)))
        } else {
            None
        }
    }
}

/// The sample with flat index `k` in the sweep order: the outer tube sweep has
/// advanced `k / num_i` steps, the inner ring sweep `k % num_i` steps.
pub open spec fn sample_at(d: Donut, k: int) -> Option<(int, int, int)> {
    let jst = sweep_state(d.cfg.j_step as int, (k / (d.cfg.num_i as int)) as nat);
    let ist = sweep_state(d.cfg.i_step as int, (k % (d.cfg.num_i as int)) as nat);
    sample(
        d.cfg,
        d.a_sin as int,
        d.a_cos as int,
        d.b_sin as int,
        d.b_cos as int,
        jst.0,
        jst.1,
        ist.0,
        ist.1,
    )
}

/// Depth test and write: a sample strictly nearer than the stored depth
/// overwrites both the glyph and the depth of its cell; anything else (a miss
/// or an occluded sample) changes nothing. Ties keep the earlier sample.
pub open spec fn apply_sample(
    glyphs: Seq<char>,
    depths: Seq<int>,
    cfg: Config,
    s: Option<(int, int, int)>,
) -> (Seq<char>, Seq<int>) {
    match s {
        None => (glyphs, depths),
        Some((cell, depth, ridx)) => {
            if depths[cell] < depth {
                (glyphs.update(cell, cfg.ramp@[ridx]), depths.update(cell, depth))
            } else {
                (glyphs, depths)
            }
        },
    }
}

/// The frame after the first `k` samples: both buffers cleared (background
/// glyph, depth zero), then samples `0 .. k` folded in sweep order.
pub open spec fn render_upto(d: Donut, k: nat) -> (Seq<char>, Seq<int>)
    decreases k,
{
    if k == 0 {
        (
            Seq::new((d.cfg.width * d.cfg.height) as nat, |m: int| d.cfg.ramp@[0]),
            Seq::new((d.cfg.width * d.cfg.height) as nat, |m: int| 0int),
        )
    } else {
        let prev = render_upto(d, (k - 1) as nat);
        apply_sample(prev.0, prev.1, d.cfg, sample_at(d, k - 1))
    }
}

/// The whole frame: every sample of the two full sweeps folded over cleared
/// buffers.
pub open spec fn spec_render(d: Donut) -> (Seq<char>, Seq<int>) {
    render_upto(d, (d.cfg.num_j * d.cfg.num_i) as nat)
}

/// `lemma_sample_props`, lifted to the sample with flat index `k`.
pub proof fn lemma_sample_at_props(d: Donut, k: int)
    requires
        d.wf(),
    ensures
        sample_at(d, k) matches Some(s) ==> {
            &&& 0 <= s.0 < d.cfg.width * d.cfg.height
            &&& 1 <= s.1 <= FIX_ONE
            &&& 0 <= s.2 <= 12
        },
{
    let jst = sweep_state(d.cfg.j_step as int, (k / (d.cfg.num_i as int)) as nat);
    let ist = sweep_state(d.cfg.i_step as int, (k % (d.cfg.num_i as int)) as nat);
    lemma_sweep_bounded(d.cfg.j_step as int, (k / (d.cfg.num_i as int)) as nat);
    lemma_sweep_bounded(d.cfg.i_step as int, (k % (d.cfg.num_i as int)) as nat);
    lemma_sample_props(
        d.cfg,
        d.a_sin as int,
        d.a_cos as int,
        d.b_sin as int,
        d.b_cos as int,
        jst.0,
        jst.1,
        ist.0,
        ist.1,
    );
}

/// Both partial-frame buffers always have one slot per grid cell.
pub proof fn lemma_render_upto_len(d: Donut, k: nat)
    requires
        d.wf(),
    ensures
        render_upto(d, k).0.len() == d.cfg.width * d.cfg.height,
        render_upto(d, k).1.len() == d.cfg.width * d.cfg.height,
    decreases k,
{
    if k > 0 {
        lemma_render_upto_len(d, (k - 1) as nat);
        lemma_sample_at_props(d, k - 1);
    }
}

/// An on-screen sample has its cell on the grid, a reciprocal depth in
/// `(0, FIX_ONE]`, and a ramp index in `[0, 12]`.
pub proof fn lemma_sample_props(
    cfg: Config,
    sa: int,
    ca: int,
    sb: int,
    cb: int,
    jc: int,
    js: int,
    icos: int,
    isin: int,
)
    requires
        cfg.wf(),
        -FIX_BOUND <= sa <= FIX_BOUND,
        -FIX_BOUND <= ca <= FIX_BOUND,
        -FIX_BOUND <= sb <= FIX_BOUND,
        -FIX_BOUND <= cb <= FIX_BOUND,
        -FIX_BOUND <= jc <= FIX_BOUND,
        -FIX_BOUND <= js <= FIX_BOUND,
        -FIX_BOUND <= icos <= FIX_BOUND,
        -FIX_BOUND <= isin <= FIX_BOUND,
    ensures
        sample(cfg, sa, ca, sb, cb, jc, js, icos, isin) matches Some(s) ==> {
            &&& 0 <= s.0 < cfg.width * cfg.height
            &&& 1 <= s.1 <= FIX_ONE
            &&& 0 <= s.2 <= 12
        },
{
    let h = jc + 2 * FIX_ONE;
    let u = fmul(isin, h);
    lemma_fmul_bound(isin, h, FIX_BOUND as int, 4 * FIX_ONE);
    lemma_fmul_bound(u, sa, 8 * FIX_ONE, FIX_BOUND as int);
    lemma_fmul_bound(js, ca, FIX_BOUND as int, FIX_BOUND as int);
    let denom = fmul(u, sa) + fmul(js, ca) + cfg.viewer_distance * FIX_ONE;
    if denom >= FIX_ONE {
        assert(denom <= 300 * FIX_ONE);
        lemma_div_is_ordered_by_denominator(
            FIX_ONE * FIX_ONE,
            FIX_ONE as int,
            denom,
        );
        lemma_div_multiples_vanish(FIX_ONE as int, FIX_ONE as int);
        lemma_div_is_ordered(denom, FIX_ONE * FIX_ONE, denom);
        lemma_div_by_self(denom);
        let d = tdiv(FIX_ONE * FIX_ONE, denom);
        assert(1 <= d <= FIX_ONE);
        let col = tdiv(cfg.x_center + fmul(
            fmul(cfg.x_scale as int, d),
            fmul(fmul(icos, h), cb) - fmul(fmul(u, ca) - fmul(js, sa), sb),
        ), FIX_ONE as int);
        let row = tdiv(cfg.y_center + fmul(
            fmul(cfg.y_scale as int, d),
            fmul(fmul(icos, h), sb) + fmul(fmul(u, ca) - fmul(js, sa), cb),
        ), FIX_ONE as int);
        if 0 <= col < cfg.width && 0 <= row < cfg.height {
            assert(0 <= row * cfg.width + col < cfg.width * cfg.height) by (nonlinear_arith)
                requires
                    0 <= col < cfg.width,
                    0 <= row < cfg.height,
            ;
        }
    }
}

/// Converts an executable sample result to its mathematical form.
pub open spec fn sample_model(r: Option<(usize, i64, usize)>) -> Option<(int, int, int)> {
    match r {
        None => None,
        Some((cell, depth, ridx)) => Some((cell as int, depth as int, ridx as int)),
    }
}

/// One surface sample, executable; exactly `sample`.
fn sample_px(
    cfg: &Config,
    sa: i64,
    ca: i64,
    sb: i64,
    cb: i64,
    jc: i64,
    js: i64,
    icos: i64,
    isin: i64,
) -> (r: Option<(usize, i64, usize)>)
    requires
        cfg.wf(),
        -FIX_BOUND <= sa <= FIX_BOUND,
        -FIX_BOUND <= ca <= FIX_BOUND,
        -FIX_BOUND <= sb <= FIX_BOUND,
        -FIX_BOUND <= cb <= FIX_BOUND,
        -FIX_BOUND <= jc <= FIX_BOUND,
        -FIX_BOUND <= js <= FIX_BOUND,
        -FIX_BOUND <= icos <= FIX_BOUND,
        -FIX_BOUND <= isin <= FIX_BOUND,
    ensures
        sample_model(r) == sample(
            *cfg,
            sa as int,
            ca as int,
            sb as int,
            cb as int,
            jc as int,
            js as int,
            icos as int,
            isin as int,
        ),
        r matches Some(p) ==> {
            &&& p.0 < cfg.width * cfg.height
            &&& 1 <= p.1 <= FIX_ONE
            &&& p.2 < 13
        },
{
    proof {
        lemma_config_bounds(*cfg);
        lemma_sample_props(
            *cfg,
            sa as int,
            ca as int,
            sb as int,
            cb as int,
            jc as int,
            js as int,
            icos as int,
            isin as int,
        );
        lemma_fmul_bound(isin as int, jc as int + 2 * FIX_ONE, FIX_BOUND as int, 4 * FIX_ONE);
    }
    let h: i64 = jc + 2 * FIX_ONE;
    let u: i64 = mul_fix(isin, h);
    proof {
        lemma_fmul_bound(u as int, ca as int, 8 * FIX_ONE, FIX_BOUND as int);
        lemma_fmul_bound(js as int, sa as int, FIX_BOUND as int, FIX_BOUND as int);
        lemma_fmul_bound(u as int, sa as int, 8 * FIX_ONE, FIX_BOUND as int);
        lemma_fmul_bound(js as int, ca as int, FIX_BOUND as int, FIX_BOUND as int);
    }
    let t: i64 = mul_fix(u, ca) - mul_fix(js, sa);
    let denom: i64 = mul_fix(u, sa) + mul_fix(js, ca) + cfg.viewer_distance * FIX_ONE;
    if denom < FIX_ONE {
        return None;
    }
    let kk: i64 = FIX_ONE * FIX_ONE;
    proof {
        lemma_div_is_ordered_by_denominator(kk as int, FIX_ONE as int, denom as int);
        lemma_div_multiples_vanish(FIX_ONE as int, FIX_ONE as int);
        lemma_div_is_ordered(denom as int, kk as int, denom as int);
        lemma_div_by_self(denom as int);
    }
    let d: i64 = div_fix(kk, denom);
    proof {
        lemma_fmul_bound(icos as int, h as int, FIX_BOUND as int, 4 * FIX_ONE);
    }
    let v: i64 = mul_fix(icos, h);
    proof {
        lemma_fmul_bound(v as int, cb as int, 8 * FIX_ONE, FIX_BOUND as int);
        lemma_fmul_bound(t as int, sb as int, 20 * FIX_ONE, FIX_BOUND as int);
        lemma_fmul_bound(v as int, sb as int, 8 * FIX_ONE, FIX_BOUND as int);
        lemma_fmul_bound(t as int, cb as int, 20 * FIX_ONE, FIX_BOUND as int);
        lemma_fmul_bound(cfg.x_scale as int, d as int, 0x8000000, FIX_ONE as int);
        lemma_fmul_bound(cfg.y_scale as int, d as int, 0x10000000, FIX_ONE as int);
    }
    let xin: i64 = mul_fix(v, cb) - mul_fix(t, sb);
    let yin: i64 = mul_fix(v, sb) + mul_fix(t, cb);
    let xsd: i64 = mul_fix(cfg.x_scale, d);
    let ysd: i64 = mul_fix(cfg.y_scale, d);
    proof {
        lemma_fmul_bound(xsd as int, xin as int, 0x8000000, 56 * FIX_ONE);
        lemma_fmul_bound(ysd as int, yin as int, 0x10000000, 56 * FIX_ONE);
    }
    let xf: i64 = cfg.x_center + mul_fix(xsd, xin);
    let yf: i64 = cfg.y_center + mul_fix(ysd, yin);
    let col: i64 = div_fix(xf, FIX_ONE);
    let row: i64 = div_fix(yf, FIX_ONE);
    if !(0 <= col && col < cfg.width as i64 && 0 <= row && row < cfg.height as i64) {
        return None;
    }
    proof {
        lemma_fmul_bound(isin as int, jc as int, FIX_BOUND as int, FIX_BOUND as int);
        lemma_fmul_bound(icos as int, jc as int, FIX_BOUND as int, FIX_BOUND as int);
    }
    let w2: i64 = mul_fix(isin, jc);
    let w3: i64 = mul_fix(icos, jc);
    proof {
        lemma_fmul_bound(js as int, sa as int, FIX_BOUND as int, FIX_BOUND as int);
        lemma_fmul_bound(w2 as int, ca as int, 4 * FIX_ONE, FIX_BOUND as int);
        lemma_fmul_bound(w2 as int, sa as int, 4 * FIX_ONE, FIX_BOUND as int);
        lemma_fmul_bound(js as int, ca as int, FIX_BOUND as int, FIX_BOUND as int);
        lemma_fmul_bound(w3 as int, sb as int, 4 * FIX_ONE, FIX_BOUND as int);
    }
    let l1: i64 = mul_fix(js, sa) - mul_fix(w2, ca);
    proof {
        lemma_fmul_bound(l1 as int, cb as int, 12 * FIX_ONE, FIX_BOUND as int);
    }
    let lum: i64 = mul_fix(l1, cb) - mul_fix(w2, sa) - mul_fix(js, ca) - mul_fix(w3, sb);
    proof {
        assert(-DIV_MAX <= (cfg.brightness_factor as int) * (lum as int) <= DIV_MAX)
            by (nonlinear_arith)
            requires
                0 <= cfg.brightness_factor <= 255,
                -44 * 0x100000 <= lum <= 44 * 0x100000,
        ;
    }
    let n: i64 = div_fix(cfg.brightness_factor * lum, FIX_ONE);
    let ridx: usize = if n < 0 {
        0
    } else if n > 12 {
        12
    } else {
        n as usize
    };
    proof {
        assert(0 <= (row as int) * (cfg.width as int) + (col as int) < cfg.width * cfg.height
            && cfg.width * cfg.height < 0x10000) by (nonlinear_arith)
            requires
                0 <= col < cfg.width <= 255,
                0 <= row < cfg.height <= 255,
        ;
    }
    let cell: usize = (row as usize) * cfg.width + (col as usize);
    Some((cell, d, ridx))
}

impl Donut {
    /// Render one frame in place.
    ///
    /// Both caller-owned buffers must have length `width * height`. Every cell
    /// of both is overwritten: first cleared to the background glyph and depth
    /// zero, then filled by the depth-tested sweep. The result is exactly the
    /// frame `spec_render` describes, so it depends on the orientation and the
    /// configuration alone.
    pub fn render_frame_in_place(&self, output: &mut Vec<char>, zbuf: &mut Vec<i64>)
        requires
            self.wf(),
            old(output).len() == self.cfg.width * self.cfg.height,
            old(zbuf).len() == self.cfg.width * self.cfg.height,
        ensures
            final(output).len() == self.cfg.width * self.cfg.height,
            final(zbuf).len() == self.cfg.width * self.cfg.height,
            forall|m: int|
                0 <= m < final(output).len() ==> final(output)[m] == spec_render(*self).0[m],
            forall|m: int|
                0 <= m < final(zbuf).len() ==> final(zbuf)[m] as int == spec_render(*self).1[m],
    {
        proof {
            assert(self.cfg.width * self.cfg.height < 0x10000) by (nonlinear_arith)
                requires
                    0 < self.cfg.width <= 255,
                    0 < self.cfg.height <= 255,
            ;
        }
        let n: usize = self.cfg.width * self.cfg.height;
        let bg: char = self.cfg.ramp[0];
        let mut m: usize = 0;
        while m < n
            invariant
                m <= n,
                output.len() == n,
                zbuf.len() == n,
                bg == self.cfg.ramp@[0],
                forall|t: int| 0 <= t < m ==> output[t] == bg,
                forall|t: int| 0 <= t < m ==> zbuf[t] == 0i64,
            decreases n - m,
        {
            output.set(m, bg);
            zbuf.set(m, 0);
            m += 1;
        }
        let num_j: usize = self.cfg.num_j;
        let num_i: usize = self.cfg.num_i;
        let mut jdx: usize = 0;
        let mut jc: i64 = FIX_ONE;
        let mut js: i64 = 0;
        proof {
            assert(render_upto(*self, 0).0 =~= Seq::new(n as nat, |t: int| self.cfg.ramp@[0]));
        }
        while jdx < num_j
            invariant
                self.wf(),
                jdx <= num_j,
                num_j == self.cfg.num_j,
                num_i == self.cfg.num_i,
                n == self.cfg.width * self.cfg.height,
                output.len() == n,
                zbuf.len() == n,
                (jc as int, js as int) == sweep_state(self.cfg.j_step as int, jdx as nat),
                -FIX_BOUND <= jc <= FIX_BOUND,
                -FIX_BOUND <= js <= FIX_BOUND,
                forall|t: int|
                    0 <= t < n ==> output[t] == render_upto(*self, (jdx * num_i) as nat).0[t],
                forall|t: int|
                    0 <= t < n ==> zbuf[t] as int == render_upto(*self, (jdx * num_i) as nat).1[t],
            decreases num_j - jdx,
        {
            let mut idx: usize = 0;
            let mut icos: i64 = FIX_ONE;
            let mut isin: i64 = 0;
            while idx < num_i
                invariant
                    self.wf(),
                    jdx < num_j,
                    idx <= num_i,
                    num_j == self.cfg.num_j,
                    num_i == self.cfg.num_i,
                    n == self.cfg.width * self.cfg.height,
                    output.len() == n,
                    zbuf.len() == n,
                    (jc as int, js as int) == sweep_state(self.cfg.j_step as int, jdx as nat),
                    -FIX_BOUND <= jc <= FIX_BOUND,
                    -FIX_BOUND <= js <= FIX_BOUND,
                    (icos as int, isin as int) == sweep_state(self.cfg.i_step as int, idx as nat),
                    -FIX_BOUND <= icos <= FIX_BOUND,
                    -FIX_BOUND <= isin <= FIX_BOUND,
                    forall|t: int|
                        0 <= t < n ==> output[t] == render_upto(
                            *self,
                            (jdx * num_i + idx) as nat,
                        ).0[t],
                    forall|t: int|
                        0 <= t < n ==> zbuf[t] as int == render_upto(
                            *self,
                            (jdx * num_i + idx) as nat,
                        ).1[t],
                decreases num_i - idx,
            {
                let ghost k: int = jdx * num_i + idx;
                let ghost st = render_upto(*self, k as nat);
                let ghost nxt = render_upto(*self, (k + 1) as nat);
                proof {
                    lemma_fundamental_div_mod_converse_div(k, num_i as int, jdx as int, idx as int);
                    lemma_fundamental_div_mod_converse_mod(k, num_i as int, jdx as int, idx as int);
                    lemma_render_upto_len(*self, k as nat);
                    assert(nxt == apply_sample(st.0, st.1, self.cfg, sample_at(*self, k)));
                }
                let s = sample_px(&self.cfg, self.a_sin, self.a_cos, self.b_sin, self.b_cos, jc,
                    js, icos, isin);
                proof {
                    assert(sample_at(*self, k) == sample_model(s));
                }
                match s {
                    Some((cell, dval, ridx)) => {
                        if dval > zbuf[cell] {
                            proof {
                                assert(st.1[cell as int] == zbuf[cell as int]);
                                assert(nxt.0 == st.0.update(
                                    cell as int,
                                    self.cfg.ramp@[ridx as int],
                                ));
                                assert(nxt.1 == st.1.update(cell as int, dval as int));
                            }
                            zbuf.set(cell, dval);
                            output.set(cell, self.cfg.ramp[ridx]);
                            proof {
                                assert forall|t: int| 0 <= t < n implies output[t] == nxt.0[t]
                                    && zbuf[t] as int == nxt.1[t] by {
                                    if t == cell as int {
                                        assert(output[t] == self.cfg.ramp@[ridx as int]);
                                    } else {
                                        assert(output[t] == st.0[t]);
                                    }
                                }
                            }
                        } else {
                            proof {
                                assert(st.1[cell as int] == zbuf[cell as int]);
                                assert(!(st.1[cell as int] < dval as int));
                                assert(nxt == (st.0, st.1));
                            }
                        }
                    },
                    None => {
                        proof {
                            assert(nxt == (st.0, st.1));
                        }
                    },
                }
                idx += 1;
                let step = rot_step_exec(icos, isin, self.cfg.i_step);
                icos = step.0;
                isin = step.1;
            }
            proof {
                assert((jdx + 1) * (num_i as int) == jdx * num_i + num_i) by (nonlinear_arith);
            }
            jdx += 1;
            let step = rot_step_exec(jc, js, self.cfg.j_step);
            jc = step.0;
            js = step.1;
        }
    }
}

} // verus!
