//! The library's laws: properties of a whole rendered frame and of the
//! rotation pipeline, stated over the exact frame specification `spec_render`
//! and proved by induction over the sample fold.

use crate::fixed::{
    clamp_fix, fmul, lemma_fmul_zero, lemma_tdiv_mul_cancel, lemma_tdiv_rep, tdiv, FIX_BOUND,
    FIX_ONE,
};
use crate::render::{
    lemma_render_upto_len, lemma_sample_at_props, render_upto, sample_at, spec_render,
};
use crate::torus::{norm_sq, rot_step, rotate_seq, spec_rotate, Donut};
use vstd::prelude::*;

verus! {

/// The character is one of the thirteen configured ramp glyphs.
pub open spec fn in_ramp(cfg: crate::config::Config, c: char) -> bool {
    exists|r: int| 0 <= r < 13 && c == cfg.ramp@[r]
}

/// Sample `q` of the sweep lands in `cell`.
pub open spec fn hits_cell(d: Donut, q: int, cell: int) -> bool {
    sample_at(d, q) matches Some(s) && s.0 == cell
}

/// The reciprocal depth ("closeness") of sample `q`; zero for a miss.
pub open spec fn sample_depth(d: Donut, q: int) -> int {
    match sample_at(d, q) {
        Some(s) => s.1,
        None => 0,
    }
}

/// Frame invariant, by induction over the samples folded so far: depths lie
/// in `[0, FIX_ONE]`, a cell at depth zero still shows the background glyph,
/// and every glyph is one of the ramp's entries.
proof fn lemma_frame_inv(d: Donut, k: nat)
    requires
        d.wf(),
    ensures
        ({
            let st = render_upto(d, k);
            &&& forall|m: int| 0 <= m < st.1.len() ==> 0 <= #[trigger] st.1[m] <= FIX_ONE
            &&& forall|m: int|
                0 <= m < st.1.len() ==> ((#[trigger] st.1[m]) == 0 ==> st.0[m] == d.cfg.ramp@[0])
            &&& forall|m: int| 0 <= m < st.0.len() ==> in_ramp(d.cfg, #[trigger] st.0[m])
        }),
    decreases k,
{
    lemma_render_upto_len(d, k);
    let st = render_upto(d, k);
    if k == 0 {
        assert forall|m: int| 0 <= m < st.0.len() implies in_ramp(d.cfg, #[trigger] st.0[m]) by {
            assert(st.0[m] == d.cfg.ramp@[0]);
            assert(0 <= 0 < 13 && st.0[m] == d.cfg.ramp@[0]);
        }
    } else {
        lemma_frame_inv(d, (k - 1) as nat);
        lemma_render_upto_len(d, (k - 1) as nat);
        lemma_sample_at_props(d, k - 1);
        let prev = render_upto(d, (k - 1) as nat);
        match sample_at(d, k - 1) {
            Some(s) => {
                if prev.1[s.0] < s.1 {
                    assert(st.0 == prev.0.update(s.0, d.cfg.ramp@[s.2]));
                    assert(st.1 == prev.1.update(s.0, s.1));
                    assert forall|m: int| 0 <= m < st.0.len() implies in_ramp(
                        d.cfg,
                        #[trigger] st.0[m],
                    ) by {
                        if m == s.0 {
                            assert(0 <= s.2 < 13 && st.0[m] == d.cfg.ramp@[s.2]);
                        } else {
                            assert(st.0[m] == prev.0[m]);
                        }
                    }
                }
            },
            None => {},
        }
    }
}

/// Law (brightness clamp): every glyph of a rendered frame is one of the
/// thirteen configured ramp entries, whatever luminance the lighting formula
/// produced for it.
pub proof fn lemma_brightness_clamp(d: Donut)
    requires
        d.wf(),
    ensures
        forall|m: int|
            0 <= m < spec_render(d).0.len() ==> in_ramp(d.cfg, #[trigger] spec_render(d).0[m]),
        forall|m: int| 0 <= m < spec_render(d).1.len() ==> 0 <= #[trigger] spec_render(d).1[m]
            <= FIX_ONE,
{
    lemma_frame_inv(d, (d.cfg.num_j * d.cfg.num_i) as nat);
}

/// A cell that no folded sample has hit keeps the cleared state.
proof fn lemma_untouched(d: Donut, k: nat, cell: int)
    requires
        d.wf(),
        0 <= cell < d.cfg.width * d.cfg.height,
        forall|q: int| 0 <= q < k ==> !hits_cell(d, q, cell),
    ensures
        render_upto(d, k).1[cell] == 0,
        render_upto(d, k).0[cell] == d.cfg.ramp@[0],
    decreases k,
{
    lemma_render_upto_len(d, k);
    if k > 0 {
        lemma_untouched(d, (k - 1) as nat, cell);
        lemma_render_upto_len(d, (k - 1) as nat);
        lemma_sample_at_props(d, k - 1);
        assert(!hits_cell(d, k - 1, cell));
    }
}

/// Law (buffer reset): rendering overwrites both buffers completely, whatever
/// they held before. A cell on which no sample of the sweep lands holds depth
/// zero and the background glyph, and any cell whose final depth is zero shows
/// the background glyph: stale contents never leak through.
pub proof fn lemma_buffer_reset(d: Donut, cell: int)
    requires
        d.wf(),
        0 <= cell < d.cfg.width * d.cfg.height,
    ensures
        (forall|q: int| 0 <= q < d.cfg.num_j * d.cfg.num_i ==> !hits_cell(d, q, cell)) ==> (
        spec_render(d).1[cell] == 0 && spec_render(d).0[cell] == d.cfg.ramp@[0]),
        spec_render(d).1[cell] == 0 ==> spec_render(d).0[cell] == d.cfg.ramp@[0],
{
    let total = (d.cfg.num_j * d.cfg.num_i) as nat;
    lemma_frame_inv(d, total);
    lemma_render_upto_len(d, total);
    if forall|q: int| 0 <= q < d.cfg.num_j * d.cfg.num_i ==> !hits_cell(d, q, cell) {
        lemma_untouched(d, total, cell);
    }
}

/// Depth maximum, by induction over the samples folded so far.
proof fn lemma_depth_max_upto(d: Donut, k: nat, cell: int)
    requires
        d.wf(),
        0 <= cell < d.cfg.width * d.cfg.height,
    ensures
        forall|q: int|
            0 <= q < k && #[trigger] hits_cell(d, q, cell) ==> render_upto(d, k).1[cell]
                >= sample_depth(d, q),
        render_upto(d, k).1[cell] == 0 || exists|q: int|
            0 <= q < k && #[trigger] hits_cell(d, q, cell) && sample_depth(d, q) == render_upto(
                d,
                k,
            ).1[cell],
    decreases k,
{
    lemma_render_upto_len(d, k);
    if k > 0 {
        lemma_depth_max_upto(d, (k - 1) as nat, cell);
        lemma_render_upto_len(d, (k - 1) as nat);
        lemma_sample_at_props(d, k - 1);
        let prev = render_upto(d, (k - 1) as nat);
        let st = render_upto(d, k);
        match sample_at(d, k - 1) {
            Some(s) => {
                if prev.1[s.0] < s.1 {
                    assert(st.1 == prev.1.update(s.0, s.1));
                    if s.0 == cell {
                        assert(hits_cell(d, k - 1, cell));
                        assert(sample_depth(d, k - 1) == st.1[cell]);
                    }
                } else {
                    assert(st.1 == prev.1);
                }
            },
            None => {},
        }
        assert forall|q: int| 0 <= q < k && #[trigger] hits_cell(d, q, cell) implies st.1[cell]
            >= sample_depth(d, q) by {
            if q < k - 1 {
                assert(prev.1[cell] >= sample_depth(d, q));
            }
        }
    }
}

/// Law (depth monotonicity): for any cell, the depth a rendered frame stores
/// is the maximum closeness over all samples that mapped to that cell — it is
/// at least every such sample's closeness, and unless it is zero (no hit, or
/// only hits that lost no earlier tie) it is some hitting sample's closeness.
pub proof fn lemma_depth_monotonicity(d: Donut, cell: int)
    requires
        d.wf(),
        0 <= cell < d.cfg.width * d.cfg.height,
    ensures
        forall|q: int|
            0 <= q < d.cfg.num_j * d.cfg.num_i && #[trigger] hits_cell(d, q, cell) ==> spec_render(
                d,
            ).1[cell] >= sample_depth(d, q),
        spec_render(d).1[cell] == 0 || exists|q: int|
            0 <= q < d.cfg.num_j * d.cfg.num_i && #[trigger] hits_cell(d, q, cell) && sample_depth(
                d,
                q,
            ) == spec_render(d).1[cell],
{
    lemma_depth_max_upto(d, (d.cfg.num_j * d.cfg.num_i) as nat, cell);
}

/// The identity orientation's cosine/sine pair has squared norm exactly one.
pub proof fn lemma_identity_norm()
    ensures
        norm_sq(FIX_ONE as int, 0) == FIX_ONE,
{
    lemma_tdiv_mul_cancel(FIX_ONE as int, FIX_ONE as int);
    lemma_fmul_zero(0);
}

/// One recurrence step keeps the fixed-point squared norm of a cosine/sine
/// pair inside the band `FIX_ONE - 64 ..= FIX_ONE + 64` (about `6e-5` of one),
/// for any delta up to a sixteenth of a radian: the Newton renormalization
/// absorbs both the first-order rotation's norm growth and every truncation
/// error of the step.
pub proof fn lemma_rot_step_norm(c: int, s: int, delta: int)
    requires
        -65536 <= delta <= 65536,
        FIX_ONE - 64 <= norm_sq(c, s) <= FIX_ONE + 64,
    ensures
        ({
            let r = rot_step(c, s, delta);
            &&& FIX_ONE - 64 <= norm_sq(r.0, r.1) <= FIX_ONE + 64
            &&& -FIX_BOUND <= r.0 <= FIX_BOUND
            &&& -FIX_BOUND <= r.1 <= FIX_BOUND
        }),
{
    let x = c * c;
    let y = s * s;
    assert(x >= 0 && y >= 0) by (nonlinear_arith)
        requires
            x == c * c,
            y == s * s,
    ;
    lemma_tdiv_rep(x, 1048576);
    lemma_tdiv_rep(y, 1048576);
    assert(norm_sq(c, s) == tdiv(x, 1048576) + tdiv(y, 1048576));
    assert(1099444518912 <= x + y <= 1099580833792);
    assert(-1048609 <= c <= 1048609) by (nonlinear_arith)
        requires
            x == c * c,
            x <= 1099580833792,
    ;
    assert(-1048609 <= s <= 1048609) by (nonlinear_arith)
        requires
            y == s * s,
            y <= 1099580833792,
    ;
    let f1 = fmul(delta, s);
    let f2 = fmul(delta, c);
    lemma_tdiv_rep(delta * s, 1048576);
    lemma_tdiv_rep(delta * c, 1048576);
    assert(f1 == tdiv(delta * s, 1048576) && f2 == tdiv(delta * c, 1048576));
    let e1 = delta * s - f1 * 1048576;
    let e2 = delta * c - f2 * 1048576;
    assert(-1048576 < e1 < 1048576 && -1048576 < e2 < 1048576);
    assert(-68721639424 <= delta * s <= 68721639424 && -68721639424 <= delta * c
        <= 68721639424) by (nonlinear_arith)
        requires
            -65536 <= delta <= 65536,
            -1048609 <= s <= 1048609,
            -1048609 <= c <= 1048609,
    ;
    assert(-65540 <= f1 <= 65540 && -65540 <= f2 <= 65540);
    let c1 = c - f1;
    let s1 = s + f2;
    let p = c1 * c1 + s1 * s1;
    assert(1048576 * (c * f1 - s * f2) == s * e2 - c * e1) by (nonlinear_arith)
        requires
            f1 * 1048576 == delta * s - e1,
            f2 * 1048576 == delta * c - e2,
    ;
    assert(-2199092461568 <= s * e2 - c * e1 <= 2199092461568) by (nonlinear_arith)
        requires
            -1048609 <= c <= 1048609,
            -1048609 <= s <= 1048609,
            -1048576 < e1 < 1048576,
            -1048576 < e2 < 1048576,
    ;
    assert(-2097219 <= c * f1 - s * f2 <= 2097219);
    assert((f1 * 1048576) * (f1 * 1048576) == (delta * s - e1) * (delta * s - e1) && (f2 * 1048576)
        * (f2 * 1048576) == (delta * c - e2) * (delta * c - e2)) by (nonlinear_arith)
        requires
            f1 * 1048576 == delta * s - e1,
            f2 * 1048576 == delta * c - e2,
    ;
    assert((delta * s - e1) * (delta * s - e1) == (delta * delta) * y - 2 * delta * (s * e1) + e1
        * e1) by (nonlinear_arith)
        requires
            y == s * s,
    ;
    assert((delta * c - e2) * (delta * c - e2) == (delta * delta) * x - 2 * delta * (c * e2) + e2
        * e2) by (nonlinear_arith)
        requires
            x == c * c,
    ;
    assert((delta * delta) * x + (delta * delta) * y == (delta * delta) * (x + y))
        by (nonlinear_arith);
    assert(2 * delta * (s * e1) + 2 * delta * (c * e2) == 2 * delta * (s * e1 + c * e2))
        by (nonlinear_arith);
    assert((f1 * 1048576) * (f1 * 1048576) + (f2 * 1048576) * (f2 * 1048576) == 1099511627776 * (f1
        * f1 + f2 * f2)) by (nonlinear_arith);
    assert(0 <= (delta * delta) * (x + y) <= 4722663720445051666432) by (nonlinear_arith)
        requires
            -65536 <= delta <= 65536,
            0 <= x + y <= 1099580833792,
    ;
    assert(-288239447122640896 <= 2 * delta * (s * e1 + c * e2) <= 288239447122640896)
        by (nonlinear_arith)
        requires
            -65536 <= delta <= 65536,
            -1048609 <= c <= 1048609,
            -1048609 <= s <= 1048609,
            -1048576 < e1 < 1048576,
            -1048576 < e2 < 1048576,
    ;
    assert(0 <= e1 * e1 + e2 * e2 <= 2199023255552) by (nonlinear_arith)
        requires
            -1048576 < e1 < 1048576,
            -1048576 < e2 < 1048576,
    ;
    assert(0 <= f1 * f1 + f2 * f2) by (nonlinear_arith);
    assert(f1 * f1 + f2 * f2 <= 4295499787);
    assert(p == x + y - 2 * (c * f1 - s * f2) + (f1 * f1 + f2 * f2)) by (nonlinear_arith)
        requires
            c1 == c - f1,
            s1 == s + f2,
            x == c * c,
            y == s * s,
            p == c1 * c1 + s1 * s1,
    ;
    assert(1099440324474 <= p <= 1103880528017);
    assert(c1 * c1 >= 0 && s1 * s1 >= 0) by (nonlinear_arith);
    assert(c1 * c1 <= 1103880528017 && s1 * s1 <= 1103880528017);
    assert(-1050661 <= c1 <= 1050661) by (nonlinear_arith)
        requires
            c1 * c1 <= 1103880528017,
    ;
    assert(-1050661 <= s1 <= 1050661) by (nonlinear_arith)
        requires
            s1 * s1 <= 1103880528017,
    ;
    let g1 = fmul(c1, c1);
    let g2 = fmul(s1, s1);
    lemma_tdiv_rep(c1 * c1, 1048576);
    lemma_tdiv_rep(s1 * s1, 1048576);
    assert(g1 == tdiv(c1 * c1, 1048576) && g2 == tdiv(s1 * s1, 1048576));
    let e3 = c1 * c1 - g1 * 1048576;
    let e4 = s1 * s1 - g2 * 1048576;
    let q1 = g1 + g2;
    assert(1048505 <= q1 <= 1052743);
    let nrm = tdiv(3145728 - q1, 2);
    lemma_tdiv_rep(3145728 - q1, 2);
    let e5 = (3145728 - q1) - nrm * 2;
    assert(0 <= e5 <= 1);
    let w = q1 - 1048576 + e5;
    let rr = e3 + e4 - e5 * 1048576;
    assert(-71 <= w <= 4168);
    assert(2 * nrm == 2097152 - w);
    assert(p == 1099511627776 + w * 1048576 + rr);
    assert(-2097152 < rr < 2097152);
    assert(1046492 <= nrm <= 1048613);
    let c2v = fmul(c1, nrm);
    let s2v = fmul(s1, nrm);
    lemma_tdiv_rep(c1 * nrm, 1048576);
    lemma_tdiv_rep(s1 * nrm, 1048576);
    assert(c2v == tdiv(c1 * nrm, 1048576) && s2v == tdiv(s1 * nrm, 1048576));
    let e6 = c1 * nrm - c2v * 1048576;
    let e7 = s1 * nrm - s2v * 1048576;
    assert(-1048576 < e6 < 1048576 && -1048576 < e7 < 1048576);
    assert(-1103888536921 <= c1 * nrm <= 1103888536921) by (nonlinear_arith)
        requires
            -1050661 <= c1 <= 1050661,
            -1050661 <= nrm <= 1050661,
    ;
    assert(-1103888536921 <= s1 * nrm <= 1103888536921) by (nonlinear_arith)
        requires
            -1050661 <= s1 <= 1050661,
            -1050661 <= nrm <= 1050661,
    ;
    assert(-1052752 <= c2v <= 1052752 && -1052752 <= s2v <= 1052752);
    assert(clamp_fix(c2v) == c2v && clamp_fix(s2v) == s2v);
    assert(rot_step(c, s, delta) == (c2v, s2v));
    let g5 = fmul(c2v, c2v);
    let g6 = fmul(s2v, s2v);
    lemma_tdiv_rep(c2v * c2v, 1048576);
    lemma_tdiv_rep(s2v * s2v, 1048576);
    assert(g5 == tdiv(c2v * c2v, 1048576) && g6 == tdiv(s2v * s2v, 1048576));
    assert(c2v * c2v >= 0 && s2v * s2v >= 0) by (nonlinear_arith);
    let e8 = c2v * c2v - g5 * 1048576;
    let e9 = s2v * s2v - g6 * 1048576;
    let q2 = g5 + g6;
    assert(4 * (nrm * nrm * p) == 4835703278458516698824704 + 4398046511104 * rr - 3298534883328 * (
    w * w) - 4194304 * (w * rr) + (w * w * w) * 1048576 + (w * w) * rr) by (nonlinear_arith)
        requires
            2 * nrm == 2097152 - w,
            p == 1099511627776 + w * 1048576 + rr,
    ;
    assert(0 <= w * w <= 17372224) by (nonlinear_arith)
        requires
            -71 <= w <= 4168,
    ;
    assert(-357911 <= w * w * w <= 72407429632) by (nonlinear_arith)
        requires
            -71 <= w <= 4168,
    ;
    assert(-8740929536 <= w * rr <= 8740929536) by (nonlinear_arith)
        requires
            -4168 <= w <= 4168,
            -2097152 < rr < 2097152,
    ;
    assert(-36432194306048 <= (w * w) * rr <= 36432194306048) by (nonlinear_arith)
        requires
            0 <= w * w <= 17372224,
            -2097152 < rr < 2097152,
    ;
    assert(4835703278458516698824704 - 66638882142687330304 <= 4 * (nrm * nrm * p)
        <= 4835703278458516698824704 + 66638882142687330304);
    assert((c2v * 1048576) * (c2v * 1048576) == (c1 * nrm - e6) * (c1 * nrm - e6) && (s2v * 1048576)
        * (s2v * 1048576) == (s1 * nrm - e7) * (s1 * nrm - e7)) by (nonlinear_arith)
        requires
            c2v * 1048576 == c1 * nrm - e6,
            s2v * 1048576 == s1 * nrm - e7,
    ;
    assert((c1 * nrm - e6) * (c1 * nrm - e6) == (nrm * nrm) * (c1 * c1) - 2 * nrm * (c1 * e6) + e6
        * e6) by (nonlinear_arith);
    assert((s1 * nrm - e7) * (s1 * nrm - e7) == (nrm * nrm) * (s1 * s1) - 2 * nrm * (s1 * e7) + e7
        * e7) by (nonlinear_arith);
    assert((nrm * nrm) * (c1 * c1) + (nrm * nrm) * (s1 * s1) == nrm * nrm * p) by (nonlinear_arith)
        requires
            p == c1 * c1 + s1 * s1,
    ;
    assert(2 * nrm * (c1 * e6) + 2 * nrm * (s1 * e7) == 2 * nrm * (c1 * e6 + s1 * e7))
        by (nonlinear_arith);
    assert((c2v * 1048576) * (c2v * 1048576) + (s2v * 1048576) * (s2v * 1048576) == 1099511627776 * (
    c2v * c2v + s2v * s2v)) by (nonlinear_arith);
    assert(-2203395817472 <= c1 * e6 + s1 * e7 <= 2203395817472) by (nonlinear_arith)
        requires
            -1050661 <= c1 <= 1050661,
            -1050661 <= s1 <= 1050661,
            -1048576 < e6 < 1048576,
            -1048576 < e7 < 1048576,
    ;
    assert(-4621018996693532672 <= 2 * nrm * (c1 * e6 + s1 * e7) <= 4621018996693532672)
        by (nonlinear_arith)
        requires
            -1048613 <= nrm <= 1048613,
            -2203395817472 <= c1 * e6 + s1 * e7 <= 2203395817472,
    ;
    assert(0 <= e6 * e6 + e7 * e7 <= 2199023255552) by (nonlinear_arith)
        requires
            -1048576 < e6 < 1048576,
            -1048576 < e7 < 1048576,
    ;
    assert(1208925819614629174706176 - 21280741731388620801 <= 1099511627776 * (c2v * c2v + s2v
        * s2v) <= 1208925819614629174706176 + 21280741731388620801);
    assert(1099511627776 * (q2 * 1048576) == 1099511627776 * (c2v * c2v + s2v * s2v) - 1099511627776
        * (e8 + e9));
    assert(1048576 - 64 <= q2 <= 1048576 + 64);
    assert(norm_sq(c2v, s2v) == q2);
}

/// Every delta of the sequence is at most a sixteenth of a radian in
/// magnitude, on both axes.
pub open spec fn deltas_small(deltas: Seq<(i64, i64)>) -> bool {
    forall|i: int|
        0 <= i < deltas.len() ==> -65536 <= (#[trigger] deltas[i]).0 <= 65536 && -65536
            <= deltas[i].1 <= 65536
}

/// Law (orientation norm stability): starting inside the norm band — as the
/// identity orientation is, exactly — any number of successive rotate calls
/// with small deltas leaves both cosine/sine pairs with squared norm within
/// `64 / FIX_ONE` (about `6e-5`) of one.
pub proof fn lemma_norm_stability(d: Donut, deltas: Seq<(i64, i64)>)
    requires
        d.wf(),
        FIX_ONE - 64 <= norm_sq(d.a_cos as int, d.a_sin as int) <= FIX_ONE + 64,
        FIX_ONE - 64 <= norm_sq(d.b_cos as int, d.b_sin as int) <= FIX_ONE + 64,
        deltas_small(deltas),
    ensures
        ({
            let r = rotate_seq(d, deltas);
            &&& r.wf()
            &&& FIX_ONE - 64 <= norm_sq(r.a_cos as int, r.a_sin as int) <= FIX_ONE + 64
            &&& FIX_ONE - 64 <= norm_sq(r.b_cos as int, r.b_sin as int) <= FIX_ONE + 64
        }),
    decreases deltas.len(),
{
    if deltas.len() > 0 {
        let d1 = spec_rotate(d, deltas[0].0 as int, deltas[0].1 as int);
        lemma_rot_step_norm(d.a_cos as int, d.a_sin as int, deltas[0].0 as int);
        lemma_rot_step_norm(d.b_cos as int, d.b_sin as int, deltas[0].1 as int);
        assert(deltas_small(deltas.drop_first()));
        lemma_norm_stability(d1, deltas.drop_first());
    }
}

/// Law (determinism): the pipeline has no hidden input. Two equal orientations
/// fed the same sequence of rotate calls stay equal, and render equal frames.
pub proof fn lemma_pipeline_deterministic(d1: Donut, d2: Donut, deltas: Seq<(i64, i64)>)
    requires
        d1 == d2,
    ensures
        rotate_seq(d1, deltas) == rotate_seq(d2, deltas),
        spec_render(rotate_seq(d1, deltas)) == spec_render(rotate_seq(d2, deltas)),
{
}

} // verus!
