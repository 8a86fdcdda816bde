//! The rasterizer's immutable configuration: grid dimensions, viewer
//! distance, brightness factor, the two sweep step sizes, and the brightness
//! ramp, together with the projection constants derived from them.

use crate::fixed::{FIX_ONE, TAU_FIX};
use vstd::arithmetic::div_mod::{
    lemma_div_by_self, lemma_div_is_ordered, lemma_div_nonincreasing, lemma_div_pos_is_pos,
};
use vstd::prelude::*;

verus! {

/// Number of glyphs in the brightness ramp.
pub const RAMP_LEN: usize = 13;

/// Build-time knobs of the renderer, validated once at construction.
///
/// `j_step` and `i_step` are fixed-point angle increments for the tube sweep
/// and the ring sweep; `num_j` and `num_i` are the matching sample counts for
/// one full turn. `x_center`, `y_center`, `x_scale` and `y_scale` are the
/// projection constants derived from the grid dimensions, all fixed-point.
#[derive(Clone, Copy)]
pub struct Config {
    pub width: usize,
    pub height: usize,
    pub viewer_distance: i64,
    pub brightness_factor: i64,
    pub j_step: i64,
    pub i_step: i64,
    pub num_j: usize,
    pub num_i: usize,
    pub x_center: i64,
    pub y_center: i64,
    pub x_scale: i64,
    pub y_scale: i64,
    pub ramp: [char; 13],
}

/// The default brightness ramp, dimmest to brightest.
pub open spec fn default_ramp() -> Seq<char> {
    seq![' ', '.', ',', '-', '~', ':', ';', '=', '!', '*', '#', '$', '@']
}

impl Config {
    /// Well-formedness: dimensions and factors in range, step sizes strictly
    /// positive and below one full turn, and every derived constant equal to
    /// its defining formula.
    pub open spec fn wf(self) -> bool {
        &&& 1 <= self.width <= 255
        &&& 1 <= self.height <= 255
        &&& 0 <= self.viewer_distance <= 255
        &&& 0 <= self.brightness_factor <= 255
        &&& 0 < self.j_step < TAU_FIX
        &&& 0 < self.i_step < TAU_FIX
        &&& self.num_j == (TAU_FIX + self.j_step - 1) / (self.j_step as int)
        &&& self.num_i == (TAU_FIX + self.i_step - 1) / (self.i_step as int)
        &&& self.x_center == self.width * FIX_ONE / 2
        &&& self.y_center == self.height * FIX_ONE / 2
        &&& self.x_scale == 3 * self.width * FIX_ONE / 8
        &&& self.y_scale == 15 * self.height * FIX_ONE / 22
    }

    /// Validated construction: `Some` exactly when both step sizes are
    /// strictly positive and less than one full turn (grid dimensions and the
    /// other factors cannot be out of range, being bytes). The sample counts
    /// cover a full turn each: `num = ceil(TAU_FIX / step)`.
    pub fn new(
        width: u8,
        height: u8,
        viewer_distance: u8,
        brightness_factor: u8,
        j_step: i64,
        i_step: i64,
        ramp: [char; 13],
    ) -> (r: Option<Config>)
        ensures
            r is Some <==> (width >= 1 && height >= 1 && 0 < j_step < TAU_FIX && 0 < i_step
                < TAU_FIX),
            r matches Some(c) ==> {
                &&& c.wf()
                &&& c.width == width as usize
                &&& c.height == height as usize
                &&& c.viewer_distance == viewer_distance as i64
                &&& c.brightness_factor == brightness_factor as i64
                &&& c.j_step == j_step
                &&& c.i_step == i_step
                &&& c.ramp == ramp
            },
    {
        if width == 0 || height == 0 {
            return None;
        }
        if j_step <= 0 || j_step >= TAU_FIX || i_step <= 0 || i_step >= TAU_FIX {
            return None;
        }
        let w: u64 = width as u64;
        let h: u64 = height as u64;
        let unit: u64 = FIX_ONE as u64;
        let tau: u64 = TAU_FIX as u64;
        let js: u64 = j_step as u64;
        let is: u64 = i_step as u64;
        let num_j: u64 = (tau + js - 1) / js;
        let num_i: u64 = (tau + is - 1) / is;
        proof {
            lemma_div_nonincreasing((tau + js - 1) as int, js as int);
            lemma_div_nonincreasing((tau + is - 1) as int, is as int);
            lemma_div_pos_is_pos((tau + js - 1) as int, js as int);
            lemma_div_pos_is_pos((tau + is - 1) as int, is as int);
            assert(w * unit <= 0x10000000 && h * unit <= 0x10000000 && 3 * w * unit
                <= 0x30000000 && 15 * h * unit <= 0xF0000000) by (nonlinear_arith)
                requires
                    w <= 255,
                    h <= 255,
                    unit == 1048576,
            ;
            lemma_div_nonincreasing((w * unit) as int, 2);
            lemma_div_nonincreasing((h * unit) as int, 2);
            lemma_div_nonincreasing((3 * w * unit) as int, 8);
            lemma_div_nonincreasing((15 * h * unit) as int, 22);
        }
        Some(
            Config {
                width: width as usize,
                height: height as usize,
                viewer_distance: viewer_distance as i64,
                brightness_factor: brightness_factor as i64,
                j_step,
                i_step,
                num_j: num_j as usize,
                num_i: num_i as usize,
                x_center: (w * unit / 2) as i64,
                y_center: (h * unit / 2) as i64,
                x_scale: (3 * w * unit / 8) as i64,
                y_scale: (15 * h * unit / 22) as i64,
                ramp,
            },
        )
    }

    /// The default configuration: an 80 by 22 grid, viewer distance 5,
    /// brightness factor 8, tube step about 0.07 radians, ring step about
    /// 0.02 radians, and the usual thirteen-glyph ramp.
    pub fn default_config() -> (c: Config)
        ensures
            c.wf(),
            c.width == 80,
            c.height == 22,
            c.viewer_distance == 5,
            c.brightness_factor == 8,
            c.j_step == 73400,
            c.i_step == 20971,
            c.num_j == 90,
            c.num_i == 315,
            c.ramp@ == default_ramp(),
    {
        let ramp: [char; 13] = [' ', '.', ',', '-', '~', ':', ';', '=', '!', '*', '#', '$', '@'];
        let c = Config {
            width: 80,
            height: 22,
            viewer_distance: 5,
            brightness_factor: 8,
            j_step: 73400,
            i_step: 20971,
            num_j: 90,
            num_i: 315,
            x_center: 41943040,
            y_center: 11534336,
            x_scale: 31457280,
            y_scale: 15728640,
            ramp,
        };
        proof {
            assert(c.ramp@ =~= default_ramp());
        }
        c
    }
}

/// Numeric bounds on the derived configuration constants, for overflow
/// reasoning in the rasterizer.
pub proof fn lemma_config_bounds(c: Config)
    requires
        c.wf(),
    ensures
        0 <= c.x_center <= 0x8000000,
        0 <= c.y_center <= 0x8000000,
        0 <= c.x_scale <= 0x8000000,
        0 <= c.y_scale <= 0x10000000,
        1 <= c.num_j <= 2 * TAU_FIX,
        1 <= c.num_i <= 2 * TAU_FIX,
{
    lemma_div_pos_is_pos(c.width * FIX_ONE, 2);
    lemma_div_pos_is_pos(c.height * FIX_ONE, 2);
    lemma_div_pos_is_pos(3 * c.width * FIX_ONE, 8);
    lemma_div_pos_is_pos(15 * c.height * FIX_ONE, 22);
    lemma_div_is_ordered(c.width * FIX_ONE, 255 * FIX_ONE, 2);
    lemma_div_is_ordered(c.height * FIX_ONE, 255 * FIX_ONE, 2);
    lemma_div_is_ordered(3 * c.width * FIX_ONE, 3 * 255 * FIX_ONE, 8);
    lemma_div_is_ordered(15 * c.height * FIX_ONE, 15 * 255 * FIX_ONE, 22);
    lemma_div_nonincreasing(TAU_FIX + c.j_step - 1, c.j_step as int);
    lemma_div_nonincreasing(TAU_FIX + c.i_step - 1, c.i_step as int);
    lemma_div_by_self(c.j_step as int);
    lemma_div_by_self(c.i_step as int);
    lemma_div_is_ordered(c.j_step as int, TAU_FIX + c.j_step - 1, c.j_step as int);
    lemma_div_is_ordered(c.i_step as int, TAU_FIX + c.i_step - 1, c.i_step as int);
}

} // verus!
