use donut::config::Config;
use donut::fixed::{FIX_BOUND, FIX_ONE, TAU_FIX};
use donut::Donut;

const RAMP: [char; 13] = [' ', '.', ',', '-', '~', ':', ';', '=', '!', '*', '#', '$', '@'];

/// Fixed-point product, exactly as the library computes it.
fn fm(a: i64, b: i64) -> i64 {
    let p: i64 = a * b;
    if p >= 0 {
        p / (FIX_ONE)
    } else {
        -((-p) / FIX_ONE)
    }
}

fn norm_err(c: i64, s: i64) -> i64 {
    let q: i64 = fm(c, c) + fm(s, s);
    (q - FIX_ONE).abs()
}

fn fresh_buffers() -> (Vec<char>, Vec<i64>) {
    (vec![' '; 80 * 22], vec![0i64; 80 * 22])
}

#[test]
fn new_starts_at_identity_orientation() {
    let d = Donut::new();
    assert_eq!(d.a_cos, FIX_ONE);
    assert_eq!(d.a_sin, 0);
    assert_eq!(d.b_cos, FIX_ONE);
    assert_eq!(d.b_sin, 0);
    assert_eq!(d.cfg.width, 80);
    assert_eq!(d.cfg.height, 22);
    assert_eq!(d.cfg.viewer_distance, 5);
    assert_eq!(d.cfg.brightness_factor, 8);
    assert_eq!(d.cfg.num_j, 90);
    assert_eq!(d.cfg.num_i, 315);
    assert_eq!(d.cfg.ramp, RAMP);
}

#[test]
fn default_is_new() {
    let d = Donut::default();
    let e = Donut::new();
    assert_eq!(d.a_cos, e.a_cos);
    assert_eq!(d.a_sin, e.a_sin);
    assert_eq!(d.b_cos, e.b_cos);
    assert_eq!(d.b_sin, e.b_sin);
    assert_eq!(d.cfg.width, e.cfg.width);
    assert_eq!(d.cfg.ramp, e.cfg.ramp);
}

#[test]
fn config_new_computes_derived_constants() {
    let c = Config::new(80, 22, 5, 8, 73400, 20971, RAMP).unwrap();
    assert_eq!(c.num_j, 90);
    assert_eq!(c.num_i, 315);
    assert_eq!(c.x_center, 40 * FIX_ONE);
    assert_eq!(c.y_center, 11 * FIX_ONE);
    assert_eq!(c.x_scale, 30 * FIX_ONE);
    assert_eq!(c.y_scale, 15 * FIX_ONE);
}

#[test]
fn config_new_rejects_degenerate_steps() {
    assert!(Config::new(80, 22, 5, 8, 0, 20971, RAMP).is_none());
    assert!(Config::new(80, 22, 5, 8, 73400, 0, RAMP).is_none());
    assert!(Config::new(80, 22, 5, 8, -5, 20971, RAMP).is_none());
    assert!(Config::new(80, 22, 5, 8, TAU_FIX, 20971, RAMP).is_none());
    assert!(Config::new(80, 22, 5, 8, 73400, TAU_FIX + 1, RAMP).is_none());
    assert!(Config::new(0, 22, 5, 8, 73400, 20971, RAMP).is_none());
    assert!(Config::new(80, 0, 5, 8, 73400, 20971, RAMP).is_none());
    assert!(Config::new(80, 22, 5, 8, 73400, 20971, RAMP).is_some());
}

#[test]
fn rotate_by_zero_is_identity_at_start() {
    let mut d = Donut::new();
    d.rotate(0, 0);
    assert_eq!(d.a_cos, FIX_ONE);
    assert_eq!(d.a_sin, 0);
    assert_eq!(d.b_cos, FIX_ONE);
    assert_eq!(d.b_sin, 0);
}

#[test]
fn rotation_keeps_norm_near_one() {
    let mut d = Donut::new();
    for _ in 0..1000 {
        d.rotate(41943, 20971);
        assert!(norm_err(d.a_cos, d.a_sin) <= 105);
        assert!(norm_err(d.b_cos, d.b_sin) <= 105);
    }
}

#[test]
fn rotation_stays_bounded_even_for_large_deltas() {
    let mut d = Donut::new();
    for _ in 0..50 {
        d.rotate(TAU_FIX, -TAU_FIX);
        assert!(d.a_cos.abs() <= FIX_BOUND);
        assert!(d.a_sin.abs() <= FIX_BOUND);
        assert!(d.b_cos.abs() <= FIX_BOUND);
        assert!(d.b_sin.abs() <= FIX_BOUND);
    }
}

#[test]
fn identical_rotations_render_identical_frames() {
    let mut d1 = Donut::new();
    let mut d2 = Donut::new();
    for _ in 0..50 {
        d1.rotate(41943, 20971);
        d2.rotate(41943, 20971);
    }
    assert_eq!(d1.a_cos, d2.a_cos);
    assert_eq!(d1.a_sin, d2.a_sin);
    assert_eq!(d1.b_cos, d2.b_cos);
    assert_eq!(d1.b_sin, d2.b_sin);
    let (mut g1, mut z1) = fresh_buffers();
    let (mut g2, mut z2) = fresh_buffers();
    d1.render_frame_in_place(&mut g1, &mut z1);
    d2.render_frame_in_place(&mut g2, &mut z2);
    assert_eq!(g1, g2);
    assert_eq!(z1, z2);
}

#[test]
fn rendering_twice_gives_the_same_frame() {
    let d = Donut::new();
    let (mut g1, mut z1) = fresh_buffers();
    let (mut g2, mut z2) = fresh_buffers();
    d.render_frame_in_place(&mut g1, &mut z1);
    d.render_frame_in_place(&mut g2, &mut z2);
    assert_eq!(g1, g2);
    assert_eq!(z1, z2);
}

#[test]
fn default_frame_shows_a_roughly_centered_donut() {
    let d = Donut::new();
    let (mut glyphs, mut depths) = fresh_buffers();
    d.render_frame_in_place(&mut glyphs, &mut depths);
    let visible = glyphs.iter().filter(|&&c| c != ' ').count();
    assert!(visible > 300, "torus should be visible: {} cells", visible);
    assert!(visible < 1200);
    let left = (0..22).flat_map(|r| (0..40).map(move |c| (r, c))).filter(
        |&(r, c)| glyphs[r * 80 + c] != ' ',
    ).count();
    let right = (0..22).flat_map(|r| (40..80).map(move |c| (r, c))).filter(
        |&(r, c)| glyphs[r * 80 + c] != ' ',
    ).count();
    let diff = if left > right {
        left - right
    } else {
        right - left
    };
    assert!(diff * 10 <= left + right, "frame should be roughly symmetric: {} vs {}", left, right);
    assert_eq!(glyphs[0], ' ');
    assert_eq!(depths[0], 0);
}

#[test]
fn render_overwrites_stale_buffer_contents() {
    let d = Donut::new();
    let mut glyphs = vec!['X'; 80 * 22];
    let mut depths = vec![-77i64; 80 * 22];
    d.render_frame_in_place(&mut glyphs, &mut depths);
    for (g, z) in glyphs.iter().zip(depths.iter()) {
        assert_ne!(*g, 'X');
        assert!(*z >= 0);
        assert!(*z <= FIX_ONE);
        if *z == 0 {
            assert_eq!(*g, ' ');
        } else {
            assert!(*g != 'X');
        }
    }
}

#[test]
fn every_rendered_glyph_is_a_ramp_entry() {
    let mut d = Donut::new();
    let (mut glyphs, mut depths) = fresh_buffers();
    for _ in 0..10 {
        d.rotate(41943, 20971);
        d.render_frame_in_place(&mut glyphs, &mut depths);
        for g in glyphs.iter() {
            assert!(RAMP.contains(g));
        }
    }
}

#[test]
fn extreme_brightness_factor_still_stays_on_the_ramp() {
    let cfg = Config::new(80, 22, 5, 255, 73400, 20971, RAMP).unwrap();
    let mut d = Donut::with_config(cfg);
    d.rotate(99000, 54000);
    let (mut glyphs, mut depths) = fresh_buffers();
    d.render_frame_in_place(&mut glyphs, &mut depths);
    assert!(glyphs.iter().any(|&c| c == '@'));
    for g in glyphs.iter() {
        assert!(RAMP.contains(g));
    }
}

#[test]
fn rotated_frame_still_shows_the_torus() {
    let mut d = Donut::new();
    for _ in 0..30 {
        d.rotate(41943, 20971);
    }
    let (mut glyphs, mut depths) = fresh_buffers();
    d.render_frame_in_place(&mut glyphs, &mut depths);
    let visible = glyphs.iter().filter(|&&c| c != ' ').count();
    assert!(visible > 200, "rotated torus should be visible: {}", visible);
}

#[test]
fn small_grid_renders_within_its_own_bounds() {
    let cfg = Config::new(10, 5, 5, 8, 73400, 20971, RAMP).unwrap();
    let d = Donut::with_config(cfg);
    let mut glyphs = vec!['X'; 50];
    let mut depths = vec![0i64; 50];
    d.render_frame_in_place(&mut glyphs, &mut depths);
    for g in glyphs.iter() {
        assert!(RAMP.contains(g));
    }
}
