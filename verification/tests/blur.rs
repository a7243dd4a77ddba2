use revision::ui_mech::blur::{blur, box_columns, box_rows, Scratch};

fn block(width: usize, height: usize, rect: (usize, usize, usize, usize)) -> Vec<u8> {
    let mut m = vec![0u8; width * height];
    for y in rect.1..rect.1 + rect.3 {
        for x in rect.0..rect.0 + rect.2 {
            m[y * width + x] = 255;
        }
    }
    m
}

/// The box half-width a blur of `sigma` pixels uses: a box of half-width `r`
/// applied three times approximates a Gaussian of `sigma ≈ r * 0.75`.
fn radius(sigma: f32) -> usize {
    if sigma <= 0.0 {
        return 0;
    }
    ((sigma / 0.75).round() as usize).max(1)
}

/// How far a blur of this sigma spreads.
fn spread(sigma: f32) -> f32 {
    if sigma <= 0.0 {
        return 0.0;
    }
    ((sigma / 0.75).round() * 3.0).ceil() + 1.0
}

fn blur_sigma(m: &mut [u8], w: usize, h: usize, sigma: f32) {
    blur(m, w, h, radius(sigma), &mut Scratch::default());
}

#[test]
fn zero_sigma_is_identity() {
    let mut m = block(16, 16, (4, 4, 8, 8));
    let before = m.clone();
    blur_sigma(&mut m, 16, 16, 0.0);
    assert_eq!(m, before);
}

#[test]
fn the_interior_of_a_wide_block_stays_solid() {
    let mut m = block(64, 64, (8, 8, 48, 48));
    blur_sigma(&mut m, 64, 64, 3.0);
    assert_eq!(m[32 * 64 + 32], 255, "centre lost coverage");
}

#[test]
fn edges_soften_outward() {
    let mut m = block(64, 64, (24, 24, 16, 16));
    blur_sigma(&mut m, 64, 64, 4.0);
    let outside = m[32 * 64 + 21];
    assert!(outside > 0, "blur did not spread outside the shape");
    let further = m[32 * 64 + 16];
    assert!(further < outside, "coverage did not decrease with distance");
}

#[test]
fn total_coverage_is_roughly_conserved() {
    let m0 = block(96, 96, (32, 32, 32, 32));
    let mut m = m0.clone();
    blur_sigma(&mut m, 96, 96, 5.0);
    let before: u64 = m0.iter().map(|&v| u64::from(v)).sum();
    let after: u64 = m.iter().map(|&v| u64::from(v)).sum();
    let drift = (after as f64 - before as f64).abs() / before as f64;
    assert!(drift < 0.05, "coverage drifted {:.1}%", drift * 100.0);
}

#[test]
fn a_uniform_field_is_unchanged() {
    let mut m = vec![255u8; 32 * 32];
    blur_sigma(&mut m, 32, 32, 4.0);
    assert!(m.iter().all(|&v| v == 255), "uniform field was not preserved");
}

#[test]
fn blur_is_deterministic() {
    let mut a = block(48, 48, (12, 12, 24, 24));
    let mut b = a.clone();
    blur_sigma(&mut a, 48, 48, 3.7);
    blur_sigma(&mut b, 48, 48, 3.7);
    assert_eq!(a, b);
}

#[test]
fn spread_covers_the_reach() {
    let sigma = 4.0;
    let pad = spread(sigma) as usize;
    let (w, h) = (64, 64);
    let mut m = block(w, h, (32, 32, 1, 1));
    blur_sigma(&mut m, w, h, sigma);
    for y in 0..h {
        for x in 0..w {
            let far = x.abs_diff(32) > pad || y.abs_diff(32) > pad;
            if far {
                assert_eq!(m[y * w + x], 0, "coverage at ({x},{y}) beyond the spread");
            }
        }
    }
}

// ── Single passes, exact values ────────────────────────────────────────────────

fn quotients(window: u32) -> Vec<u8> {
    (0..=255 * window).map(|v| (v / window) as u8).collect()
}

#[test]
fn a_row_pass_averages_with_clamped_edges() {
    // One row of four: [0, 30, 60, 90], radius 1, window 3.
    let src = [0u8, 30, 60, 90];
    let mut dst = [7u8; 6];
    box_rows(&src, &mut dst, 4, 1, 1, &quotients(3));
    // (0+0+30)/3, (0+30+60)/3, (30+60+90)/3, (60+90+90)/3
    assert_eq!(&dst[..4], &[10, 30, 60, 80]);
    // Beyond the mask the buffer is untouched.
    assert_eq!(&dst[4..], &[7, 7]);
}

#[test]
fn a_column_pass_averages_down_each_column() {
    // Two columns, three rows.
    let src = [0u8, 3, 30, 6, 60, 9];
    let mut dst = [0u8; 6];
    box_columns(&src, &mut dst, 2, 3, 1, &quotients(3));
    // Column 0: [0, 30, 60] -> [10, 30, 50]; column 1: [3, 6, 9] -> [4, 6, 8]
    assert_eq!(dst, [10, 4, 30, 6, 50, 8]);
}

#[test]
fn a_zero_radius_leaves_any_mask_alone() {
    let mut m: Vec<u8> = (0..35).map(|v| (v * 7) as u8).collect();
    let before = m.clone();
    blur(&mut m, 7, 5, 0, &mut Scratch::default());
    assert_eq!(m, before);
}

#[test]
fn a_single_pixel_spreads_into_a_mirrored_kernel() {
    let mut m = vec![0u8; 9 * 9];
    m[4 * 9 + 4] = 255;
    blur(&mut m, 9, 9, 1, &mut Scratch::default());
    for y in 0..9 {
        for x in 0..9 {
            assert_eq!(m[y * 9 + x], m[y * 9 + (8 - x)]);
            assert_eq!(m[y * 9 + x], m[(8 - y) * 9 + x]);
        }
    }
    assert!(m[4 * 9 + 4] > 0);
}

#[test]
fn scratch_is_reused_across_radii() {
    let mut s = Scratch::default();
    let mut a = block(20, 20, (5, 5, 10, 10));
    let mut b = a.clone();
    blur(&mut a, 20, 20, 2, &mut s);
    blur(&mut a, 20, 20, 3, &mut s);
    blur(&mut b, 20, 20, 2, &mut Scratch::default());
    blur(&mut b, 20, 20, 3, &mut Scratch::default());
    assert_eq!(a, b);
}

#[test]
fn the_blur_stays_within_three_radii() {
    let (w, h) = (31, 31);
    let mut m = block(w, h, (14, 14, 3, 3));
    blur(&mut m, w, h, 2, &mut Scratch::default());
    for y in 0..h {
        for x in 0..w {
            let outside = x < 14 - 6 || x > 16 + 6 || y < 14 - 6 || y > 16 + 6;
            if outside {
                assert_eq!(m[y * w + x], 0, "coverage at ({x},{y}) beyond three radii");
            }
        }
    }
    assert!(m[15 * w + 15] > 0);
}

#[test]
fn passes_read_only_the_mask_and_accept_a_longer_table() {
    // A source longer than the mask, and a table longer than the sums need.
    let src = [0u8, 30, 60, 90, 200, 200];
    let mut table = quotients(3);
    table.extend([9u8; 5]);
    let mut dst = [7u8; 4];
    box_rows(&src, &mut dst, 4, 1, 1, &table);
    assert_eq!(dst, [10, 30, 60, 80]);
    let mut dst = [7u8; 4];
    box_columns(&src, &mut dst, 4, 1, 1, &table);
    assert_eq!(dst, [0, 30, 60, 90]);
}

#[test]
fn a_row_pass_over_no_rows_writes_nothing() {
    let mut dst = [5u8; 3];
    box_rows(&[], &mut dst, 0, 0, 2, &quotients(5));
    assert_eq!(dst, [5, 5, 5]);
    let mut dst = [5u8; 3];
    box_columns(&[], &mut dst, 0, 3, 2, &quotients(5));
    assert_eq!(dst, [5, 5, 5]);
}
