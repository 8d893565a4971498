use tpt_kinetix_av1::cdef::{cdef_constrain, cdef_plane_luma};
use tpt_kinetix_av1::loop_filter::{filter_line_1d, filter_size_from_tx_samples, FrameMeta};

#[test]
fn filter_size_from_tx_samples_caps_by_plane_not_by_bucket() {
    assert_eq!(filter_size_from_tx_samples(4, 0), 4);
    assert_eq!(filter_size_from_tx_samples(8, 0), 8);
    assert_eq!(filter_size_from_tx_samples(16, 0), 16);
    assert_eq!(filter_size_from_tx_samples(32, 0), 16, "luma caps at 16");
    assert_eq!(filter_size_from_tx_samples(4, 1), 4);
    assert_eq!(filter_size_from_tx_samples(8, 1), 8);
    assert_eq!(
        filter_size_from_tx_samples(16, 1),
        8,
        "chroma caps at 8, not 16"
    );
    assert_eq!(filter_size_from_tx_samples(32, 2), 8, "chroma V plane too");
}

#[test]
fn frame_meta_tracks_tx_width_and_height_independently() {
    let mut meta = FrameMeta::new(16, 16);
    meta.record_luma(0, 0, 16, 4, false);
    assert_eq!(meta.luma_tx_w[0], 16);
    assert_eq!(meta.luma_tx_h[0], 4);
}

#[test]
fn filter_line_identity_when_flat() {
    let line: Vec<i32> = vec![100; 16];
    let out = filter_line_1d(&line, 8, 10, 30, 0, 8, true);
    assert_eq!(out, line, "a perfectly flat line must be unchanged");
}

#[test]
fn filter_line_smooths_a_step_edge() {
    let mut line = vec![128i32; 32];
    for x in line.iter_mut().take(32).skip(16) {
        *x = 158;
    }
    let out = filter_line_1d(&line, 16, 30, 80, 1, 8, true);
    assert!(
        out[15] > line[15],
        "left sample should move up toward the step"
    );
    assert!(
        out[16] < line[16],
        "right sample should move down toward the step"
    );
    assert!(out[15] <= 158 && out[16] >= 0);
}

#[test]
fn filter_line_noop_when_level_zero() {
    let mut line = vec![0i32; 32];
    for x in line.iter_mut().take(32).skip(16) {
        *x = 255;
    }
    let out = filter_line_1d(&line, 16, 0, 0, 0, 8, true);
    assert_eq!(out, line, "level 0 must leave the line untouched");
}

#[test]
fn narrow_filter_reduces_single_discontinuity() {
    let line = vec![120i32, 120, 120, 120, 136, 136, 136, 136];
    let out = filter_line_1d(&line, 4, 20, 80, 1, 4, true);
    assert!(out[3] > 120, "p0 should move toward the higher q side");
    assert!(out[4] < 136, "q0 should move toward the lower p side");
}

#[test]
fn narrow_filter_leaves_flat_content_far_from_mid_gray_unchanged() {
    let line = vec![162i32; 12];
    let out = filter_line_1d(&line, 6, 4, 16, 0, 4, true);
    assert_eq!(
        out, line,
        "flat content far from 128 must be a no-op regardless of blimit"
    );
}

#[test]
fn narrow_filter_ignores_a_real_edge_beyond_its_four_tap_reach() {
    let mut line = vec![162i32; 16];
    for x in line.iter_mut().skip(10) {
        *x = 131;
    }
    let out = filter_line_1d(&line, 8, 4, 16, 0, 16, true);
    assert_eq!(
        out, line,
        "a real edge outside the narrow filter's tap window must not perturb flat samples near the deblock edge"
    );
}

#[test]
fn filter_mask_matches_spec_per_tap_formula_not_summed_heuristic() {
    let mut line = vec![128i32; 16];
    for x in line.iter_mut().skip(8) {
        *x = 200;
    }
    let out = filter_line_1d(&line, 8, 30, 80, 1, 8, true);
    assert_eq!(
        out, line,
        "a step far exceeding blimit's combined-term threshold must not be filtered"
    );
}

#[test]
fn flat_mask_checks_each_sides_own_flatness_not_cross_boundary_equality() {
    let line = vec![200i32, 200, 100, 100, 100, 100, 200, 200];
    let out = filter_line_1d(&line, 4, 150, 200, 1, 8, true);
    assert_eq!(
        out[1], line[1],
        "p2 must be untouched: flat must be false (p-side isn't flat versus its own p0), so the wide filter must never run"
    );
    assert_eq!(
        out[6], line[6],
        "q2 must be untouched: flat must be false (q-side isn't flat versus its own q0), so the wide filter must never run"
    );
}

#[test]
fn chroma_wide_filter_uses_two_taps_not_three() {
    let line = vec![100i32, 101, 100, 101, 100, 101, 100, 101];
    let out_luma = filter_line_1d(&line, 4, 10, 50, 1, 8, true);
    let out_chroma = filter_line_1d(&line, 4, 10, 50, 1, 8, false);
    assert_ne!(
        out_luma[1], line[1],
        "luma's n=3 wide filter must reach and modify p2"
    );
    assert_eq!(
        out_chroma[1], line[1],
        "chroma's n=2 wide filter must never reach p2"
    );
}

#[test]
fn cdef_passthrough_when_strength_zero() {
    let mut plane = vec![0u8; 64];
    for (i, v) in plane.iter_mut().enumerate() {
        *v = ((i * 37) % 256) as u8;
    }
    let orig = plane.clone();
    cdef_plane_luma(&mut plane, 8, 8, 0, 0, 7);
    assert_eq!(plane, orig, "zero-strength CDEF is a no-op");
}

#[test]
fn cdef_constrain_clamps_to_threshold() {
    assert_eq!(cdef_constrain(100, 0, 7), 0);
    assert_eq!(cdef_constrain(5, 10, 7), 5);
    assert_eq!(cdef_constrain(-5, 10, 7), -5);
    assert!(cdef_constrain(100, 10, 7).abs() <= 10);
}

#[test]
fn cdef_constrain_matches_dav1d_formula_for_a_large_diff() {
    assert_eq!(cdef_constrain(100, 10, 7), 4);
}

#[test]
fn cdef_variance_strength_adjustment_caps_at_twelve() {
    let mut plane = vec![0u8; 64];
    for y in 0..8 {
        for x in 0..8 {
            plane[y * 8 + x] = if x < 4 { 40 } else { 220 };
        }
    }
    let orig = plane.clone();
    cdef_plane_luma(&mut plane, 8, 8, 12, 0, 5);
    for y in 0..8 {
        let left = plane[y * 8 + 3] as i32;
        let right = plane[y * 8 + 4] as i32;
        assert!(
            (left - orig[y * 8 + 3] as i32).abs() < 40,
            "left side of a hard edge should not move drastically"
        );
        assert!(
            (right - orig[y * 8 + 4] as i32).abs() < 40,
            "right side of a hard edge should not move drastically"
        );
    }
}
