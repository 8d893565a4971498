use tpt_kinetix_av1::blocks::{
    chroma_tx_size, max_tx_size_for_bsize, mi_height_log2, mi_width_log2, BLOCK_128X128,
    BLOCK_128X64, BLOCK_16X16, BLOCK_16X4, BLOCK_16X64, BLOCK_32X32, BLOCK_32X8, BLOCK_4X16,
    BLOCK_4X4, BLOCK_4X8, BLOCK_64X128, BLOCK_64X16, BLOCK_64X64, BLOCK_8X32, BLOCK_8X8,
    INTRA_MODE_CONTEXT, MAX_TX_DEPTH_TABLE,
};
use tpt_kinetix_av1::cfl::{apply_cfl_prediction, CflParams};
use tpt_kinetix_av1::coeff::TileCdfs;
use tpt_kinetix_av1::coeff_tables::{
    ADJUSTED_TX_SIZE, DCT_DCT, IDTX, SPLIT_TX_SIZE, TX_16X16, TX_16X4, TX_16X64, TX_16X8,
    TX_32X32, TX_32X8, TX_4X16, TX_4X4, TX_4X8, TX_64X16, TX_64X64, TX_8X16, TX_8X32, TX_8X4,
    TX_8X8, TX_HEIGHT, TX_WIDTH,
};
use tpt_kinetix_av1::entropy::SymbolDecoder;
use tpt_kinetix_av1::error::{Feature, KinetixError, ParseError};
use tpt_kinetix_av1::inter::{RefFrames, INTERP_SWITCHABLE};
use tpt_kinetix_av1::intra_pred::{
    block_borders, predict_dc, predict_intra_block, predict_smooth, predict_smooth_h,
    predict_smooth_v, smooth_weight, BlockBorders, D113_PRED, D135_PRED, D157_PRED, D207_PRED,
    D45_PRED, D67_PRED, DC_PRED, V_PRED,
};
use tpt_kinetix_av1::intra_syntax::TileConfig;
use tpt_kinetix_av1::loop_filter::FrameMeta;
use tpt_kinetix_av1::mode_cdfs::{ModeCdfs, ModeDefaults};
use tpt_kinetix_av1::palette::{ceil_log2, get_palette_color_context};
use tpt_kinetix_av1::quant::dq_denom;
use tpt_kinetix_av1::reconstruct::decode_tile_group;
use tpt_kinetix_av1::tile_decoder::TileDecodeState;
use tpt_kinetix_av1::tile_group::Tables;
use tpt_kinetix_av1::trace::{
    enable_symbol_trace, symbol_trace_len, take_symbol_trace, SymbolTrace,
};
use tpt_kinetix_av1::transform::{brev, cos128, inverse_dct_permute, inverse_transform, sin128};

/// A table that gives every symbol the same share.
fn even<const N: usize>() -> [u16; N] {
    let mut t = [0u16; N];
    let n = N - 1;
    for i in 0..n {
        t[i] = (32768 * (i + 1) / n) as u16;
    }
    t
}

fn coeff_tables() -> [TileCdfs; 4] {
    let t = TileCdfs {
        txb_skip: [[even(); 13]; 5],
        eob_pt_16: [[even(); 2]; 2],
        eob_pt_32: [[even(); 2]; 2],
        eob_pt_64: [[even(); 2]; 2],
        eob_pt_128: [[even(); 2]; 2],
        eob_pt_256: [[even(); 2]; 2],
        eob_pt_512: [even(); 2],
        eob_pt_1024: [even(); 2],
        eob_extra: [[[even(); 9]; 2]; 5],
        coeff_base_eob: [[[even(); 4]; 2]; 5],
        coeff_base: [[[even(); 42]; 2]; 5],
        coeff_br: [[[even(); 21]; 2]; 5],
        dc_sign: [[even(); 3]; 2],
        intra_tx_type_set1: [[even(); 13]; 2],
        intra_tx_type_set2: [[even(); 13]; 3],
    };
    [t; 4]
}

fn mode_tables() -> ModeDefaults {
    ModeDefaults {
        partition_w8: [even(); 4],
        partition_w16: [even(); 4],
        partition_w32: [even(); 4],
        partition_w64: [even(); 4],
        partition_w128: [even(); 4],
        intra_y_mode: [[even(); 5]; 5],
        uv_mode_not_allowed: [even(); 13],
        uv_mode_allowed: [even(); 13],
        tx_8x8: [even(); 3],
        tx_16x16: [even(); 3],
        tx_32x32: [even(); 3],
        tx_64x64: [even(); 3],
        txfm_split: [even(); 21],
        skip: [even(); 3],
        angle_delta: [even(); 8],
        interp_filter: [even(); 16],
    }
}

fn tables() -> Tables {
    Tables { coeff: coeff_tables(), modes: mode_tables() }
}

fn ramp(len: usize, mul: usize, add: usize) -> Vec<u8> {
    (0..len).map(|i| ((i * mul + add) & 0xFF) as u8).collect()
}

type DecodeResult = Result<(Vec<u8>, Vec<u8>, Vec<u8>), KinetixError>;

fn decode(data: &[u8], width: usize, height: usize, qindex: u8) -> DecodeResult {
    decode_traced(data, width, height, qindex, &mut SymbolTrace::new())
}

fn decode_traced(
    data: &[u8],
    width: usize,
    height: usize,
    qindex: u8,
    trace: &mut SymbolTrace,
) -> DecodeResult {
    let uv_w = width / 2;
    let uv_h = height / 2;
    let mut y = vec![128u8; width * height];
    let mut u = vec![128u8; uv_w * uv_h];
    let mut v = vec![128u8; uv_w * uv_h];
    let mut meta = FrameMeta::new(width, height);
    decode_tile_group(
        data,
        width,
        height,
        8,
        qindex,
        false,
        0,
        0,
        1,
        1,
        &mut y,
        &mut u,
        &mut v,
        width,
        uv_w,
        true,
        false,
        false,
        false,
        false,
        false,
        false,
        false,
        true,
        false,
        false,
        0,
        [0u8; 9],
        RefFrames::empty(),
        &mut meta,
        &tables(),
        trace,
    )?;
    Ok((y, u, v))
}

#[test]
fn tile_group_decode_does_not_panic_on_synthetic_input() {
    let _ = decode(&ramp(512, 37, 11), 32, 32, 100);
    let _ = decode(&[], 32, 32, 100);
}

#[test]
fn empty_tile_group_leaves_the_neutral_fill() {
    let (y, u, v) = decode(&[], 32, 32, 100).expect("empty tile group decodes");
    assert_eq!(y.len(), 32 * 32);
    assert_eq!(u.len(), 16 * 16);
    assert_eq!(v.len(), 16 * 16);
}

#[test]
fn directional_prediction_covers_all_modes_without_panicking() {
    for &mode in &[
        D45_PRED, D135_PRED, D113_PRED, D157_PRED, D207_PRED, D67_PRED,
    ] {
        for &size in &[4usize, 8, 16, 32] {
            let top: Vec<i32> = (0..2 * size).map(|i| (i * 7 % 256) as i32).collect();
            let left: Vec<i32> = (0..2 * size).map(|i| (i * 13 % 256) as i32).collect();
            let mut out = vec![0i32; size * size];
            let borders = BlockBorders {
                top,
                left,
                tl: 128,
                have_above: true,
                have_left: true,
            };
            predict_intra_block(mode, &borders, size, size, &mut out, true, true, 0);
            assert!(
                out.iter().all(|&v| (0..=255).contains(&v)),
                "mode {mode} size {size} produced an out-of-range sample"
            );
        }
    }
}

#[test]
fn smooth_weights_match_libaom_tables() {
    assert_eq!(smooth_weight(4, 0), 255);
    assert_eq!(smooth_weight(4, 1), 149);
    assert_eq!(smooth_weight(4, 3), 64);
    assert_eq!(smooth_weight(8, 1), 197);
    assert_eq!(smooth_weight(8, 7), 32);
    assert_eq!(smooth_weight(16, 15), 16);
    assert_eq!(smooth_weight(32, 31), 8);
    assert_eq!(smooth_weight(64, 63), 4);
    assert_eq!(smooth_weight(4, 0), 255);
    assert_eq!(smooth_weight(64, 0), 255);
}

#[test]
fn smooth_predictors_match_libaom_arithmetic() {
    let top = vec![10i32, 20, 30, 40];
    let left = vec![50i32, 60, 70, 80];
    let mut out = vec![0i32; 16];

    predict_smooth_v(&top, &left, 128, 4, 4, &mut out);
    assert_eq!(
        out,
        vec![10, 20, 30, 40, 39, 45, 51, 57, 57, 60, 63, 67, 63, 65, 68, 70,]
    );

    predict_smooth_h(&top, &left, 128, 4, 4, &mut out);
    assert_eq!(
        out,
        vec![50, 46, 43, 43, 60, 52, 47, 45, 70, 57, 50, 48, 80, 63, 53, 50,]
    );

    predict_smooth(&top, &left, 128, 4, 4, &mut out);
    assert_eq!(
        out,
        vec![30, 33, 37, 41, 50, 48, 49, 51, 63, 59, 57, 57, 71, 64, 60, 60,]
    );
    assert!(out.iter().all(|&v| (0..=255).contains(&v)));
}

#[test]
fn cfl_prediction_matches_hand_computed_values_no_subsampling() {
    let luma: Vec<u8> = vec![
        10, 20, 30, 40, 50, 60, 70, 80, 90, 100, 110, 120, 130, 140, 150, 160,
    ];
    let cfl = CflParams {
        luma: &luma,
        luma_stride: 4,
        sub_x: false,
        sub_y: false,
        max_luma_w: 4,
        max_luma_h: 4,
        alpha: 4,
    };
    let mut pred = vec![50i32; 16];
    apply_cfl_prediction(&mut pred, 4, 4, 0, 0, &cfl);
    assert_eq!(pred[0], 50 - 38);
    assert_eq!(pred[4 + 1], 50 - 13);
    assert_eq!(pred[15], 50 + 38);
}

#[test]
fn cfl_prediction_is_a_no_op_on_flat_luma() {
    let luma = vec![77u8; 64];
    let cfl = CflParams {
        luma: &luma,
        luma_stride: 8,
        sub_x: true,
        sub_y: true,
        max_luma_w: 8,
        max_luma_h: 8,
        alpha: -7,
    };
    let mut pred = vec![42i32; 16];
    apply_cfl_prediction(&mut pred, 4, 4, 0, 0, &cfl);
    assert!(pred.iter().all(|&v| v == 42), "got {pred:?}");
}

#[test]
fn ceil_log2_matches_spec_examples() {
    assert_eq!(ceil_log2(0), 0);
    assert_eq!(ceil_log2(1), 0);
    assert_eq!(ceil_log2(2), 1);
    assert_eq!(ceil_log2(3), 2);
    assert_eq!(ceil_log2(4), 2);
    assert_eq!(ceil_log2(5), 3);
    assert_eq!(ceil_log2(8), 3);
    assert_eq!(ceil_log2(9), 4);
}

#[test]
fn get_palette_color_context_matches_spec_worked_example() {
    let map = [1u8, 0, 0, 0];
    let (ctx, order) = get_palette_color_context(&map, 2, 1, 1, 3);
    assert_eq!(ctx, 3, "expected Palette_Color_Context[6] == 3");
    assert_eq!(order[..3], [0, 1, 2], "already sorted, no swap expected");

    let map2 = [2u8, 1, 0, 0];
    let (ctx2, order2) = get_palette_color_context(&map2, 2, 1, 1, 3);
    assert_eq!(ctx2, 1, "expected Palette_Color_Context[8] == 1");
    assert_eq!(order2[..3], [0, 1, 2], "already sorted, no swap expected");
}

#[test]
fn lossless_blocks_select_the_walsh_hadamard_transform() {
    let mut coeffs = vec![0i32; 16];
    coeffs[0] = 64;
    let mut wht = vec![0i32; 16];
    inverse_transform(&coeffs, DCT_DCT, TX_4X4, true, &mut wht);
    let mut dct = vec![0i32; 16];
    inverse_transform(&coeffs, DCT_DCT, TX_4X4, false, &mut dct);
    assert_ne!(wht, dct, "the WHT must not be aliased onto the DCT");

    let mut wht_via_idtx = vec![0i32; 16];
    inverse_transform(&coeffs, IDTX, TX_4X4, true, &mut wht_via_idtx);
    assert_eq!(wht, wht_via_idtx);
}

#[test]
fn cos128_sin128_match_spec_identities() {
    assert_eq!(cos128(0), 4096);
    assert_eq!(sin128(64), 4096);
    assert_eq!(cos128(64), 0);
    assert_eq!(cos128(32), sin128(32));
    assert_eq!(cos128(32), 2896);
    assert_eq!(cos128(0), cos128(256));
    assert_eq!(cos128(128), -4096);
}

#[test]
fn inverse_dct_permutation_is_bit_reversal() {
    for &n in &[2u32, 3, 4, 5, 6] {
        let len = 1usize << n;
        let mut t: Vec<i64> = (0..len as i64).collect();
        inverse_dct_permute(&mut t, n);
        let mut seen = vec![false; len];
        for &v in &t {
            assert!(!seen[v as usize], "permutation must be a bijection");
            seen[v as usize] = true;
        }
        for (i, x) in t.iter().enumerate().take(len) {
            assert_eq!(*x as usize, brev(n, i));
        }
    }
}

#[test]
fn dc_only_inverse_dct_4x4_matches_hand_computed_value() {
    let mut dequant = vec![0i32; 16];
    dequant[0] = 4096;
    let mut residual = vec![0i32; 16];
    inverse_transform(&dequant, DCT_DCT, TX_4X4, false, &mut residual);
    assert_eq!(residual, vec![128; 16]);
}

#[test]
fn dq_denom_matches_spec_for_large_square_transforms() {
    assert_eq!(dq_denom(TX_4X4), 1);
    assert_eq!(dq_denom(TX_8X8), 1);
    assert_eq!(dq_denom(TX_16X16), 1);
    assert_eq!(dq_denom(TX_32X32), 2);
    assert_eq!(dq_denom(TX_64X64), 4);
}

#[test]
fn dc_only_inverse_dct_is_flat_at_every_square_size() {
    for &tx_size in &[TX_4X4, TX_8X8, TX_16X16, TX_32X32, TX_64X64] {
        let n = 4usize << tx_size;
        let mut dequant = vec![0i32; n * n];
        dequant[0] = -1000;
        let mut residual = vec![0i32; n * n];
        inverse_transform(&dequant, DCT_DCT, tx_size, false, &mut residual);
        let first = residual[0];
        assert!(
            residual.iter().all(|&v| v == first),
            "tx_size {tx_size}: DC-only residual must be flat, got {residual:?}"
        );
        assert_ne!(
            first, 0,
            "tx_size {tx_size}: a -1000 DC coefficient must not vanish to 0"
        );
    }
}

#[test]
fn mi_width_height_log2_match_block_size_table() {
    assert_eq!(mi_width_log2(BLOCK_4X4), 0);
    assert_eq!(mi_height_log2(BLOCK_4X4), 0);
    assert_eq!(mi_width_log2(BLOCK_64X64), 4);
    assert_eq!(mi_height_log2(BLOCK_64X64), 4);
    assert_eq!(mi_width_log2(BLOCK_4X8), 0);
    assert_eq!(mi_height_log2(BLOCK_4X8), 1);
}

#[test]
fn split_or_horz_and_vert_never_panic_at_every_partition_bucket() {
    let data = vec![0x55u8; 64];
    for bucket in 0..5 {
        for bsize in [BLOCK_8X8, BLOCK_64X64, BLOCK_128X128] {
            let mut dec = SymbolDecoder::new(&data);
            let mut cdfs = ModeCdfs::new(&mode_tables());
            let _ = cdfs.read_split_or_horz(&mut dec, bucket, 0, bsize);
            let mut dec = SymbolDecoder::new(&data);
            let _ = cdfs.read_split_or_vert(&mut dec, bucket, 0, bsize);
        }
    }
}

#[test]
fn partition_context_matches_spec_left_times_2_plus_above() {
    let y = vec![0u8; 64];
    let u = vec![0u8; 16];
    let v = vec![0u8; 16];
    let meta = FrameMeta::new(2, 2);
    let cfg = TileConfig {
        width: 8,
        height: 8,
        uv_w: 4,
        uv_h: 4,
        y_stride: 8,
        uv_stride: 4,
        qindex: 128,
        tx_mode_select: true,
        reduced_tx_set: false,
        subsampling_x: false,
        subsampling_y: false,
        tile_px_x0: 0,
        tile_px_y0: 0,
        tile_w: 8,
        tile_h: 8,
        monochrome: true,
        segmentation_enabled: false,
        seg_feature_skip: false,
        enable_filter_intra: false,
        enable_intra_edge_filter: false,
        allow_screen_content_tools: false,
        frame_is_intra: true,
        allow_high_precision_mv: false,
        reference_select: false,
        interpolation_filter: INTERP_SWITCHABLE,
        ref_to_slot: [0u8; 9],
    };
    let mut state = TileDecodeState::new(
        &[0u8; 8],
        0,
        cfg,
        y,
        u,
        v,
        meta,
        RefFrames::empty(),
        &coeff_tables(),
        &mode_tables(),
    );
    assert_eq!(state.partition_context(0, 0, BLOCK_8X8), 0);

    state.record_mi_size_context(0, 0, BLOCK_8X8);
    assert_eq!(state.partition_context(0, 2, BLOCK_8X8), 0);
    assert_eq!(state.partition_context(0, 2, BLOCK_16X16), 2);
}

#[test]
fn intra_y_mode_context_uses_above_left_as_independent_axes() {
    assert_eq!(INTRA_MODE_CONTEXT[V_PRED as usize], 1);
    assert_eq!(INTRA_MODE_CONTEXT[D207_PRED as usize], 3);
    let wrong_above = 4;
    let wrong_left = (1usize + 3) / 5;
    assert_ne!((wrong_above, wrong_left), (1, 3));
}

#[test]
fn tx_depth_bucket_selection_matches_max_tx_depth_table() {
    assert_eq!(MAX_TX_DEPTH_TABLE[BLOCK_8X8], 1);
    assert_eq!(MAX_TX_DEPTH_TABLE[BLOCK_16X16], 2);
    assert_eq!(MAX_TX_DEPTH_TABLE[BLOCK_32X32], 3);
    assert_eq!(MAX_TX_DEPTH_TABLE[BLOCK_64X64], 4);
}

#[test]
fn read_tx_size_never_panics_and_stays_in_range() {
    let data = vec![0xA5u8; 32];
    let y = vec![0u8; 64 * 64];
    let u = vec![0u8; 32 * 32];
    let v = vec![0u8; 32 * 32];
    let meta = FrameMeta::new(64, 64);
    let cfg = TileConfig {
        width: 64,
        height: 64,
        uv_w: 32,
        uv_h: 32,
        y_stride: 64,
        uv_stride: 32,
        qindex: 128,
        tx_mode_select: true,
        reduced_tx_set: false,
        subsampling_x: false,
        subsampling_y: false,
        tile_px_x0: 0,
        tile_px_y0: 0,
        tile_w: 64,
        tile_h: 64,
        monochrome: true,
        segmentation_enabled: false,
        seg_feature_skip: false,
        enable_filter_intra: false,
        enable_intra_edge_filter: false,
        allow_screen_content_tools: false,
        frame_is_intra: true,
        allow_high_precision_mv: false,
        reference_select: false,
        interpolation_filter: INTERP_SWITCHABLE,
        ref_to_slot: [0u8; 9],
    };
    let mut state = TileDecodeState::new(
        &data,
        0,
        cfg,
        y,
        u,
        v,
        meta,
        RefFrames::empty(),
        &coeff_tables(),
        &mode_tables(),
    );
    for &bsize in &[BLOCK_8X8, BLOCK_16X16, BLOCK_32X32, BLOCK_64X64] {
        let max_tx = max_tx_size_for_bsize(bsize);
        let tx = state.read_tx_size(bsize, max_tx, 0, 0);
        assert!(
            tx <= max_tx,
            "bsize {bsize}: tx {tx} exceeds max_tx {max_tx}"
        );
    }
}

#[test]
fn max_tx_size_for_bsize_matches_spec_rect_table() {
    assert_eq!(max_tx_size_for_bsize(BLOCK_4X4), TX_4X4);
    assert_eq!(max_tx_size_for_bsize(BLOCK_8X8), TX_8X8);
    assert_eq!(max_tx_size_for_bsize(BLOCK_32X8), TX_32X8);
    assert_eq!(max_tx_size_for_bsize(BLOCK_8X32), TX_8X32);
    assert_eq!(max_tx_size_for_bsize(BLOCK_4X16), TX_4X16);
    assert_eq!(max_tx_size_for_bsize(BLOCK_16X4), TX_16X4);
    assert_eq!(max_tx_size_for_bsize(BLOCK_16X64), TX_16X64);
    assert_eq!(max_tx_size_for_bsize(BLOCK_64X16), TX_64X16);
    assert_eq!(max_tx_size_for_bsize(BLOCK_64X128), TX_64X64);
    assert_eq!(max_tx_size_for_bsize(BLOCK_128X64), TX_64X64);
    assert_eq!(max_tx_size_for_bsize(BLOCK_128X128), TX_64X64);
}

#[test]
fn split_tx_size_terminates_at_4x4_and_never_grows() {
    for tx in 0..19 {
        let mut cur = tx;
        let mut steps = 0;
        let start_area = TX_WIDTH[cur] * TX_HEIGHT[cur];
        let mut prev_area = start_area;
        loop {
            let next = SPLIT_TX_SIZE[cur];
            let next_area = TX_WIDTH[next] * TX_HEIGHT[next];
            assert!(
                next_area <= prev_area,
                "tx {tx}: Split_Tx_Size must never grow the transform (step {steps})"
            );
            if next == cur {
                break;
            }
            cur = next;
            prev_area = next_area;
            steps += 1;
            assert!(steps < 10, "tx {tx}: Split_Tx_Size did not converge");
        }
        assert_eq!(
            cur, TX_4X4,
            "tx {tx}: Split_Tx_Size must bottom out at TX_4X4"
        );
    }
}

#[test]
fn inverse_transform_dc_only_is_flat_at_rectangular_sizes() {
    for &tx_size in &[
        TX_4X8,
        TX_8X4,
        TX_8X16,
        TX_16X8,
        TX_32X8,
        TX_8X32,
        TX_16X64,
        TX_64X16,
    ] {
        let w = TX_WIDTH[tx_size];
        let h = TX_HEIGHT[tx_size];
        let adj = ADJUSTED_TX_SIZE[tx_size];
        let adj_w = TX_WIDTH[adj];
        let adj_h = TX_HEIGHT[adj];
        let mut dequant = vec![0i32; adj_w * adj_h];
        dequant[0] = -1000;
        let mut residual = vec![0i32; w * h];
        inverse_transform(&dequant, DCT_DCT, tx_size, false, &mut residual);
        assert_eq!(residual.len(), w * h);
        let first = residual[0];
        assert!(
            residual.iter().all(|&v| v == first),
            "tx_size {tx_size} ({w}x{h}): DC-only residual must be flat, got {residual:?}"
        );
        assert_ne!(
            first, 0,
            "tx_size {tx_size} ({w}x{h}): a -1000 DC coefficient must not vanish to 0"
        );
    }
}

#[test]
fn chroma_tx_size_matches_spec_for_common_bsizes() {
    assert_eq!(chroma_tx_size(BLOCK_32X8, false, false), TX_32X8);
    assert_eq!(chroma_tx_size(BLOCK_8X8, false, false), TX_8X8);
    assert_eq!(chroma_tx_size(BLOCK_32X8, true, true), TX_16X4);
    assert_eq!(chroma_tx_size(BLOCK_8X8, true, true), TX_4X4);
    assert_eq!(chroma_tx_size(BLOCK_64X64, true, true), TX_32X32);
    assert_eq!(chroma_tx_size(BLOCK_128X128, true, true), TX_32X32);
}

#[test]
fn predict_dc_matches_spec_combined_average_for_rectangular_block() {
    let top = vec![100i32; 8];
    let left = vec![50i32; 4];
    let mut out = vec![0i32; 8 * 4];
    predict_dc(&top, &left, 8, 4, true, true, &mut out);
    assert!(out.iter().all(|&v| v == 83), "got {out:?}");
}

#[test]
fn predict_dc_asymmetric_cases_average_only_the_available_side() {
    let top: Vec<i32> = (0..8).map(|i| 100 + i).collect();
    let left: Vec<i32> = (0..4).map(|i| 40 + 2 * i).collect();

    let mut out = vec![0i32; 8 * 4];
    predict_dc(&top, &left, 8, 4, false, true, &mut out);
    assert!(out.iter().all(|&v| v == 43), "left-only: got {out:?}");

    let mut out = vec![0i32; 8 * 4];
    predict_dc(&top, &left, 8, 4, true, false, &mut out);
    assert!(out.iter().all(|&v| v == 104), "above-only: got {out:?}");

    let mut out = vec![0i32; 8 * 4];
    predict_dc(&top, &left, 8, 4, false, false, &mut out);
    assert!(out.iter().all(|&v| v == 128), "neither: got {out:?}");

    let mut both = vec![0i32; 8 * 4];
    predict_dc(&top, &left, 8, 4, true, true, &mut both);
    assert_eq!(both[0], (828 + 172 + 6) / 12);
    assert!(both[0] != 43 && both[0] != 104 && both[0] != 128);
}

#[test]
fn predict_dc_left_only_rounds_like_round2_not_truncation() {
    let left = vec![10i32, 11, 11, 11];
    let mut out = vec![0i32; 4 * 4];
    predict_dc(&[], &left, 4, 4, false, true, &mut out);
    assert!(out.iter().all(|&v| v == 11), "got {out:?}");
}

fn borders_fixture(w: usize, h: usize) -> Vec<u8> {
    (0..w * h).map(|i| (i % 251) as u8).collect()
}

#[test]
fn block_borders_tracks_availability_from_tile_local_position() {
    let (w, h) = (16usize, 16usize);
    let plane = borders_fixture(w, h);

    let b = block_borders(&plane, w, w, h, 4, 4, 0, 0);
    assert!(!b.have_above && !b.have_left);
    let b = block_borders(&plane, w, w, h, 4, 4, 4, 4);
    assert!(b.have_above && b.have_left);
    let b = block_borders(&plane, w, w, h, 4, 4, 0, 4);
    assert!(b.have_above && !b.have_left);
    let b = block_borders(&plane, w, w, h, 4, 4, 4, 0);
    assert!(!b.have_above && b.have_left);
}

#[test]
fn block_borders_substitute_values_match_spec_7_11_2_1() {
    let (w, h) = (16usize, 16usize);
    let plane = borders_fixture(w, h);

    let b = block_borders(&plane, w, w, h, 4, 4, 0, 0);
    assert_eq!(b.top, vec![127; 4]);
    assert_eq!(b.left, vec![129; 4]);
    assert_eq!(b.tl, 128);

    let b = block_borders(&plane, w, w, h, 4, 4, 8, 0);
    let expected = i32::from(plane[7]);
    assert_eq!(b.top, vec![expected; 4]);
    assert_eq!(b.tl, expected);
    assert_eq!(
        b.left,
        (0..4)
            .map(|i| i32::from(plane[i * w + 7]))
            .collect::<Vec<_>>()
    );

    let b = block_borders(&plane, w, w, h, 4, 4, 0, 8);
    let expected = i32::from(plane[7 * w]);
    assert_eq!(b.left, vec![expected; 4]);
    assert_eq!(b.tl, expected);
    assert_eq!(
        b.top,
        (0..4)
            .map(|i| i32::from(plane[7 * w + i]))
            .collect::<Vec<_>>()
    );

    let b = block_borders(&plane, w, w, h, 4, 4, 8, 8);
    assert_eq!(b.tl, i32::from(plane[7 * w + 7]));
}

#[test]
fn block_borders_replicate_the_last_sample_past_the_frame_edge() {
    let (w, h) = (12usize, 12usize);
    let plane = borders_fixture(w, h);

    let b = block_borders(&plane, w, w, h, 8, 8, 8, 8);
    let above_row = 7 * w;
    let expected_top: Vec<i32> = (0..8)
        .map(|i| i32::from(plane[above_row + (8 + i).min(11)]))
        .collect();
    assert_eq!(b.top, expected_top);
    assert!(
        b.top[4..].iter().all(|&v| v == expected_top[3]),
        "out-of-frame tail must replicate, got {:?}",
        b.top
    );
    let expected_left: Vec<i32> = (0..8)
        .map(|i| i32::from(plane[(8 + i).min(11) * w + 7]))
        .collect();
    assert_eq!(b.left, expected_left);
}

#[test]
fn dc_pred_via_predict_intra_block_uses_the_border_availability_flags() {
    let borders = BlockBorders {
        top: vec![200; 8],
        left: vec![200; 8],
        tl: 200,
        have_above: true,
        have_left: false,
    };
    let mut out = vec![0i32; 8 * 8];
    predict_intra_block(DC_PRED, &borders, 8, 8, &mut out, true, true, 0);
    assert!(out.iter().all(|&v| v == 200), "got {out:?}");

    let borders = BlockBorders {
        top: vec![127; 8],
        left: vec![129; 8],
        tl: 128,
        have_above: false,
        have_left: false,
    };
    let mut out = vec![0i32; 8 * 8];
    predict_intra_block(DC_PRED, &borders, 8, 8, &mut out, true, true, 0);
    assert!(out.iter().all(|&v| v == 128), "got {out:?}");
}

#[test]
fn a_transform_without_a_scan_fails_the_tile() {
    assert_eq!(
        decode(&[0; 8], 32, 32, 100).err(),
        Some(KinetixError::Unsupported(Feature::TransformSize))
    );
    assert!(decode(&[0; 8], 16, 16, 100).is_ok());
}

#[test]
fn a_tile_group_that_ends_within_its_header_fails() {
    let mut y = vec![128u8; 64 * 64];
    let mut u = vec![128u8; 32 * 32];
    let mut v = vec![128u8; 32 * 32];
    let mut meta = FrameMeta::new(64, 64);
    let r = decode_tile_group(
        &[],
        128,
        64,
        8,
        100,
        false,
        1,
        0,
        2,
        1,
        &mut y,
        &mut u,
        &mut v,
        64,
        32,
        true,
        false,
        false,
        false,
        false,
        false,
        false,
        false,
        true,
        false,
        false,
        0,
        [0u8; 9],
        RefFrames::empty(),
        &mut meta,
        &tables(),
        &mut SymbolTrace::new(),
    );
    assert_eq!(r, Err(KinetixError::Parse(ParseError::Truncated)));
    assert_eq!(y, vec![128u8; 64 * 64]);
}

#[test]
fn a_tile_records_its_symbols() {
    let data = ramp(64, 37, 11);
    let plain = decode(&data, 16, 16, 100).unwrap();
    let mut off = SymbolTrace::new();
    assert_eq!(decode_traced(&data, 16, 16, 100, &mut off).unwrap(), plain);
    assert_eq!(symbol_trace_len(&off), 0);
    let mut on = SymbolTrace::new();
    enable_symbol_trace(&mut on);
    assert_eq!(decode_traced(&data, 16, 16, 100, &mut on).unwrap(), plain);
    let first = symbol_trace_len(&on);
    assert!(first > 0);
    assert_eq!(decode_traced(&data, 16, 16, 100, &mut on).unwrap(), plain);
    let entries = take_symbol_trace(&mut on);
    assert_eq!(entries.len(), 2 * first);
    for (i, e) in entries.iter().enumerate() {
        assert_eq!(e.seq, i);
        assert!(e.value < e.n_symbols);
        assert!(e.bit_pos_before <= e.bit_pos_after);
        let again = &entries[(i + first) % (2 * first)];
        assert_eq!((e.n_symbols, e.value), (again.n_symbols, again.value));
    }
    assert_eq!(entries[0].bit_pos_before, 15);
}
