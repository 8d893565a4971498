use tpt_kinetix_av1::bits::BitReader;
use tpt_kinetix_av1::blocks::{
    bsize_from_wh, get_plane_residual_size, mi_height_log2, mi_width_log2, split_into_subblocks,
    BLOCK_HEIGHT, BLOCK_WIDTH, PARTITION_HORZ, PARTITION_HORZ_4, PARTITION_NONE, PARTITION_SPLIT,
    PARTITION_VERT, PARTITION_VERT_4,
};
use tpt_kinetix_av1::capture::{capture_block, hex_encode, parse_capture_target};
use tpt_kinetix_av1::cdef::{cdef_constrain, cdef_plane_chroma, cdef_plane_luma};
use tpt_kinetix_av1::coeff::{read_coeffs, CoeffContexts, TileCdfs, TxBlockCtx};
use tpt_kinetix_av1::coeff_tables::{TX_16X16, TX_32X32, TX_4X4};
use tpt_kinetix_av1::debug_frame_seq::{current, next, FrameSeq};
use tpt_kinetix_av1::entropy::SymbolDecoder;
use tpt_kinetix_av1::error::{Feature, KinetixError, ParseError};
use tpt_kinetix_av1::frame::{av1_quant_base, FrameType};
use tpt_kinetix_av1::inter::{subpel_kernel, Mv};
use tpt_kinetix_av1::intra_pred::{predict_filter_intra, predict_paeth};
use tpt_kinetix_av1::loop_filter::{filter_line_1d, FrameMeta};
use tpt_kinetix_av1::obu::{parse_obu_sequence, read_leb128, Obu, ObuType};
use tpt_kinetix_av1::palette_colors::merge_colors;
use tpt_kinetix_av1::quant::{dequantize_coeffs, dq_denom};
use tpt_kinetix_av1::tile_group::tile_samples;
use tpt_kinetix_av1::trace::{
    enable_symbol_trace, mark_block, symbol_trace_enabled, symbol_trace_len,
    symbol_trace_len_now, symbol_trace_values, take_block_markers, take_symbol_trace, SymbolTrace,
};
use tpt_kinetix_av1::transform::{brev, inverse_transform};

/// A table that gives every symbol the same share.
fn even<const N: usize>() -> [u16; N] {
    let mut t = [0u16; N];
    let n = N - 1;
    for i in 0..n {
        t[i] = (32768 * (i + 1) / n) as u16;
    }
    t
}

fn coeff_tables() -> [TileCdfs; 4] {
    let t = TileCdfs {
        txb_skip: [[even(); 13]; 5],
        eob_pt_16: [[even(); 2]; 2],
        eob_pt_32: [[even(); 2]; 2],
        eob_pt_64: [[even(); 2]; 2],
        eob_pt_128: [[even(); 2]; 2],
        eob_pt_256: [[even(); 2]; 2],
        eob_pt_512: [even(); 2],
        eob_pt_1024: [even(); 2],
        eob_extra: [[[even(); 9]; 2]; 5],
        coeff_base_eob: [[[even(); 4]; 2]; 5],
        coeff_base: [[[even(); 42]; 2]; 5],
        coeff_br: [[[even(); 21]; 2]; 5],
        dc_sign: [[even(); 3]; 2],
        intra_tx_type_set1: [[even(); 13]; 2],
        intra_tx_type_set2: [[even(); 13]; 3],
    };
    [t; 4]
}

fn ramp(len: usize, mul: usize, add: usize) -> Vec<u8> {
    (0..len).map(|i| ((i * mul + add) & 0xFF) as u8).collect()
}

fn block(tx_size: usize, intra_dir: usize) -> TxBlockCtx {
    TxBlockCtx {
        plane: 0,
        tx_size,
        x4: 0,
        y4: 0,
        max_x4: 16,
        max_y4: 16,
        block_w: 16,
        block_h: 16,
        intra_dir,
        uv_mode: 0,
        qindex_positive: true,
        reduced_tx_set: false,
        lossless: false,
    }
}

fn coeff_error(tables: &[TileCdfs; 4], data: &[u8], b: &TxBlockCtx) -> Option<KinetixError> {
    let mut dec = SymbolDecoder::new(data);
    let mut cdfs = TileCdfs::new(100, tables);
    let mut ctxs = CoeffContexts::new(16, 16);
    read_coeffs(&mut dec, &mut cdfs, &mut ctxs, b).err()
}

#[test]
fn every_coefficient_error_has_an_input() {
    let even_tables = coeff_tables();
    let zeros = [0u8; 64];
    assert_eq!(
        coeff_error(&even_tables, &zeros, &block(19, 0)),
        Some(KinetixError::Parse(ParseError::TxSizeRange))
    );
    let mut plane = block(TX_4X4, 0);
    plane.plane = 3;
    assert_eq!(
        coeff_error(&even_tables, &zeros, &plane),
        Some(KinetixError::Parse(ParseError::PlaneRange))
    );
    assert_eq!(
        coeff_error(&even_tables, &zeros, &block(TX_4X4, 13)),
        Some(KinetixError::Parse(ParseError::TxTypeTable))
    );
    assert_eq!(
        coeff_error(&even_tables, &zeros, &block(TX_32X32, 0)),
        Some(KinetixError::Unsupported(Feature::TransformSize))
    );
    assert_eq!(
        coeff_error(&even_tables, &[0x16, 0x8B, 0x05, 0xA0], &block(TX_4X4, 0)),
        Some(KinetixError::Parse(ParseError::GolombLength))
    );
}

#[test]
fn one_coefficient_of_level_one() {
    let zeros = [0u8; 64];
    let mut dec = SymbolDecoder::new(&zeros);
    let mut cdfs = TileCdfs::new(100, &coeff_tables());
    let mut ctxs = CoeffContexts::new(16, 16);
    let b = read_coeffs(&mut dec, &mut cdfs, &mut ctxs, &block(TX_4X4, 0)).unwrap();
    assert_eq!(b.eob, 1);
    assert_eq!(b.quant.iter().filter(|v| **v != 0).count(), 1);
    assert_eq!(b.quant[0], 1);
    assert_eq!(ctxs.above_level[0][0], 1);
    assert_eq!(ctxs.left_level[0][0], 1);
    ctxs.clear_above();
    ctxs.clear_left();
    assert!(ctxs.above_level.iter().all(|r| r.iter().all(|v| *v == 0)));
    assert!(ctxs.left_level.iter().all(|r| r.iter().all(|v| *v == 0)));
}

#[test]
fn quantizer_buckets_end_at_their_limits() {
    for (q, bucket) in [(0u8, 0), (20, 0), (21, 1), (60, 1), (61, 2), (120, 2), (121, 3), (255, 3)] {
        assert_eq!(TileCdfs::q_context(q), bucket);
    }
}

#[test]
fn data_may_be_padded_with_zero_bytes() {
    let short = ramp(5, 91, 17);
    let mut long = short.clone();
    long.extend_from_slice(&[0; 9]);
    let mut a = SymbolDecoder::new(&short);
    let mut b = SymbolDecoder::new(&long);
    let mut ca: [u16; 6] = even();
    let mut cb = ca;
    for _ in 0..60 {
        assert_eq!(a.read_symbol(&mut ca), b.read_symbol(&mut cb));
    }
    assert_eq!(ca, cb);
}

#[test]
fn tables_stay_sorted_and_whole() {
    let data = ramp(64, 37, 11);
    let mut dec = SymbolDecoder::new(&data);
    let mut cdf: [u16; 9] = even();
    for _ in 0..100 {
        let s = dec.read_symbol(&mut cdf);
        assert!(s < 8);
        assert!(cdf[..8].windows(2).all(|w| w[0] <= w[1]));
        assert_eq!(cdf[7], 32768);
    }
    assert_eq!(cdf[8], 32);
}

#[test]
fn positions_of_a_decoder() {
    let data = [0xA5u8, 0x3C, 0x81, 0xF0];
    let dec = SymbolDecoder::new_with_bit_offset(&data, 8);
    assert_eq!(dec.bit_position(), 23);
    assert_eq!(dec.dbg_bit_pos(), (23, 9, 32));
    assert_eq!(dec.bytes_from(2), vec![0x81, 0xF0]);
    assert_eq!(dec.bytes_from(4), Vec::<u8>::new());
}

#[test]
fn positions_and_bits_left_add_up() {
    let data = ramp(6, 91, 17);
    let mut dec = SymbolDecoder::new(&data);
    let mut cdf: [u16; 6] = even();
    let mut last = dec.bit_position();
    for _ in 0..60 {
        let (pos, left, all) = dec.dbg_bit_pos();
        assert_eq!(all, 48);
        assert!(last <= pos && pos <= all);
        assert_eq!(pos as i64 + left.max(0), all as i64);
        last = pos;
        dec.read_symbol(&mut cdf);
    }
    assert_eq!(last, 48);
}

#[test]
fn a_decoder_may_start_behind_a_byte() {
    let data = ramp(24, 91, 17);
    for k in [0usize, 1, 5] {
        let mut a = SymbolDecoder::new_with_bit_offset(&data, 8 * k);
        let mut b = SymbolDecoder::new(&data[k..]);
        let mut ca: [u16; 6] = even();
        let mut cb = ca;
        for _ in 0..40 {
            assert_eq!(a.bit_position(), b.bit_position() + 8 * k);
            assert_eq!(a.read_symbol(&mut ca), b.read_symbol(&mut cb));
            assert_eq!(a.read_literal(3), b.read_literal(3));
        }
        assert_eq!(ca, cb);
    }
}

#[test]
fn tables_depend_on_the_bucket_alone() {
    let tables = coeff_tables();
    let a = TileCdfs::new(21, &tables);
    let b = TileCdfs::new(60, &tables);
    assert_eq!(a.coeff_base, b.coeff_base);
    for q in [0u8, 60, 120, 255] {
        let t = TileCdfs::new(q, &tables);
        assert_eq!(t.intra_tx_type_set1, a.intra_tx_type_set1);
        assert_eq!(t.intra_tx_type_set2, a.intra_tx_type_set2);
    }
}

#[test]
fn a_trace_numbers_its_reads() {
    let data = ramp(16, 37, 11);
    let mut dec = SymbolDecoder::new(&data);
    let mut cdf: [u16; 5] = even();
    assert!(!symbol_trace_enabled(dec.trace()));
    dec.read_symbol(&mut cdf);
    assert_eq!(symbol_trace_len(dec.trace()), 0);
    let mut t = SymbolTrace::new();
    mark_block(&mut t, || panic!("no label is made while the trace is off"));

    enable_symbol_trace(&mut t);
    assert!(symbol_trace_enabled(&t));
    let mut plain = SymbolDecoder::new(&data);
    let mut plain_cdf: [u16; 5] = even();
    plain.read_symbol(&mut plain_cdf);
    let mut values = Vec::new();
    for i in 0..4 {
        if i == 2 {
            mark_block(&mut t, || String::from("second half"));
        }
        dec.swap_trace(&mut t);
        values.push(dec.read_symbol(&mut cdf));
        dec.swap_trace(&mut t);
        assert_eq!(values[i], plain.read_symbol(&mut plain_cdf));
    }
    assert_eq!(symbol_trace_len_now(&t), 4);
    assert_eq!(symbol_trace_values(&t), values);
    let markers = take_block_markers(&mut t);
    assert_eq!(markers.len(), 1);
    assert_eq!((markers[0].trace_seq, markers[0].label.as_str()), (2, "second half"));
    let entries = take_symbol_trace(&mut t);
    for (i, e) in entries.iter().enumerate() {
        assert_eq!((e.seq, e.n_symbols, e.value), (i, 4, values[i]));
    }
    assert!(entries.windows(2).all(|w| w[0].bit_pos_after == w[1].bit_pos_before));
    assert!(!symbol_trace_enabled(&t));
    assert!(take_symbol_trace(&mut t).is_empty());
    assert!(take_block_markers(&mut t).is_empty());
}

#[test]
fn labels_stay_until_the_next_frame() {
    let mut s = FrameSeq::new();
    assert_eq!(current(&s), 0);
    assert_eq!(next(&mut s), 0);
    assert_eq!(current(&s), 0);
    assert_eq!(next(&mut s), 1);
    assert_eq!(current(&s), 1);
    assert_eq!(current(&s), 1);
}

#[test]
fn capture_targets_are_three_sizes() {
    assert_eq!(parse_capture_target(b"0:32:8"), Some((0, 32, 8)));
    assert_eq!(parse_capture_target(b"+2:007:1:rest"), Some((2, 7, 1)));
    for text in ["", "1:2", "1:2:", "a:2:3", "1:-2:3", "1::3", "+:1:2", "1 :2:3"] {
        assert_eq!(parse_capture_target(text.as_bytes()), None);
    }
    assert_eq!(parse_capture_target(b"0:99999999999999999999:0"), None);
}

#[test]
fn only_the_block_that_is_asked_for_is_captured() {
    let data = ramp(16, 37, 11);
    let mut dec = SymbolDecoder::new(&data);
    let mut cdf: [u16; 5] = even();
    let mut t = SymbolTrace::new();
    enable_symbol_trace(&mut t);
    dec.swap_trace(&mut t);
    for _ in 0..3 {
        dec.read_symbol(&mut cdf);
    }
    let mut b = block(TX_4X4, 0);
    b.x4 = 2;
    b.y4 = 1;
    let c = capture_block((0, 8, 4), &dec, &b, 20, 1).expect("the block is captured");
    assert_eq!(c.data, data[2..].to_vec());
    assert_eq!(c.reference_values, symbol_trace_values(dec.trace())[1..].to_vec());
    assert!(capture_block((0, 8, 8), &dec, &b, 20, 1).is_none());
    assert!(capture_block((1, 8, 4), &dec, &b, 20, 1).is_none());
    let behind = capture_block((0, 8, 4), &dec, &b, 400, 9).unwrap();
    assert!(behind.data.is_empty() && behind.reference_values.is_empty());
}

#[test]
fn bytes_in_hexadecimal() {
    assert_eq!(hex_encode(&[0x00, 0x0f, 0xa5, 0xff]), b"000fa5ff".to_vec());
}

#[test]
fn units_follow_each_other() {
    let a = [0x12u8, 0x00];
    let b = [0x0Au8, 0x02, 0x11, 0x22];
    let last = [0x30u8, 0x77];
    let data = [&a[..], &b[..], &last[..]].concat();
    let units = parse_obu_sequence(&data);
    assert_eq!(units.len(), 3);
    assert_eq!(units[1].obu_type, ObuType::SequenceHeader);
    assert_eq!(units[1].payload, vec![0x11, 0x22]);
    assert_eq!(units[2].obu_type, ObuType::Frame);
    assert!(!units[2].has_size_field);
    assert_eq!(units[2].payload, vec![0x77]);
}

#[test]
fn units_that_do_not_parse() {
    assert!(Obu::parse(&[]).is_none());
    assert!(Obu::parse(&[0x80, 0x00]).is_none());
    assert!(Obu::parse(&[0x12]).is_none());
    assert!(Obu::parse(&[0x12, 0x05, 0x00]).is_none());
    assert!(Obu::parse(&[0x16]).is_none());
    let (o, n) = Obu::parse(&[0x16, 0x48, 0x01, 0xAB, 0xCD]).unwrap();
    assert!(o.extension_flag);
    assert_eq!((o.payload, n), (vec![0xAB], 4));
}

#[test]
fn numbers_that_do_not_end() {
    assert!(read_leb128(&[0x80; 8]).is_none());
    assert!(read_leb128(&[0x80, 0x80]).is_none());
    assert_eq!(read_leb128(&[0xFF, 0x7F]), Some((16383, 2)));
}

#[test]
fn unit_and_frame_kinds() {
    let kinds = [
        (1, ObuType::SequenceHeader),
        (2, ObuType::TemporalDelimiter),
        (3, ObuType::FrameHeader),
        (4, ObuType::TileGroup),
        (5, ObuType::Metadata),
        (6, ObuType::Frame),
        (7, ObuType::RedundantFrameHeader),
        (8, ObuType::TileList),
        (9, ObuType::Reserved),
        (15, ObuType::Padding),
        (0, ObuType::Reserved),
    ];
    for (v, k) in kinds {
        assert_eq!(ObuType::from_u8(v), k);
    }
    assert!(FrameType::from_u8(0).is_intra());
    assert!(!FrameType::from_u8(1).is_intra());
    assert!(FrameType::from_u8(2).is_intra());
    assert!(!FrameType::from_u8(3).is_intra());
}

#[test]
fn bits_are_read_from_the_most_significant() {
    let mut br = BitReader::new(&[0b1010_0000, 0xFF]);
    assert_eq!(br.read_bits(3), Some(5));
    assert_eq!(br.read_bits(9), Some(15));
    assert_eq!(br.read_bits(5), None);
}

#[test]
fn block_sizes_have_their_logarithms() {
    for b in 0..22 {
        assert_eq!(4usize << mi_width_log2(b), BLOCK_WIDTH[b]);
        assert_eq!(4usize << mi_height_log2(b), BLOCK_HEIGHT[b]);
        assert_eq!(bsize_from_wh(BLOCK_WIDTH[b], BLOCK_HEIGHT[b]), b);
        let c = get_plane_residual_size(b, true, true);
        if BLOCK_WIDTH[b] >= 8 && BLOCK_HEIGHT[b] >= 8 {
            assert_eq!((BLOCK_WIDTH[c], BLOCK_HEIGHT[c]), (BLOCK_WIDTH[b] / 2, BLOCK_HEIGHT[b] / 2));
        }
    }
    assert_eq!(bsize_from_wh(64, 48), bsize_from_wh(8, 8));
}

#[test]
fn parts_of_a_block_take_every_unit_once() {
    let plain = [PARTITION_NONE, PARTITION_HORZ, PARTITION_VERT, PARTITION_SPLIT];
    let strips = [PARTITION_HORZ_4, PARTITION_VERT_4];
    for side in [2usize, 4, 8, 16, 32] {
        let four = if (4..=16).contains(&side) { &strips[..] } else { &[] };
        for p in plain.iter().chain(four) {
            let parts = split_into_subblocks(side, side, *p);
            for r in 0..side {
                for c in 0..side {
                    let n = parts
                        .iter()
                        .filter(|s| {
                            (s.row..s.row + BLOCK_HEIGHT[s.bsize] / 4).contains(&r)
                                && (s.col..s.col + BLOCK_WIDTH[s.bsize] / 4).contains(&c)
                        })
                        .count();
                    assert_eq!(n, 1, "side {side} partition {p}");
                }
            }
        }
    }
}

#[test]
fn kernels_add_up() {
    for kind in 0..4u8 {
        for frac in 0..8 {
            assert_eq!(subpel_kernel(kind, frac).iter().sum::<i32>(), 128);
        }
    }
}

#[test]
fn vectors_of_chroma_and_other_distances() {
    let v = Mv::new(9, -6);
    let c = v.scaled_chroma();
    assert_eq!((c.row, c.col), (4, -4));
    let p = v.projection(1, 1);
    assert_eq!((p.row, p.col), (9, -6));
}

#[test]
fn lines_move_only_within_reach() {
    let mut line: Vec<i32> = (0..32).map(|i| if i < 16 { 100 } else { 104 }).collect();
    line[3] = 90;
    line[29] = 120;
    for (size, luma, reach) in [(4, true, 2), (8, true, 3), (8, false, 2), (16, true, 6)] {
        let out = filter_line_1d(&line, 16, 20, 60, 2, size, luma);
        for i in 0..32 {
            if i + reach < 16 || i >= 16 + reach {
                assert_eq!(out[i], line[i], "size {size} sample {i}");
            }
        }
        assert_ne!(out, line);
    }
}

#[test]
fn records_keep_the_largest_transform() {
    let mut meta = FrameMeta::new(16, 16);
    meta.record_luma(1, 0, 8, 16, true);
    meta.record_luma(1, 0, 16, 4, false);
    assert_eq!((meta.luma_tx_w[1], meta.luma_tx_h[1]), (16, 16));
    assert!(!meta.luma_skip[1]);
    let mut frame = FrameMeta::new(32, 32);
    frame.merge_tile(&meta, 1, 1);
    assert_eq!(frame.luma_tx_w.iter().filter(|w| **w == 16).count(), 1);
    assert_eq!(frame.luma_tx_w[frame.w8 + 2], 16);
}

#[test]
fn records_may_come_in_any_order() {
    let text = |m: &FrameMeta| format!("{m:?}");
    let mut a = FrameMeta::new(32, 16);
    a.record_luma(1, 0, 8, 16, true);
    a.record_luma(2, 1, 16, 8, false);
    let mut b = FrameMeta::new(32, 16);
    b.record_luma(2, 1, 16, 8, false);
    b.record_luma(1, 0, 8, 16, true);
    assert_eq!(text(&a), text(&b));
    b.record_luma(1, 0, 8, 16, true);
    assert_eq!(text(&a), text(&b));

    let mut left = FrameMeta::new(16, 16);
    left.record_luma(0, 0, 8, 8, false);
    let mut right = FrameMeta::new(16, 16);
    right.record_luma(1, 1, 16, 16, true);
    let mut x = FrameMeta::new(32, 16);
    x.merge_tile(&left, 0, 0);
    x.merge_tile(&right, 2, 0);
    let mut y = FrameMeta::new(32, 16);
    y.merge_tile(&right, 2, 0);
    y.merge_tile(&left, 0, 0);
    assert_eq!(text(&x), text(&y));
    y.merge_tile(&left, 0, 0);
    assert_eq!(text(&x), text(&y));
    assert_eq!(x.luma_tx_w[0], 8);
    assert_eq!(x.luma_tx_w[x.w8 + 3], 16);
}

#[test]
fn short_lines_are_left_or_filtered() {
    let line = vec![100, 100, 104, 104];
    assert_eq!(filter_line_1d(&line, 2, 20, 60, 2, 4, true).len(), 4);
    assert_eq!(FrameMeta::new(0, 9).luma_tx_w.len(), 0);
}

#[test]
fn differences_act_at_most_by_the_threshold() {
    for diff in -255..=255 {
        for threshold in 0..16 {
            let r = cdef_constrain(diff, threshold, 5);
            assert!(r.abs() <= threshold && r.abs() <= diff.abs());
            assert!(r * diff >= 0);
        }
    }
}

#[test]
fn enhancement_stays_between_the_samples() {
    let plane: Vec<u8> = ramp(16 * 16, 37, 11).iter().map(|v| 60 + v % 90).collect();
    let (lo, hi) = (*plane.iter().min().unwrap(), *plane.iter().max().unwrap());
    let mut luma = plane.clone();
    cdef_plane_luma(&mut luma, 16, 16, 9, 2, 5);
    assert!(luma.iter().all(|v| (lo..=hi).contains(v)));
    let mut chroma = plane.clone();
    cdef_plane_chroma(&mut chroma, 16, 16, true, true, 0, 0, 5);
    assert_eq!(chroma, plane);
}

#[test]
fn reversed_bits_reversed() {
    for n in 0..7u32 {
        for x in 0..(1usize << n) {
            assert_eq!(brev(n, brev(n, x)), x);
        }
    }
    assert_eq!(brev(4, 0b0011), 0b1100);
}

#[test]
fn one_first_coefficient_makes_a_flat_block() {
    let mut dq = vec![0i32; 256];
    dq[0] = 777;
    let mut out = vec![0i32; 256];
    inverse_transform(&dq, 0, TX_16X16, false, &mut out);
    assert!(out.iter().all(|v| *v == out[0]));
}

#[test]
fn tiles_cover_a_frame_without_overlap() {
    for (size, use_128, n) in [(200usize, false, 4usize), (1000, true, 3), (64, false, 8)] {
        let mut at = 0;
        for i in 0..n {
            let (a, b) = tile_samples(size, use_128, i, n);
            assert!(a == at || a == b);
            if a < b {
                at = b;
            }
        }
        assert_eq!(at, size);
    }
    assert_eq!(tile_samples(200, false, 1, 4), (64, 128));
}

#[test]
fn merged_palettes_are_sorted_without_repetition() {
    let m = merge_colors(&vec![10, 20, 20, 40], &vec![5, 20, 50]);
    assert_eq!(m, vec![5, 10, 20, 40, 50]);
    assert_eq!(merge_colors(&vec![], &vec![]), Vec::<i32>::new());
}

#[test]
fn quantizers_scale_levels() {
    assert_eq!(av1_quant_base(0, false), 8);
    assert_eq!(av1_quant_base(100, true), 4 * 198);
    let q = dequantize_coeffs(&[0, 2, -3, 0], TX_4X4, 100);
    assert_eq!(q[0], 0);
    assert_eq!(q[1] * -3, q[2] * 2);
    assert_eq!(dq_denom(TX_32X32), 2);
}

#[test]
fn paeth_takes_the_nearest_neighbour() {
    let mut out = vec![0i32; 16];
    predict_paeth(&[50, 50, 50, 50], &[80, 80, 80, 80], 50, 4, 4, &mut out);
    assert_eq!(out, vec![80; 16]);
    predict_paeth(&[50, 60, 70, 80], &[50, 50, 50, 50], 50, 4, 4, &mut out);
    assert_eq!(out[..4], [50, 60, 70, 80]);
}

#[test]
fn recursive_prediction_keeps_flat_neighbours() {
    for mode in 0..5 {
        let mut out = vec![0i32; 64];
        predict_filter_intra(mode, &[90; 8], &[90; 8], 90, 8, 8, &mut out);
        assert_eq!(out, vec![90; 64]);
    }
}
