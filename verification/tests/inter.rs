use tpt_kinetix_av1::entropy::SymbolDecoder;
use tpt_kinetix_av1::inter::{
    build_mv_candidates, is_inter_ref, motion_compensate, subpel_kernel, Mv, CLASS0_SIZE,
    GOLDEN_FRAME, INTERP_BILINEAR, INTERP_EIGHTTAP_REGULAR, LAST_FRAME, NONE_FRAME,
};
use tpt_kinetix_av1::inter_cdfs::InterCdfs;
use tpt_kinetix_av1::inter_syntax::{read_mv, read_mv_component, read_single_ref_name};

fn kern(kind: u8, frac: i32) -> [i32; 8] {
    subpel_kernel(kind, frac)
}

#[test]
fn subpel_identity_kernel_is_passthrough() {
    let k = kern(INTERP_EIGHTTAP_REGULAR, 0);
    assert_eq!(k[3], 128);
    assert!(k.iter().take(3).all(|&v| v == 0));
    assert!(k.iter().skip(4).all(|&v| v == 0));
}

#[test]
fn subpel_bilinear_half_is_average() {
    let k = kern(INTERP_BILINEAR, 4);
    assert_eq!(k[3], 64);
    assert_eq!(k[4], 64);
}

#[test]
fn motion_compensate_integer_shift_copies_reference() {
    let refp: Vec<u8> = (0u8..=255).cycle().take(64 * 64).collect();
    let mut dest = vec![0u8; 32 * 32];
    motion_compensate(
        &mut dest,
        32,
        &refp,
        64,
        64,
        64,
        8,
        8,
        16,
        16,
        Mv::new(0, 0),
        INTERP_EIGHTTAP_REGULAR,
    );
    for y in 0..16 {
        for x in 0..16 {
            assert_eq!(dest[y * 32 + x], refp[(8 + y) * 64 + (8 + x)]);
        }
    }
}

#[test]
fn motion_compensate_clamps_to_border() {
    let refp = vec![200u8; 64 * 64];
    let mut dest = vec![0u8; 8 * 8];
    motion_compensate(
        &mut dest,
        8,
        &refp,
        64,
        64,
        64,
        0,
        0,
        8,
        8,
        Mv::new(-40 * 8, -40 * 8),
        INTERP_EIGHTTAP_REGULAR,
    );
    assert!(dest.iter().all(|&v| v == 200));
}

#[test]
fn mv_candidate_dedup_respects_block_refs() {
    let above = [(GOLDEN_FRAME, Mv::new(8, 8)), (NONE_FRAME, Mv::default())];
    let left = [(LAST_FRAME, Mv::new(4, 0)), (GOLDEN_FRAME, Mv::new(8, 8))];
    let block_refs = [GOLDEN_FRAME];
    let stack = build_mv_candidates(&above, &left, &block_refs, 2);
    assert_eq!(stack.len(), 1);
    assert_eq!(stack[0].ref_frame, GOLDEN_FRAME);
    assert_eq!(stack[0].mv, Mv::new(8, 8));
}

#[test]
fn mv_joint_decode_matches_reference_trace() {
    let data = [0x3A, 0x91, 0x4C, 0x07, 0xB2, 0xE5, 0x1F, 0x88];
    let mut dec = SymbolDecoder::new(&data);
    let mut cdfs = InterCdfs::new();

    let mv = read_mv(&mut dec, &mut cdfs, true, false).expect("mv decodes");
    assert!(mv.row.abs() < 1024);
    assert!(mv.col.abs() < 1024);
}

#[test]
fn class0_size_matches_spec() {
    assert_eq!(CLASS0_SIZE, 2);
}

#[test]
fn read_mv_component_symbol_order_is_sign_then_class() {
    let data = [0x9C, 0x33, 0xE1, 0x05, 0x7A, 0xBB, 0x40, 0x91];
    let mut d1 = SymbolDecoder::new(&data);
    let mut c1 = InterCdfs::new();
    let _ = read_mv_component(&mut d1, &mut c1, 0, false, false).unwrap();

    let mut d2 = SymbolDecoder::new(&data);
    let mut c2 = InterCdfs::new();
    let _sign = d2.read_symbol(&mut c2.mv_sign[0]);
    let _class = d2.read_symbol(&mut c2.mv_class[0]);
    let mut d3 = SymbolDecoder::new(&data);
    let mut c3 = InterCdfs::new();
    let a = read_mv_component(&mut d3, &mut c3, 0, false, false).unwrap();
    let mut d4 = SymbolDecoder::new(&data);
    let mut c4 = InterCdfs::new();
    let b = read_mv_component(&mut d4, &mut c4, 0, false, false).unwrap();
    assert_eq!(a, b);
}

#[test]
fn read_mv_component_row_and_col_use_independent_cdfs() {
    let mut c = InterCdfs::new();
    c.mv_class[0][0] = 111;
    assert_ne!(c.mv_class[0][0], c.mv_class[1][0]);
}

#[test]
fn single_ref_name_decode_trace() {
    let data = [0xFF, 0xFF, 0xFF, 0xFF, 0xFF, 0xFF, 0xFF, 0xFF];
    let mut dec = SymbolDecoder::new(&data);
    let mut cdfs = InterCdfs::new();
    let mut seen = Vec::new();
    for _ in 0..7 {
        seen.push(read_single_ref_name(&mut dec, &mut cdfs, 0));
    }
    let again = {
        let mut d2 = SymbolDecoder::new(&data);
        let mut c2 = InterCdfs::new();
        let mut v = Vec::new();
        for _ in 0..7 {
            v.push(read_single_ref_name(&mut d2, &mut c2, 0));
        }
        v
    };
    assert_eq!(seen, again);
    assert!(seen.iter().all(|&r| is_inter_ref(r)));
}

#[test]
fn rows_below_a_block_take_part_in_its_last_row() {
    let refp = [0u8, 100];
    let mut dest = [0u8];
    motion_compensate(&mut dest, 1, &refp, 1, 1, 2, 0, 0, 1, 1, Mv::new(4, 0), INTERP_BILINEAR);
    assert_eq!(dest[0], 50);
    let column = [0u8, 40, 100, 200];
    let mut two = [0u8; 2];
    motion_compensate(&mut two, 1, &column, 1, 1, 4, 0, 1, 1, 2, Mv::new(4, 0), INTERP_BILINEAR);
    assert_eq!(two, [70, 150]);
}

#[test]
fn candidates_come_from_all_neighbours_in_order() {
    let above = [(NONE_FRAME, Mv::default()), (LAST_FRAME, Mv::new(2, 4))];
    let left = [(LAST_FRAME, Mv::new(6, 8)), (LAST_FRAME, Mv::new(2, 4))];
    let refs = [LAST_FRAME, GOLDEN_FRAME];
    let found = build_mv_candidates(&above, &left, &refs, 4);
    let vectors: Vec<Mv> = found.iter().map(|c| c.mv).collect();
    assert_eq!(vectors, vec![Mv::new(2, 4), Mv::new(6, 8)]);
    let one = build_mv_candidates(&above, &left, &refs, 1);
    assert_eq!(one.len(), 1);
    assert_eq!(one[0].mv, Mv::new(2, 4));
    let last = [(NONE_FRAME, Mv::default()), (GOLDEN_FRAME, Mv::new(1, 1))];
    let none = [(NONE_FRAME, Mv::default()), (NONE_FRAME, Mv::default())];
    let found = build_mv_candidates(&none, &last, &refs, 2);
    assert_eq!((found.len(), found[0].ref_frame, found[0].mv), (1, GOLDEN_FRAME, Mv::new(1, 1)));
}

#[test]
fn the_joint_tells_which_parts_are_not_zero() {
    let mut odd = 0;
    for seed in 0..200usize {
        let data: Vec<u8> = (0..16).map(|i| (((i + 1) * (seed * 37 + 11)) & 0xFF) as u8).collect();
        let mut joints = InterCdfs::new();
        let joint = SymbolDecoder::new(&data).read_symbol(&mut joints.mv_joint);
        for (hp, whole) in [(true, false), (false, false), (false, true)] {
            let mut cdfs = InterCdfs::new();
            let mv = read_mv(&mut SymbolDecoder::new(&data), &mut cdfs, hp, whole).unwrap();
            assert_eq!(mv.row != 0, joint == 2 || joint == 3);
            assert_eq!(mv.col != 0, joint == 1 || joint == 3);
            if hp {
                odd += usize::from(mv.row % 2 != 0 || mv.col % 2 != 0);
            } else {
                assert!(mv.row % 2 == 0 && mv.col % 2 == 0);
            }
        }
    }
    assert!(odd > 0);
}
