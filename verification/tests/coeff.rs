use tpt_kinetix_av1::coeff::{read_coeffs, CoeffContexts, TileCdfs, TxBlockCtx};
use tpt_kinetix_av1::coeff_tables::{
    get_scan, get_tx_class, get_tx_set_intra, ADST_ADST, ADST_DCT, DCT_ADST, DCT_DCT,
    FLIPADST_FLIPADST, H_FLIPADST, IDTX, TX_16X16, TX_32X32, TX_4X4, TX_64X64, TX_8X4, TX_8X8,
    TX_CLASS_2D, TX_CLASS_HORIZ, TX_CLASS_VERT, TX_SET_DCTONLY, TX_SET_INTRA_1, TX_SET_INTRA_2,
    TX_WIDTH, V_DCT,
};
use tpt_kinetix_av1::entropy::SymbolDecoder;
use tpt_kinetix_av1::error::KinetixError;

/// A table that gives every symbol the same share.
fn even<const N: usize>() -> [u16; N] {
    let mut t = [0u16; N];
    let n = N - 1;
    for i in 0..n {
        t[i] = (32768 * (i + 1) / n) as u16;
    }
    t
}

fn coeff_tables() -> [TileCdfs; 4] {
    let t = TileCdfs {
        txb_skip: [[even(); 13]; 5],
        eob_pt_16: [[even(); 2]; 2],
        eob_pt_32: [[even(); 2]; 2],
        eob_pt_64: [[even(); 2]; 2],
        eob_pt_128: [[even(); 2]; 2],
        eob_pt_256: [[even(); 2]; 2],
        eob_pt_512: [even(); 2],
        eob_pt_1024: [even(); 2],
        eob_extra: [[[even(); 9]; 2]; 5],
        coeff_base_eob: [[[even(); 4]; 2]; 5],
        coeff_base: [[[even(); 42]; 2]; 5],
        coeff_br: [[[even(); 21]; 2]; 5],
        dc_sign: [[even(); 3]; 2],
        intra_tx_type_set1: [[even(); 13]; 2],
        intra_tx_type_set2: [[even(); 13]; 3],
    };
    [t; 4]
}

#[test]
fn tx_class_matches_spec() {
    assert_eq!(get_tx_class(DCT_DCT), TX_CLASS_2D);
    assert_eq!(get_tx_class(ADST_ADST), TX_CLASS_2D);
    assert_eq!(get_tx_class(IDTX), TX_CLASS_2D);
    assert_eq!(get_tx_class(FLIPADST_FLIPADST), TX_CLASS_2D);
    assert_eq!(get_tx_class(DCT_ADST), TX_CLASS_2D);
    assert_eq!(get_tx_class(ADST_DCT), TX_CLASS_2D);
    assert_eq!(get_tx_class(V_DCT), TX_CLASS_VERT);
    assert_eq!(get_tx_class(H_FLIPADST), TX_CLASS_HORIZ);
}

#[test]
fn tx_set_intra_matches_spec() {
    assert_eq!(get_tx_set_intra(TX_4X4, false), TX_SET_INTRA_1);
    assert_eq!(get_tx_set_intra(TX_8X8, false), TX_SET_INTRA_1);
    assert_eq!(get_tx_set_intra(TX_16X16, false), TX_SET_INTRA_2);
    assert_eq!(get_tx_set_intra(TX_32X32, false), TX_SET_DCTONLY);
    assert_eq!(get_tx_set_intra(TX_64X64, false), TX_SET_DCTONLY);
}

#[test]
fn scan_is_valid_permutation() {
    for &tx in &[TX_4X4, TX_8X8, TX_16X16] {
        let scan = get_scan(tx, DCT_DCT).expect("square scan exists");
        let n = TX_WIDTH[tx];
        let count = n * n;
        assert_eq!(scan[0], 0, "DC is scanned first");
        let mut seen = vec![false; count];
        for &p in scan[..count].iter() {
            let p = p as usize;
            assert!(p < count, "position in range");
            assert!(!seen[p], "no duplicate positions");
            seen[p] = true;
        }
        for &p in scan[count..].iter() {
            assert_eq!(p, 0);
        }
    }
    assert!(get_scan(TX_8X4, DCT_DCT).is_none());
    assert!(get_scan(TX_32X32, DCT_DCT).is_none());
}

#[test]
fn cdfs_sum_to_full_range() {
    let cdfs = TileCdfs::new(100, &coeff_tables());
    let check = |cdf: &[u16]| {
        assert_eq!(cdf[cdf.len() - 2], 32768, "cdf total must be 1<<15");
        assert!(cdf[cdf.len() - 1] <= 32, "adaptation counter in range");
    };
    for leaf in cdfs.txb_skip.iter().flatten() {
        check(leaf);
    }
    for leaf in cdfs.eob_pt_16.iter().flatten() {
        check(leaf);
    }
    for leaf in cdfs.eob_pt_32.iter().flatten() {
        check(leaf);
    }
    for leaf in cdfs.eob_pt_64.iter().flatten() {
        check(leaf);
    }
    for leaf in cdfs.eob_pt_128.iter().flatten() {
        check(leaf);
    }
    for leaf in cdfs.eob_pt_256.iter().flatten() {
        check(leaf);
    }
    for leaf in cdfs.eob_pt_512.iter() {
        check(leaf);
    }
    for leaf in cdfs.eob_pt_1024.iter() {
        check(leaf);
    }
    for leaf in cdfs.eob_extra.iter().flatten().flatten() {
        check(leaf);
    }
    for leaf in cdfs.coeff_base_eob.iter().flatten().flatten() {
        check(leaf);
    }
    for leaf in cdfs.coeff_base.iter().flatten().flatten() {
        check(leaf);
    }
    for leaf in cdfs.coeff_br.iter().flatten().flatten() {
        check(leaf);
    }
    for leaf in cdfs.dc_sign.iter().flatten() {
        check(leaf);
    }
}

#[test]
fn qcontext_buckets_are_in_range() {
    for q in [0u8, 20, 21, 60, 61, 120, 255] {
        assert!(TileCdfs::q_context(q) < 4);
    }
}

const DC_PRED: usize = 0;

fn blk(plane: usize, tx_size: usize, x4: usize, y4: usize, bw: usize, bh: usize) -> TxBlockCtx {
    TxBlockCtx {
        plane,
        tx_size,
        x4,
        y4,
        max_x4: 16,
        max_y4: 16,
        block_w: bw,
        block_h: bh,
        intra_dir: DC_PRED,
        uv_mode: DC_PRED,
        qindex_positive: true,
        reduced_tx_set: false,
        lossless: false,
    }
}

fn ramp(len: usize, mul: usize, add: usize) -> Vec<u8> {
    (0..len).map(|i| ((i * mul + add) & 0xFF) as u8).collect()
}

#[test]
fn unsupported_transform_size_fails_loudly() {
    let data = ramp(64, 37, 11);
    let mut dec = SymbolDecoder::new(&data);
    let mut cdfs = TileCdfs::new(100, &coeff_tables());
    let mut ctxs = CoeffContexts::new(16, 16);
    let b = blk(0, TX_8X4, 0, 0, 8, 4);
    let err = read_coeffs(&mut dec, &mut cdfs, &mut ctxs, &b).unwrap_err();
    assert!(
        matches!(err, KinetixError::Unsupported(_)),
        "expected Unsupported, got {err:?}"
    );
}

#[test]
fn out_of_range_indices_are_rejected() {
    let data = ramp(32, 37, 11);
    let mut cdfs = TileCdfs::new(100, &coeff_tables());
    let mut ctxs = CoeffContexts::new(16, 16);

    let mut bad_tx = blk(0, TX_4X4, 0, 0, 4, 4);
    bad_tx.tx_size = TX_WIDTH.len();
    let mut dec = SymbolDecoder::new(&data);
    assert!(read_coeffs(&mut dec, &mut cdfs, &mut ctxs, &bad_tx).is_err());

    let mut bad_plane = blk(0, TX_4X4, 0, 0, 4, 4);
    bad_plane.plane = 3;
    let mut dec = SymbolDecoder::new(&data);
    assert!(read_coeffs(&mut dec, &mut cdfs, &mut ctxs, &bad_plane).is_err());
}
