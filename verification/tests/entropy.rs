use tpt_kinetix_av1::entropy::{floor_log2_of, SymbolDecoder};

#[test]
fn floor_log2_matches_bit_length_minus_one() {
    assert_eq!(floor_log2_of(1), 0);
    assert_eq!(floor_log2_of(2), 1);
    assert_eq!(floor_log2_of(3), 1);
    assert_eq!(floor_log2_of(4), 2);
    assert_eq!(floor_log2_of(32768), 15);
    assert_eq!(floor_log2_of(65535), 15);
}

#[test]
fn bool_all_zero_bytes_decodes_all_zero_symbols() {
    let mut dec = SymbolDecoder::new(&[0x00, 0x00, 0x00]);
    let syms: Vec<bool> = (0..8).map(|_| dec.read_bool()).collect();
    assert_eq!(syms, vec![false; 8]);
}

#[test]
fn bool_all_one_bytes_decodes_all_one_symbols() {
    let mut dec = SymbolDecoder::new(&[0xFF, 0xFF, 0xFF]);
    let syms: Vec<bool> = (0..8).map(|_| dec.read_bool()).collect();
    assert_eq!(syms, vec![true; 8]);
}

#[test]
fn read_literal_matches_reference_trace() {
    let mut dec = SymbolDecoder::new(&[0xA5, 0x3C, 0x81, 0xF0]);
    let lits: Vec<u32> = (0..4).map(|_| dec.read_literal(4)).collect();
    assert_eq!(lits, vec![10, 5, 4, 2]);
}

#[test]
fn multi_symbol_uniform4_matches_reference_trace() {
    let mut cdf = [8192u16, 16384, 24576, 32768, 0];
    let mut dec = SymbolDecoder::new(&[0x12, 0x34, 0x56, 0x78, 0x9A, 0xBC]);

    let expected_symbols = [0usize, 1, 0, 0, 1, 3];
    let expected_cdf_snapshots: [[u16; 5]; 6] = [
        [8960, 16896, 24832, 32768, 1],
        [8680, 17392, 25080, 32768, 2],
        [9432, 17872, 25320, 32768, 3],
        [10161, 18337, 25552, 32768, 4],
        [9844, 18787, 25777, 32768, 5],
        [9537, 18200, 24972, 32768, 6],
    ];

    for i in 0..6 {
        let symbol = dec.read_symbol(&mut cdf);
        assert_eq!(symbol, expected_symbols[i], "symbol mismatch at step {i}");
        assert_eq!(cdf, expected_cdf_snapshots[i], "cdf mismatch at step {i}");
    }
}

#[test]
fn txb_skip_context0_matches_reference_trace() {
    let mut cdf = [31671u16, 32768, 0];
    let mut dec = SymbolDecoder::new(&[0x7E, 0x91, 0x2D, 0x44, 0xC3, 0x0F, 0xAA, 0x55]);

    let expected_symbols = [0usize; 10];
    let expected_cdf_snapshots: [[u16; 3]; 10] = [
        [31739, 32768, 1],
        [31803, 32768, 2],
        [31863, 32768, 3],
        [31919, 32768, 4],
        [31972, 32768, 5],
        [32021, 32768, 6],
        [32067, 32768, 7],
        [32110, 32768, 8],
        [32151, 32768, 9],
        [32189, 32768, 10],
    ];

    for i in 0..10 {
        let symbol = dec.read_symbol(&mut cdf);
        assert_eq!(symbol, expected_symbols[i], "symbol mismatch at step {i}");
        assert_eq!(cdf, expected_cdf_snapshots[i], "cdf mismatch at step {i}");
    }
}

#[test]
fn read_literal32_forces_multiple_renormalization_refills() {
    let mut dec = SymbolDecoder::new(&[0x00, 0xFF, 0x00, 0xFF, 0x00, 0xFF, 0x00, 0xFF]);
    assert_eq!(dec.read_literal(32), 16_325_324);
}

#[test]
fn short_buffer_reads_zero_padding_past_end() {
    let mut dec = SymbolDecoder::new(&[0x80]);
    let syms: Vec<bool> = (0..12).map(|_| dec.read_bool()).collect();
    let expected = [
        true, false, false, false, false, false, false, false, false, false, false, false,
    ];
    assert_eq!(syms, expected);
}
