use tpt_kinetix_av1::bits::BitReader;
use tpt_kinetix_av1::frame::{quant_table, seq_bit_depth, FrameHeader, FrameType};
use tpt_kinetix_av1::header_parts::read_ns;
use tpt_kinetix_av1::obu::{ColorConfig, SequenceHeaderObu, MAX_OPERATING_POINTS};

fn minimal_seq() -> SequenceHeaderObu {
    SequenceHeaderObu {
        seq_profile: 0,
        still_picture: false,
        reduced_still_picture_header: true,
        frame_width_bits_minus_1: 3,
        frame_height_bits_minus_1: 3,
        max_frame_width_minus_1: 15,
        max_frame_height_minus_1: 15,
        color_config: ColorConfig {
            high_bitdepth: false,
            twelve_bit: false,
            bit_depth: 8,
            mono_chrome: false,
            color_primaries: 2,
            transfer_characteristics: 2,
            matrix_coefficients: 2,
            color_range: true,
            subsampling_x: true,
            subsampling_y: true,
            chroma_sample_position: 0,
            separate_uv_delta_q: false,
        },
        order_hint_bits_minus_1: 0,
        seq_choose_screen_content_tools: false,
        seq_force_screen_content_tools: false,
        seq_choose_integer_mv: false,
        seq_force_integer_mv: false,
        frame_id_numbers_present_flag: false,
        delta_frame_id_length_minus_2: 0,
        additional_frame_id_length_minus_1: 0,
        use_128x128_superblock: false,
        enable_superres: false,
        enable_intra_edge_filter: true,
        enable_filter_intra: true,
        enable_interintra_compound: false,
        enable_masked_compound: false,
        enable_warped_motion: true,
        enable_dual_filter: false,
        allow_intrabc: false,
        enable_order_hint: false,
        enable_jnt_comp: false,
        enable_ref_frame_mvs: false,
        enable_cdef: true,
        enable_restoration: true,
        film_grain_params_present: false,
        decoder_model_info_present: false,
        equal_picture_interval: false,
        buffer_delay_length_minus_1: 0,
        buffer_removal_time_length_minus_1: 0,
        frame_presentation_time_length_minus_1: 0,
        operating_points_cnt_minus_1: 0,
        operating_point_idc: [0u16; MAX_OPERATING_POINTS],
        decoder_model_present_for_this_op: [false; MAX_OPERATING_POINTS],
    }
}

struct BitWriter {
    bytes: Vec<u8>,
    cur: u8,
    nbits: u8,
}

impl BitWriter {
    fn new() -> Self {
        Self {
            bytes: Vec::new(),
            cur: 0,
            nbits: 0,
        }
    }
    fn bit(&mut self, b: u8) {
        self.cur = (self.cur << 1) | (b & 1);
        self.nbits += 1;
        if self.nbits == 8 {
            self.bytes.push(self.cur);
            self.cur = 0;
            self.nbits = 0;
        }
    }
    fn bits(&mut self, val: u32, len: u8) {
        for i in (0..len).rev() {
            self.bit(((val >> i) & 1) as u8);
        }
    }
    #[allow(dead_code)]
    fn ns(&mut self, v: u32, n: u32) {
        let w = 32 - (n - 1).leading_zeros() - 1;
        if w == 0 {
            return;
        }
        let m = (1u32 << (w + 1)) - n;
        if v < m {
            self.bits(v, w as u8);
        } else {
            self.bits((v + m) >> 1, w as u8);
            self.bit(((v + m) & 1) as u8);
        }
    }
    fn finish(mut self) -> Vec<u8> {
        while self.nbits > 0 {
            self.bit(1);
        }
        self.bytes.extend_from_slice(&[0u8; 4]);
        self.bytes
    }
}

#[test]
fn quant_base_monotonicish() {
    assert!(quant_table(false)[0] > 0);
    assert!(quant_table(true)[128] > quant_table(true)[64]);
}

#[test]
fn read_ns_symmetric() {
    let data = [0xFFu8; 8];
    let mut br = BitReader::new(&data);
    for n in 3..16u32 {
        let v = read_ns(&mut br, n).unwrap();
        assert!(v < n, "ns({n}) out of range: {v}");
    }
}

#[test]
fn parse_frame_header_reduced_still_keyframe() {
    let w = 16u32;
    let h = 16u32;
    let mut bw = BitWriter::new();

    bw.bit(0);
    bw.bit(1);
    bw.bits(100, 8);
    bw.bit(0);
    bw.bit(0);
    bw.bit(0);
    bw.bit(0);
    bw.bit(0);
    bw.bit(0);
    bw.bits(0, 6);
    bw.bits(0, 6);
    bw.bits(0, 3);
    bw.bit(0);
    bw.bits(0, 2);
    bw.bits(0, 2);
    bw.bits(0, 4);
    bw.bits(0, 2);
    bw.bits(0, 4);
    bw.bits(0, 2);
    bw.bit(0);
    bw.bit(0);
    bw.bit(0);
    bw.bit(0);
    bw.bit(0);
    bw.bit(0);
    bw.bit(0);
    bw.bit(0);
    while bw.nbits != 0 {
        bw.bit(0);
    }

    let bits = bw.finish();
    let seq = minimal_seq();
    let (fh, _bits) = FrameHeader::parse(&bits, &seq).expect("frame header parse");

    assert_eq!(fh.frame_type, FrameType::KeyFrame);
    assert!(fh.show_frame);
    assert_eq!(fh.width, w);
    assert_eq!(fh.height, h);
    assert_eq!(fh.base_q_idx, 100);
    assert_eq!(fh.tile_cols, 1);
    assert_eq!(fh.tile_rows, 1);
    assert!(!fh.lossless);
}


#[test]
fn depths_of_the_profiles() {
    let mut seq = minimal_seq();
    for (profile, high, twelve, depth) in [
        (0, false, false, 8),
        (0, true, false, 10),
        (1, true, false, 10),
        (2, false, false, 8),
        (2, true, false, 10),
        (2, true, true, 12),
    ] {
        seq.seq_profile = profile;
        seq.color_config.high_bitdepth = high;
        seq.color_config.twelve_bit = twelve;
        assert_eq!(seq_bit_depth(&seq), depth);
    }
}
