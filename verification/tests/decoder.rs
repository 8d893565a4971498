use tpt_kinetix_av1::coeff::TileCdfs;
use tpt_kinetix_av1::decoder::{show_existing_idx, Av1Decoder, CAPABILITY_NOTES};
use tpt_kinetix_av1::error::{KinetixError, ParseError};
use tpt_kinetix_av1::frame::FrameHeader;
use tpt_kinetix_av1::media::{Packet, PixelFormat, RefFrameStore, Timestamp, VideoFrame};
use tpt_kinetix_av1::mode_cdfs::ModeDefaults;
use tpt_kinetix_av1::obu::SequenceHeaderObu;
use tpt_kinetix_av1::quant::dc_dequant;
use tpt_kinetix_av1::reconstruct::reconstruct_av1_frame;
use tpt_kinetix_av1::tile_group::Tables;
use tpt_kinetix_av1::trace::{
    enable_symbol_trace, symbol_trace_len, take_symbol_trace, SymbolTrace,
};

/// A table that gives every symbol the same share.
fn even<const N: usize>() -> [u16; N] {
    let mut t = [0u16; N];
    let n = N - 1;
    for i in 0..n {
        t[i] = (32768 * (i + 1) / n) as u16;
    }
    t
}

fn coeff_tables() -> [TileCdfs; 4] {
    let t = TileCdfs {
        txb_skip: [[even(); 13]; 5],
        eob_pt_16: [[even(); 2]; 2],
        eob_pt_32: [[even(); 2]; 2],
        eob_pt_64: [[even(); 2]; 2],
        eob_pt_128: [[even(); 2]; 2],
        eob_pt_256: [[even(); 2]; 2],
        eob_pt_512: [even(); 2],
        eob_pt_1024: [even(); 2],
        eob_extra: [[[even(); 9]; 2]; 5],
        coeff_base_eob: [[[even(); 4]; 2]; 5],
        coeff_base: [[[even(); 42]; 2]; 5],
        coeff_br: [[[even(); 21]; 2]; 5],
        dc_sign: [[even(); 3]; 2],
        intra_tx_type_set1: [[even(); 13]; 2],
        intra_tx_type_set2: [[even(); 13]; 3],
    };
    [t; 4]
}

fn mode_tables() -> ModeDefaults {
    ModeDefaults {
        partition_w8: [even(); 4],
        partition_w16: [even(); 4],
        partition_w32: [even(); 4],
        partition_w64: [even(); 4],
        partition_w128: [even(); 4],
        intra_y_mode: [[even(); 5]; 5],
        uv_mode_not_allowed: [even(); 13],
        uv_mode_allowed: [even(); 13],
        tx_8x8: [even(); 3],
        tx_16x16: [even(); 3],
        tx_32x32: [even(); 3],
        tx_64x64: [even(); 3],
        txfm_split: [even(); 21],
        skip: [even(); 3],
        angle_delta: [even(); 8],
        interp_filter: [even(); 16],
    }
}

fn even_tables() -> Tables {
    Tables { coeff: coeff_tables(), modes: mode_tables() }
}

struct BitWriter {
    bits: Vec<u8>,
}

impl BitWriter {
    fn new() -> Self {
        BitWriter { bits: Vec::new() }
    }

    fn put(&mut self, value: u32, len: u32) {
        for i in (0..len).rev() {
            self.bits.push(((value >> i) & 1) as u8);
        }
    }

    fn bytes(mut self) -> Vec<u8> {
        while self.bits.len() % 8 != 0 {
            self.bits.push(0);
        }
        self.bits
            .chunks(8)
            .map(|c| c.iter().fold(0u8, |a, b| (a << 1) | b))
            .collect()
    }
}

/// The header of a sequence of 16 by 16 pictures without filters.
fn sequence_payload(reduced: bool) -> Vec<u8> {
    let mut w = BitWriter::new();
    w.put(0, 3);
    w.put(u32::from(reduced), 1);
    w.put(u32::from(reduced), 1);
    if reduced {
        w.put(0, 5);
    } else {
        w.put(0, 1);
        w.put(0, 1);
        w.put(0, 5);
        w.put(0, 12);
        w.put(0, 5);
    }
    w.put(3, 4);
    w.put(3, 4);
    w.put(15, 4);
    w.put(15, 4);
    if !reduced {
        w.put(0, 1);
    }
    w.put(0, 3);
    if !reduced {
        w.put(0, 5);
        w.put(0, 1);
        w.put(0, 1);
    }
    w.put(0, 3);
    w.put(0, 1);
    w.put(0, 1);
    w.put(0, 1);
    w.put(0, 1);
    w.put(0, 2);
    w.put(0, 1);
    w.put(0, 1);
    w.bytes()
}

/// The header of a key frame in a reduced sequence.
fn frame_header_payload() -> Vec<u8> {
    let mut w = BitWriter::new();
    w.put(0, 1);
    w.put(0, 1);
    w.put(1, 1);
    w.put(100, 8);
    w.put(0, 3);
    w.put(0, 1);
    w.put(0, 1);
    w.put(0, 1);
    w.put(0, 6);
    w.put(0, 6);
    w.put(0, 3);
    w.put(0, 1);
    w.put(1, 1);
    w.put(0, 1);
    w.bytes()
}

fn unit(kind: u8, payload: &[u8]) -> Vec<u8> {
    let mut v = vec![(kind << 3) | 2, payload.len() as u8];
    v.extend_from_slice(payload);
    v
}

fn packet(units: &[Vec<u8>], key: bool) -> Packet {
    Packet { data: units.concat(), is_key_frame: key }
}

fn ramp(len: usize, mul: usize, add: usize) -> Vec<u8> {
    (0..len).map(|i| ((i * mul + add) & 0xFF) as u8).collect()
}

fn key_frame_units(tile: &[u8]) -> Vec<Vec<u8>> {
    let mut frame = frame_header_payload();
    frame.extend_from_slice(tile);
    vec![unit(2, &[]), unit(1, &sequence_payload(true)), unit(6, &frame)]
}

#[test]
fn capabilities_claim_no_exactness() {
    let caps = Av1Decoder::new(even_tables()).capabilities();
    assert!(!caps.pixel_exact);
    assert_eq!(caps.codec, "AV1");
    assert_eq!(caps.notes, CAPABILITY_NOTES);
    assert!(caps.supports_cabac && caps.supports_cavlc);
    assert!(caps.supports_intra_prediction && caps.supports_inter_prediction);
    assert!(caps.supports_deblocking);
}

#[test]
fn a_new_decoder_has_seen_nothing() {
    let mut d = Av1Decoder::new(even_tables());
    assert!(d.sequence_header().is_none());
    assert!(d.last_frame_header().is_none());
    assert!(d.tile_data().is_empty());
    assert_eq!(d.ref_frames().populated(), 0);
    assert_eq!(d.flush().unwrap().len(), 0);
}

#[test]
fn packets_without_frames_return_nothing() {
    let mut d = Av1Decoder::new(even_tables()).with_strict(true);
    assert!(matches!(d.decode(&packet(&[], true)), Ok(None)));
    assert!(matches!(d.decode(&packet(&[unit(2, &[])], true)), Ok(None)));
    assert!(matches!(d.decode(&Packet { data: vec![0xFF, 0], is_key_frame: true }), Ok(None)));
}

#[test]
fn frames_before_the_first_sequence_header_are_passed_over() {
    let mut d = Av1Decoder::new(even_tables()).with_strict(true);
    let p = packet(&[unit(6, &frame_header_payload()), unit(3, &frame_header_payload())], true);
    assert!(matches!(d.decode(&p), Ok(None)));
}

#[test]
fn a_truncated_sequence_header_stops_the_packet() {
    let mut d = Av1Decoder::new(even_tables());
    let r = d.decode(&packet(&[unit(1, &[0x00])], true));
    assert_eq!(r.err(), Some(KinetixError::Parse(ParseError::Truncated)));
}

#[test]
fn a_key_frame_is_shown_and_kept() {
    let mut d = Av1Decoder::new(even_tables()).with_strict(true);
    let f = d.decode(&packet(&key_frame_units(&[0; 8]), false)).unwrap().expect("a picture");
    assert_eq!((f.width, f.height), (16, 16));
    assert_eq!(f.data.len(), 16 * 16 + 2 * 8 * 8);
    let v = dc_dequant(100);
    let across = (((v * 2896 + 2048) >> 12) + 1) >> 1;
    let down = (across * 2896 + 2048) >> 12;
    let chroma = (128 + ((down + 8) >> 4)) as u8;
    assert!(f.data[256..].iter().all(|s| *s == chroma));
    assert!(f.is_key_frame);
    assert_eq!(f.pts, Timestamp::none());
    assert_eq!(f.pixel_format, PixelFormat::Yuv420p);
    assert_eq!(d.ref_frames().populated(), 8);
    assert_eq!(d.sequence_header().unwrap().frame_width(), 16);
    assert_eq!(d.last_frame_header().unwrap().base_q_idx, 100);
    let groups = d.tile_data();
    assert_eq!(groups.len(), 1);
    assert_eq!((groups[0].tile_index, &groups[0].payload), (0, &vec![0u8; 8]));
}

#[test]
fn the_last_frame_header_is_that_of_the_last_packet() {
    let mut d = Av1Decoder::new(even_tables());
    let _ = d.decode(&packet(&key_frame_units(&[0; 8]), true));
    assert!(d.last_frame_header().is_some());
    let _ = d.decode(&packet(&[], true));
    assert!(d.last_frame_header().is_none());
}

#[test]
fn a_frame_in_units_of_its_own_is_the_same_frame() {
    let tile = ramp(64, 37, 11);
    let mut a = Av1Decoder::new(even_tables());
    let whole = a.decode(&packet(&key_frame_units(&tile), true)).unwrap().expect("a picture");
    let mut b = Av1Decoder::new(even_tables());
    let units =
        [unit(1, &sequence_payload(true)), unit(3, &frame_header_payload()), unit(4, &tile)];
    let parts = b.decode(&packet(&units, true)).unwrap().expect("a picture");
    assert_eq!(whole.data, parts.data);
    assert_eq!(b.tile_data().len(), 1);
    assert_eq!((b.tile_data()[0].tile_index, &b.tile_data()[0].payload), (0, &tile));
    assert_eq!(a.tile_data()[0].payload, tile);
    let _ = b.decode(&packet(&[unit(4, &[1]), unit(2, &[]), unit(4, &[2, 3])], true));
    let groups: Vec<(usize, Vec<u8>)> =
        b.tile_data().iter().map(|t| (t.tile_index, t.payload.clone())).collect();
    assert_eq!(groups, vec![(0, vec![1]), (1, vec![2, 3])]);
    let _ = b.decode(&packet(&[], true));
    assert!(b.tile_data().is_empty());
}

#[test]
fn a_frame_header_without_tile_groups_gives_a_grey_picture() {
    let mut d = Av1Decoder::new(even_tables()).with_strict(true);
    let units = [unit(1, &sequence_payload(true)), unit(3, &frame_header_payload())];
    let f = d.decode(&packet(&units, true)).unwrap().expect("a picture");
    assert_eq!(f.data, vec![128u8; 384]);
    assert!(f.is_key_frame);
}

#[test]
fn a_frame_unit_without_tile_data_gives_a_placeholder() {
    let units = [unit(1, &sequence_payload(true)), unit(6, &frame_header_payload())];
    let mut d = Av1Decoder::new(even_tables());
    let f = d.decode(&packet(&units, false)).unwrap().expect("a placeholder");
    assert_eq!((f.width, f.height), (16, 16));
    assert_eq!(f.data, vec![128u8; 256 + 2 * 64]);
    assert!(!f.is_key_frame);
    assert_eq!(f.pts, Timestamp::new(0, (1, 90_000)));
    assert_eq!(f.dts, f.pts);
    let again = d.decode(&packet(&units, true)).unwrap().expect("a placeholder");
    assert!(again.is_key_frame);
    assert_eq!(again.pts, Timestamp::new(1, (1, 90_000)));

    d.set_strict(true);
    assert_eq!(d.decode(&packet(&units, true)).err(), Some(KinetixError::NotPixelExact));
    d.set_strict(false);
    assert!(d.decode(&packet(&units, true)).is_ok());
}

#[test]
fn a_kept_picture_is_shown_again() {
    let tile = ramp(64, 37, 11);
    let mut d = Av1Decoder::new(even_tables());
    let first = d.decode(&packet(&key_frame_units(&tile), true)).unwrap().expect("a picture");
    let show = [unit(1, &sequence_payload(false)), unit(3, &[0b1011_0000])];
    let again = d.decode(&packet(&show, true)).unwrap().expect("a picture");
    assert_eq!(again.data, first.data);
    assert_eq!((again.width, again.height), (16, 16));
    assert!(!again.is_key_frame);
    let shown = d.last_frame_header().expect("a header");
    assert!(shown.show_existing_frame && shown.show_frame);
    assert_eq!((shown.width, shown.height), (16, 16));
    assert!(d.tile_data().is_empty());
    let frame_form = [unit(6, &[0b1111_0000])];
    let third = d.decode(&packet(&frame_form, true)).unwrap().expect("a picture");
    assert_eq!(third.data, first.data);
}

#[test]
fn strict_and_lenient_decoders_differ_only_in_placeholders() {
    let placeholder = [unit(1, &sequence_payload(true)), unit(6, &frame_header_payload())];
    let packets = [
        packet(&[], true),
        packet(&key_frame_units(&ramp(64, 37, 11)), true),
        packet(&placeholder, true),
        packet(&key_frame_units(&[0; 8]), false),
        packet(&[unit(1, &[0x00])], true),
    ];
    for (i, p) in packets.iter().enumerate() {
        let a = Av1Decoder::new(even_tables()).decode(p);
        let b = Av1Decoder::new(even_tables()).with_strict(true).decode(p);
        if i == 2 {
            assert!(matches!(a, Ok(Some(_))));
            assert_eq!(b.err(), Some(KinetixError::NotPixelExact));
        } else {
            match (a, b) {
                (Ok(x), Ok(y)) => assert_eq!(x.map(|f| f.data), y.map(|f| f.data)),
                (Err(x), Err(y)) => assert_eq!(x, y),
                _ => panic!("the decoders differ"),
            }
        }
    }
}

#[test]
fn a_decoder_records_the_symbols_of_its_frames() {
    let p = packet(&key_frame_units(&ramp(64, 37, 11)), true);
    let mut plain = Av1Decoder::new(even_tables());
    let expected = plain.decode(&p).unwrap().expect("a picture");
    assert_eq!(symbol_trace_len(plain.trace()), 0);
    let mut d = Av1Decoder::new(even_tables());
    let mut t = SymbolTrace::new();
    enable_symbol_trace(&mut t);
    d.swap_trace(&mut t);
    let first = d.decode(&p).unwrap().expect("a picture");
    assert_eq!(first.data, expected.data);
    let n = symbol_trace_len(d.trace());
    assert!(n > 0);
    let _ = d.decode(&packet(&[unit(2, &[])], true));
    assert_eq!(symbol_trace_len(d.trace()), n);
    let _ = d.decode(&p);
    assert_eq!(symbol_trace_len(d.trace()), 2 * n);
    d.swap_trace(&mut t);
    let entries = take_symbol_trace(&mut t);
    assert!(entries.iter().enumerate().all(|(i, e)| e.seq == i && e.value < e.n_symbols));
    assert_eq!(entries[0].bit_pos_before, 15);
    assert_eq!(symbol_trace_len(d.trace()), 0);
}

#[test]
fn bytes_behind_a_header_do_not_matter() {
    let seq = SequenceHeaderObu::parse(&sequence_payload(true)).unwrap();
    let header = frame_header_payload();
    let (plain, bits) = FrameHeader::parse(&header, &seq).unwrap();
    for tail in [vec![0u8; 3], vec![0xFF; 9], ramp(40, 37, 11)] {
        let mut longer = header.clone();
        longer.extend_from_slice(&tail);
        let (same, end) = FrameHeader::parse(&longer, &seq).unwrap();
        assert_eq!(end, bits);
        assert_eq!(format!("{same:?}"), format!("{plain:?}"));
    }
}

#[test]
fn an_empty_slot_shows_nothing() {
    let mut d = Av1Decoder::new(even_tables()).with_strict(true);
    let show = [unit(1, &sequence_payload(false)), unit(3, &[0b1011_0000])];
    assert_eq!(d.decode(&packet(&show, true)).err(), Some(KinetixError::NotPixelExact));
}

#[test]
fn the_slot_to_show_is_in_the_first_bits() {
    let full = SequenceHeaderObu::parse(&sequence_payload(false)).unwrap();
    let reduced = SequenceHeaderObu::parse(&sequence_payload(true)).unwrap();
    assert_eq!(show_existing_idx(&[0b1101_0000], &full), Some(5));
    assert_eq!(show_existing_idx(&[0b0101_0000], &full), None);
    assert_eq!(show_existing_idx(&[], &full), None);
    assert_eq!(show_existing_idx(&[0b1101_0000], &reduced), None);
}

#[test]
fn showing_a_kept_picture_is_no_frame_header() {
    let full = SequenceHeaderObu::parse(&sequence_payload(false)).unwrap();
    let r = FrameHeader::parse(&[0b1101_0000], &full);
    assert!(matches!(r, Err(KinetixError::Unsupported(_))));
}

#[test]
fn frame_headers_are_byte_aligned_with_zeros() {
    let seq = SequenceHeaderObu::parse(&sequence_payload(true)).unwrap();
    let mut header = frame_header_payload();
    let (_, bits) = FrameHeader::parse(&header, &seq).unwrap();
    assert_eq!(bits, 8 * header.len());
    let last = header.len() - 1;
    header[last] |= 1;
    assert_eq!(
        FrameHeader::parse(&header, &seq).err(),
        Some(KinetixError::Parse(ParseError::TrailingBits))
    );
    header.truncate(2);
    assert_eq!(
        FrameHeader::parse(&header, &seq).err(),
        Some(KinetixError::Parse(ParseError::Truncated))
    );
}

fn small_picture(value: u8) -> VideoFrame {
    VideoFrame {
        pts: Timestamp::none(),
        dts: Timestamp::none(),
        data: (0..6).map(|i| value + i).collect(),
        width: 2,
        height: 2,
        pixel_format: PixelFormat::Yuv420p,
        is_key_frame: true,
    }
}

#[test]
fn a_refresh_keeps_the_picture_in_the_flagged_slots() {
    let mut store = RefFrameStore::new();
    assert_eq!(store.populated(), 0);
    store.refresh(0b1000_0101, &small_picture(10));
    assert_eq!(store.populated(), 3);
    for slot in 0..9 {
        let kept = store.get(slot);
        assert_eq!(kept.is_some(), slot == 0 || slot == 2 || slot == 7);
    }
    let s = store.get(2).unwrap();
    assert_eq!((s.y.clone(), s.u.clone(), s.v.clone()), (vec![10, 11, 12, 13], vec![14], vec![15]));
    store.refresh(0b0000_0100, &small_picture(50));
    assert_eq!(store.get(2).unwrap().y[0], 50);
    assert_eq!(store.get(0).unwrap().y[0], 10);
    assert_eq!(store.get(2).unwrap().to_video_frame().data, small_picture(50).data);
    assert_eq!(store.populated(), 3);
    store.refresh(0b0000_0011, &small_picture(90));
    assert_eq!(store.populated(), 4);
}

#[test]
fn units_that_are_no_tile_groups_do_not_matter() {
    let seq = SequenceHeaderObu::parse(&sequence_payload(true)).unwrap();
    let (fh, _) = FrameHeader::parse(&frame_header_payload(), &seq).unwrap();
    let tables = even_tables();
    let off = &mut SymbolTrace::new();
    let grey = reconstruct_av1_frame(&[(4, vec![1, 2, 3])], &seq, &fh, None, &tables, off)
        .unwrap()
        .unwrap();
    assert_eq!(grey.data, vec![128u8; 384]);
    let tile = ramp(64, 37, 11);
    let a = reconstruct_av1_frame(&[(13, tile.clone())], &seq, &fh, None, &tables, off);
    let b = reconstruct_av1_frame(
        &[(1, vec![7]), (13, tile.clone()), (4, vec![])],
        &seq,
        &fh,
        None,
        &tables,
        off,
    );
    match (a, b) {
        (Ok(Some(x)), Ok(Some(y))) => assert_eq!(x.data, y.data),
        (Err(x), Err(y)) => assert_eq!(x, y),
        _ => panic!("the two frames differ"),
    }
}
