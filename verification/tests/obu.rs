use tpt_kinetix_av1::obu::{parse_obu_sequence, read_leb128, Obu, ObuType};

#[test]
fn leb128_single_byte() {
    let data = [0x05u8];
    let (val, consumed) = read_leb128(&data).unwrap();
    assert_eq!(val, 5);
    assert_eq!(consumed, 1);
}

#[test]
fn leb128_multi_byte() {
    let data = [0xACu8, 0x02];
    let (val, consumed) = read_leb128(&data).unwrap();
    assert_eq!(val, 300);
    assert_eq!(consumed, 2);
}

#[test]
fn obu_parse_temporal_delimiter() {
    let data = [0x12u8, 0x00];
    let (obu, consumed) = Obu::parse(&data).unwrap();
    assert_eq!(obu.obu_type, ObuType::TemporalDelimiter);
    assert!(!obu.extension_flag);
    assert!(obu.has_size_field);
    assert_eq!(obu.payload.len(), 0);
    assert_eq!(consumed, 2);
}

#[test]
fn parse_obu_sequence_empty() {
    let obus = parse_obu_sequence(&[]);
    assert!(obus.is_empty());
}

#[test]
fn parse_obu_sequence_garbage() {
    let obus = parse_obu_sequence(&[0xFFu8, 0x00]);
    assert!(obus.is_empty());
}

#[test]
fn parse_multiple_obus() {
    let td = [0x12u8, 0x00];
    let data: Vec<u8> = td.iter().chain(td.iter()).copied().collect();
    let obus = parse_obu_sequence(&data);
    assert_eq!(obus.len(), 2);
}
