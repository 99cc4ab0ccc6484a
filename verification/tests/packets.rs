use brokeamu::card::{get_008_accesscode, get_008_accesscode_i64};
use brokeamu::packet::{card_idm_hex, decode_packet, game_kind_for_process, GameKind, Packet, PacketType, PACKET_LEN};

fn packet(kind: u8, data: [u8; 8]) -> [u8; 17] {
    let mut b = [0u8; 17];
    b[0] = kind;
    b[1..9].copy_from_slice(&data);
    b
}

#[test]
fn packet_type_of_first_byte() {
    assert_eq!(PacketType::from(1u8), PacketType::CardScan);
    assert_eq!(PacketType::from(2u8), PacketType::CoinInput);
    assert_eq!(PacketType::from(3u8), PacketType::TestButton);
    assert_eq!(PacketType::from(4u8), PacketType::ServiceButton);
    assert_eq!(PacketType::from(5u8), PacketType::KeypadInput);
    assert_eq!(PacketType::from(0u8), PacketType::BadData);
    assert_eq!(PacketType::from(6u8), PacketType::BadData);
    assert_eq!(PacketType::from(255u8), PacketType::BadData);
}

#[test]
fn card_idm_is_sixteen_upper_hex_digits() {
    let data = 0x3500bd2ae3724e58i64.to_be_bytes();
    assert_eq!(card_idm_hex(&data), "3500BD2AE3724E58");
    assert_eq!(card_idm_hex(&data), format!("{:016X}", i64::from_be_bytes(data)));
    let neg = (-2i64).to_be_bytes();
    assert_eq!(card_idm_hex(&neg), format!("{:016X}", -2i64));
    assert_eq!(card_idm_hex(&[0, 0, 0, 0, 0, 0, 0, 1]), "0000000000000001");
}

#[test]
fn card_scan_packet() {
    let b = packet(1, 0x3500bd2ae3724e58i64.to_be_bytes());
    match decode_packet(PACKET_LEN, &b) {
        Packet::CardScan { idm } => assert_eq!(idm, "3500BD2AE3724E58"),
        _ => panic!("not a card scan"),
    }
}

#[test]
fn short_or_long_reads_are_malformed() {
    let b = packet(2, [0; 8]);
    assert!(matches!(decode_packet(16, &b), Packet::Malformed));
    assert!(matches!(decode_packet(0, &b), Packet::Malformed));
    assert!(matches!(decode_packet(usize::MAX, &b), Packet::Malformed));
}

#[test]
fn button_packets() {
    assert!(matches!(decode_packet(17, &packet(2, [9; 8])), Packet::CoinInput));
    assert!(matches!(decode_packet(17, &packet(3, [0; 8])), Packet::TestButton));
    assert!(matches!(decode_packet(17, &packet(4, [0; 8])), Packet::ServiceButton));
    assert!(matches!(decode_packet(17, &packet(5, [0; 8])), Packet::KeypadInput));
    assert!(matches!(decode_packet(17, &packet(0, [0; 8])), Packet::Unknown));
    assert!(matches!(decode_packet(17, &packet(200, [0; 8])), Packet::Unknown));
}

#[test]
fn scanned_card_logs_in_with_its_number() {
    let data = [0x01, 0x2e, 0x00, 0x00, 0x12, 0x34, 0x56, 0x78];
    let idm = card_idm_hex(&data);
    assert_eq!(get_008_accesscode(&idm), get_008_accesscode_i64(i64::from_be_bytes(data)));
}

#[test]
fn scanned_card_with_high_bit_logs_in_as_zero() {
    let data = [0xe0, 0x04, 0x01, 0x00, 0x12, 0x34, 0x56, 0x78];
    let idm = card_idm_hex(&data);
    assert_eq!(get_008_accesscode(&idm), "0000");
}

#[test]
fn process_names() {
    assert_eq!(game_kind_for_process("spice.exe"), Some(GameKind::Spice));
    assert_eq!(game_kind_for_process("spice64.exe"), Some(GameKind::Spice));
    assert_eq!(game_kind_for_process("amdaemon.exe"), Some(GameKind::SegaTools));
    assert_eq!(game_kind_for_process("Spice.exe"), None);
    assert_eq!(game_kind_for_process("explorer.exe"), None);
}
