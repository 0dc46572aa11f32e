use sparrow::mysql::errname::{sql_err_name, sql_state, ER_HANDSHAKE_ERROR};
use sparrow::mysql::constants::{StatusFlags, SERVER_STATUS_AUTOCOMMIT, SERVER_STATUS_IN_TRANS};
use sparrow::mysql::packet::OkPacket;
use sparrow::mysql::utils::{read_length_encoded_int, write_length_encoded_int};

#[test]
fn lenenc_small_values_take_one_byte() {
    assert_eq!(write_length_encoded_int(0), vec![0u8]);
    assert_eq!(write_length_encoded_int(250), vec![250u8]);
}

#[test]
fn lenenc_two_byte_values() {
    assert_eq!(write_length_encoded_int(251), vec![0xfc, 0xfb, 0x00]);
    assert_eq!(write_length_encoded_int(65_535), vec![0xfc, 0xff, 0xff]);
}

#[test]
fn lenenc_three_and_eight_byte_values() {
    assert_eq!(write_length_encoded_int(65_536), vec![0xfd, 0x00, 0x00, 0x01]);
    assert_eq!(
        write_length_encoded_int(16_777_216),
        vec![0xfe, 0x00, 0x00, 0x00, 0x01, 0x00, 0x00, 0x00, 0x00]
    );
}

#[test]
fn lenenc_reads_back() {
    for x in [0u64, 1, 250, 251, 300, 65_535, 65_536, 16_777_215, 16_777_216, u64::MAX] {
        let mut bytes = write_length_encoded_int(x);
        let n = bytes.len();
        bytes.push(0x42);
        assert_eq!(read_length_encoded_int(&bytes), (n, x));
    }
}

#[test]
fn lenenc_read_malformed() {
    assert_eq!(read_length_encoded_int(&[]), (0, 0));
    assert_eq!(read_length_encoded_int(&[0xfc, 0x01]), (0, 0));
    assert_eq!(read_length_encoded_int(&[0xff, 0x01, 0x02]), (0, 0));
    assert_eq!(read_length_encoded_int(&[0xfb]), (1, 251));
}

#[test]
fn ok_packet_roundtrip() {
    let p = OkPacket::new(300, 7, StatusFlags::from_bits_truncate(SERVER_STATUS_AUTOCOMMIT), 2);
    let bits = p.to_bits();
    assert_eq!(bits, vec![0x00, 0xfc, 0x2c, 0x01, 0x07, 0x02, 0x00, 0x02, 0x00]);
    assert_eq!(OkPacket::parse(&bits).unwrap(), p);
}

#[test]
fn scramble_password_matches_native_password() {
    let salt: Vec<u8> = (1u8..=20).collect();
    let answer = sparrow::mysql::utils::scramble_password(&salt, "secret".to_string()).unwrap();
    assert_eq!(
        answer,
        vec![179, 43, 179, 165, 131, 225, 52, 12, 10, 17, 8, 213, 139, 27, 228, 151, 129, 173, 140, 47]
    );
    assert!(sparrow::mysql::utils::scramble_password(&salt, String::new()).is_none());
}

#[test]
fn random_salt_is_printable() {
    let salt = sparrow::mysql::utils::random_salt(20).unwrap();
    assert_eq!(salt.len(), 20);
    assert!(salt.iter().all(|&b| (30..127).contains(&b)));
    assert!(sparrow::mysql::utils::random_salt(0).unwrap().is_empty());
}

#[test]
fn ok_packet_fields_and_bytes() {
    let status = StatusFlags::from_bits_truncate(SERVER_STATUS_AUTOCOMMIT | SERVER_STATUS_IN_TRANS);
    let p = OkPacket::new(300, 1, status, 2);
    assert_eq!(p.affected_rows(), 300);
    assert_eq!(p.last_insert_id(), 1);
    assert_eq!(p.status().bits(), 3);
    assert_eq!(p.warnings(), 2);
    assert_eq!(p.to_bits(), vec![0x00, 0xfc, 0x2c, 0x01, 0x01, 0x03, 0x00, 0x02, 0x00]);
    let e = OkPacket::empty(status);
    assert_eq!((e.affected_rows(), e.last_insert_id(), e.warnings()), (0, 0, 0));
    assert_eq!(e.status().bits(), 3);
    let q = OkPacket::parse(&[0x00, 0x05, 0xfc, 0x00, 0x01, 0x02, 0x00, 0x07, 0x00]).unwrap();
    assert_eq!(q.affected_rows(), 5);
    assert_eq!(q.last_insert_id(), 256);
    assert_eq!(q.status().bits(), 2);
    assert_eq!(q.warnings(), 7);
    assert!(matches!(
        OkPacket::parse(&[0x01, 0, 0, 0, 0, 0, 0]),
        Err(sparrow::mysql::errors::MysqlError::OkPacketILL)
    ));
    assert!(matches!(
        OkPacket::parse(&[0x00, 0, 0]),
        Err(sparrow::mysql::errors::MysqlError::OkPacketWrongSize)
    ));
}

#[test]
fn ok_packet_empty_and_errors() {
    let p = OkPacket::empty(StatusFlags::from_bits_truncate(SERVER_STATUS_AUTOCOMMIT));
    assert_eq!(p.to_bits(), vec![0x00, 0x00, 0x00, 0x02, 0x00, 0x00, 0x00]);
    assert!(OkPacket::parse(&[0x00, 0x00]).is_err());
    assert!(OkPacket::parse(&[0xff, 0, 0, 0, 0, 0, 0]).is_err());
}

#[test]
fn status_flags_drop_unknown_bits() {
    let f = StatusFlags::from_bits_truncate(0xffff);
    assert_eq!(f.bits(), 0x7ffb);
    assert!(f.contains(StatusFlags::from_bits_truncate(SERVER_STATUS_AUTOCOMMIT)));
    assert_eq!(StatusFlags::empty().bits(), 0);
}

#[test]
fn error_names_and_states() {
    assert_eq!(sql_err_name(ER_HANDSHAKE_ERROR), Some("Bad handshake"));
    assert_eq!(sql_err_name(1), None);
    assert_eq!(sql_state(ER_HANDSHAKE_ERROR), "08S01");
    assert_eq!(sql_state(2), "HY000");
    assert_eq!(
        sparrow::mysql::errors::MysqlError::PacketlZeroPayload.to_text(),
        "MysqlError::PacketlZeroPayload!"
    );
}
