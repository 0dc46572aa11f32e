use sparrow::mysql::constants::MAX_PAYLOAD_LEN;
use sparrow::mysql::errors::MysqlError;
use sparrow::mysql::packetio::{HeaderStep, PacketIO};

/// Reads one packet from `wire` the way a connection feeds the reader.
fn read_back(reader: &mut PacketIO, wire: &[u8]) -> (Result<Vec<u8>, MysqlError>, usize) {
    reader.begin_read();
    let mut pos = 0;
    loop {
        let header = &wire[pos..pos + 4];
        pos += 4;
        match reader.on_header(header) {
            Err(e) => return (Err(e), pos),
            Ok(HeaderStep::Packet(p)) => return (Ok(p), pos),
            Ok(HeaderStep::Payload(n)) => {
                let buf = wire[pos..pos + n].to_vec();
                pos += n;
                match reader.on_payload(n, buf) {
                    Err(e) => return (Err(e), pos),
                    Ok(Some(p)) => return (Ok(p), pos),
                    Ok(None) => {},
                }
            },
        }
    }
}

#[test]
fn small_packet_has_one_frame() {
    let mut w = PacketIO::new();
    let mut data = [0, 0, 0, 0, 1, 2, 3];
    let wire = w.write_packet(&mut data);
    assert_eq!(wire, vec![3, 0, 0, 0, 1, 2, 3]);
    assert_eq!(data, [3, 0, 0, 0, 1, 2, 3]);
    assert_eq!(w.sequence(), 1);
    let mut data = [9, 9, 9, 9, 0xaa];
    let wire = w.write_packet(&mut data);
    assert_eq!(wire, vec![1, 0, 0, 1, 0xaa]);
    assert_eq!(data, [1, 0, 0, 1, 0xaa]);
    assert_eq!(w.sequence(), 2);
    w.reset_seq();
    assert_eq!(w.sequence(), 0);
}

#[test]
fn empty_payload_is_a_zero_header() {
    let mut w = PacketIO::new();
    let mut data = [7, 7, 7, 7];
    assert_eq!(w.write_packet(&mut data), vec![0, 0, 0, 0]);
    assert_eq!(data, [0, 0, 0, 0]);
    let mut r = PacketIO::new();
    let (res, _) = read_back(&mut r, &[0, 0, 0, 0]);
    assert!(matches!(res, Err(MysqlError::PacketlZeroPayload)));
}

#[test]
fn full_payload_ends_with_an_empty_frame() {
    let mut data = vec![0u8; 4 + MAX_PAYLOAD_LEN];
    for (i, b) in data.iter_mut().enumerate().skip(4) {
        *b = (i % 251) as u8;
    }
    let payload = data[4..].to_vec();
    let mut w = PacketIO::new();
    let wire = w.write_packet(&mut data);
    assert_eq!(&data[..4], &[0xff, 0xff, 0xff, 0]);
    assert_eq!(&data[MAX_PAYLOAD_LEN..], &[0, 0, 0, 1]);
    assert_eq!(&data[4..MAX_PAYLOAD_LEN], &payload[..MAX_PAYLOAD_LEN - 4]);
    assert_eq!(wire.len(), 4 + MAX_PAYLOAD_LEN + 4);
    assert_eq!(&wire[..4], &[0xff, 0xff, 0xff, 0]);
    assert_eq!(&wire[4 + MAX_PAYLOAD_LEN..], &[0, 0, 0, 1]);
    assert_eq!(w.sequence(), 2);
    let mut r = PacketIO::new();
    let (res, used) = read_back(&mut r, &wire);
    assert_eq!(res.unwrap(), payload);
    assert_eq!(used, wire.len());
    assert_eq!(r.sequence(), w.sequence());
}

#[test]
fn long_payload_reads_back() {
    let mut data = vec![0u8; 4 + MAX_PAYLOAD_LEN + 10];
    for (i, b) in data.iter_mut().enumerate().skip(4) {
        *b = (i % 13) as u8;
    }
    let payload = data[4..].to_vec();
    let mut w = PacketIO::new();
    let mut wire = w.write_packet(&mut data);
    assert_eq!(&wire[4 + MAX_PAYLOAD_LEN..8 + MAX_PAYLOAD_LEN], &[10, 0, 0, 1]);
    assert_eq!(&data[MAX_PAYLOAD_LEN..MAX_PAYLOAD_LEN + 4], &[10, 0, 0, 1]);
    assert_eq!(&data[MAX_PAYLOAD_LEN + 4..], &payload[MAX_PAYLOAD_LEN..]);
    let n = wire.len();
    wire.extend_from_slice(&[5, 0, 0, 2, 1, 2, 3, 4, 5]);
    let mut r = PacketIO::new();
    let (res, used) = read_back(&mut r, &wire);
    assert_eq!(res.unwrap(), payload);
    assert_eq!(used, n);
    let (next, _) = read_back(&mut r, &wire[n..]);
    assert_eq!(next.unwrap(), vec![1, 2, 3, 4, 5]);
}

#[test]
fn reader_checks_sequence_and_sizes() {
    let mut r = PacketIO::new();
    assert!(matches!(r.on_header(&[1, 0, 0, 3]), Err(MysqlError::MismatchPacketSequence)));
    assert!(matches!(r.on_header(&[1, 0, 0]), Err(MysqlError::InvalidPacketHeader)));
    match r.on_header(&[2, 0, 0, 0]) {
        Ok(HeaderStep::Payload(2)) => {},
        other => panic!("unexpected {:?}", other),
    }
    assert_eq!(r.sequence(), 1);
    assert!(matches!(r.on_payload(2, vec![1]), Err(MysqlError::IncompletePacketPayload)));
}

#[test]
fn sequence_wraps_after_255() {
    let mut w = PacketIO::new();
    for _ in 0..256 {
        w.write_packet(&mut [0, 0, 0, 0, 1]);
    }
    assert_eq!(w.sequence(), 0);
}
