use sparrow::config::configer::{empty, ProxyUser};
use sparrow::config::shortcut::build_config_shortcut;
use sparrow::frontend::conn::{session_ends_on, C2PConn, IoErrorKind};
use sparrow::frontend::errors::FrontendError;
use sparrow::mysql::constants::{CLIENT_CONNECT_WITH_DB, DEFAULT_CAPABILITY};
use sparrow::mysql::errors::MysqlError;
use sparrow::mysql::packetio::{HeaderStep, PacketIO};
use sparrow::mysql::utils::scramble_password;
use sparrow::router::decision::build_router;

fn new_conn(id: u32) -> C2PConn {
    let router = build_router(&empty()).unwrap();
    C2PConn::build_c2p_conn(id, router).unwrap()
}

/// The salt a connection sent, read off its initial handshake frames.
fn salt_of(wire: &[u8]) -> Vec<u8> {
    let body = &wire[4..];
    let version_end = 1 + body[1..].iter().position(|&b| b == 0).unwrap();
    let part1 = &body[version_end + 1 + 4..version_end + 1 + 4 + 8];
    let part2_start = version_end + 1 + 4 + 8 + 1 + 2 + 1 + 2 + 2 + 1 + 10;
    let part2 = &body[part2_start..body.len() - 1];
    let mut s = part1.to_vec();
    s.extend_from_slice(part2);
    s
}

fn response(cap: u32, user: &[u8], auth: &[u8], db: &[u8]) -> Vec<u8> {
    let mut d = cap.to_le_bytes().to_vec();
    d.extend_from_slice(&[0, 0, 0, 1]);
    d.push(33);
    d.extend_from_slice(&[0u8; 23]);
    d.extend_from_slice(user);
    d.push(0);
    d.push(auth.len() as u8);
    d.extend_from_slice(auth);
    d.extend_from_slice(db);
    d.push(0);
    d
}

fn users() -> sparrow::config::shortcut::ConfigShortcut {
    let mut cfg = empty();
    cfg.proxy.users = vec![
        ProxyUser { user: "alice".to_string(), pwd: "secret".to_string() },
        ProxyUser { user: "bob".to_string(), pwd: String::new() },
    ];
    build_config_shortcut(&cfg)
}

#[test]
fn initial_handshake_layout() {
    let mut c = new_conn(7);
    let wire = c.write_initial_handshake();
    let body = &wire[4..];
    assert_eq!(wire[3], 0);
    assert_eq!(wire[0] as usize + ((wire[1] as usize) << 8) + ((wire[2] as usize) << 16), body.len());
    assert_eq!(body[0], 10);
    assert_eq!(&body[1..14], b"1.0.0-sparrow");
    assert_eq!(body[14], 0);
    assert_eq!(&body[15..19], &[7, 0, 0, 0]);
    assert_eq!(body[27], 0);
    assert_eq!(&body[28..30], &[0x0d, 0xa2]);
    assert_eq!(body[30], 33);
    assert_eq!(&body[31..33], &[2, 0]);
    assert_eq!(&body[33..35], &[0, 0]);
    assert_eq!(body[35], 0x15);
    assert_eq!(&body[36..46], &[0u8; 10]);
    assert_eq!(body.len(), 46 + 12 + 1);
    assert_eq!(*body.last().unwrap(), 0);
    let salt = salt_of(&wire);
    assert_eq!(salt.len(), 20);
    assert!(salt.iter().all(|&b| (30..127).contains(&b)));
    assert_eq!(c.conn_id(), 7);
}

#[test]
fn correct_password_is_accepted() {
    let mut c = new_conn(1);
    let salt = salt_of(&c.write_initial_handshake());
    let auth = scramble_password(&salt, "secret".to_string()).unwrap();
    let data = response(DEFAULT_CAPABILITY, b"alice", &auth, b"shop");
    assert!(c.read_client_handshake(&data, &users()).is_ok());
    assert_eq!(c.proxy_user(), "alice");
    assert_eq!(c.db(), "shop");
}

#[test]
fn database_needs_the_capability() {
    let mut c = new_conn(1);
    let salt = salt_of(&c.write_initial_handshake());
    let auth = scramble_password(&salt, "secret".to_string()).unwrap();
    let data = response(DEFAULT_CAPABILITY & !CLIENT_CONNECT_WITH_DB, b"alice", &auth, b"shop");
    assert!(c.read_client_handshake(&data, &users()).is_ok());
    assert_eq!(c.db(), "");
}

#[test]
fn wrong_password_or_user_is_denied() {
    let mut c = new_conn(1);
    let salt = salt_of(&c.write_initial_handshake());
    let auth = scramble_password(&salt, "guess".to_string()).unwrap();
    let data = response(DEFAULT_CAPABILITY, b"alice", &auth, b"shop");
    assert!(matches!(c.read_client_handshake(&data, &users()), Err(FrontendError::ProxyAuthDenied)));
    assert_eq!(c.proxy_user(), "alice");
    assert_eq!(c.db(), "");
    let mut c = new_conn(2);
    let data = response(DEFAULT_CAPABILITY, b"mallory", &[1, 2], b"");
    assert!(matches!(c.try_read_client_handshake(&data, &users()), Some(Err(FrontendError::ProxyAuthDenied))));
}

#[test]
fn empty_password_takes_empty_answer() {
    let mut c = new_conn(3);
    let data = response(DEFAULT_CAPABILITY, b"bob", &[], b"");
    assert!(c.read_client_handshake(&data, &users()).is_ok());
    assert_eq!(c.proxy_user(), "bob");
}

#[test]
fn invalid_utf8_user_is_read_lossily() {
    let mut c = new_conn(3);
    // the name reads as five bytes of text though it took three on the wire
    let data = response(DEFAULT_CAPABILITY, &[b'b', 0xff, b'b'], &[], &[0, 0]);
    assert!(matches!(c.try_read_client_handshake(&data, &users()), Some(Err(FrontendError::ProxyAuthDenied))));
    assert_eq!(c.proxy_user(), "b\u{fffd}b");
    let mut c = new_conn(3);
    let data = response(DEFAULT_CAPABILITY, &[b'b', 0xff, b'b'], &[], b"");
    assert!(c.try_read_client_handshake(&data, &users()).is_none());
}

#[test]
fn malformed_response_is_reported() {
    let mut c = new_conn(4);
    assert!(c.try_read_client_handshake(&[1, 2, 3], &users()).is_none());
    let mut short = response(DEFAULT_CAPABILITY, b"alice", &[1, 2, 3, 4], b"");
    short.truncate(32 + 5 + 1 + 1 + 2);
    assert!(c.try_read_client_handshake(&short, &users()).is_none());
    assert_eq!(c.proxy_user(), "");
}

#[test]
fn session_ends_only_when_the_client_is_gone() {
    assert!(session_ends_on(Some(IoErrorKind::BrokenPipe)));
    assert!(session_ends_on(Some(IoErrorKind::TimedOut)));
    assert!(session_ends_on(Some(IoErrorKind::ConnectionReset)));
    assert!(!session_ends_on(Some(IoErrorKind::Other)));
    assert!(!session_ends_on(None));
}

#[test]
fn connection_reads_framed_packets() {
    let mut c = new_conn(5);
    let mut w = PacketIO::new();
    let wire = w.write_packet(&mut [0, 0, 0, 0, 3, b's', b'e', b'l']);
    c.begin_read();
    match c.on_header(&wire[..4]).unwrap() {
        HeaderStep::Payload(n) => {
            assert_eq!(n, 4);
            assert_eq!(c.on_payload(n, wire[4..].to_vec()).unwrap(), Some(vec![3, b's', b'e', b'l']));
        },
        HeaderStep::Packet(_) => panic!("expected a payload"),
    }
    assert!(c.s2c_handshake().is_ok());
    let mut data = vec![1u8, 2];
    assert!(c.dispatch_mysql_cmd(&mut data).is_ok());
}

#[test]
fn error_texts() {
    assert_eq!(FrontendError::ProxyAuthDenied.to_text(), "proxy auth denied!");
    assert_eq!(
        FrontendError::ErrMysql(MysqlError::MismatchPacketSequence).to_text(),
        "MysqlError::MismatchPacketSequence!"
    );
    let e: FrontendError = MysqlError::OkPacketILL.into();
    assert!(matches!(e, FrontendError::ErrMysql(MysqlError::OkPacketILL)));
}
