use vstd::prelude::*;
use std::sync::Arc;
use crate::config::shortcut::ConfigShortcut;
use crate::mysql::constants::{self, CapabilityFlags, StatusFlags};
use crate::mysql::errors::MysqlError;
use crate::mysql::packetio::{self, PacketIO, PacketIOView};
use crate::mysql::utils;
use crate::router::decision::{Router, SchemaView};
use crate::text;
use super::errors::FrontendError;

verus! {

/// A client's connection to the proxy: its framing state, the capabilities
/// and salt of its handshake, and who it logged in as.
#[derive(Debug)]
pub struct C2PConn {
    pkg: PacketIO,
    conn_id: u32,
    capability: CapabilityFlags,
    salt: Vec<u8>,
    collation_id: u8,
    status: StatusFlags,
    proxy_user: String,
    db: String,
    r: Arc<Router>,
}

/// What a client connection holds.
pub struct C2PConnView {
    pub pkg: PacketIOView,
    pub conn_id: u32,
    pub capability: u32,
    pub salt: Seq<u8>,
    pub collation_id: u8,
    pub status: u16,
    pub proxy_user: Seq<char>,
    pub db: Seq<char>,
    pub router: Seq<(Seq<char>, SchemaView)>,
}

impl View for C2PConn {
    type V = C2PConnView;

    closed spec fn view(&self) -> C2PConnView {
        C2PConnView {
            pkg: self.pkg@,
            conn_id: self.conn_id,
            capability: self.capability.spec_bits(),
            salt: self.salt@,
            collation_id: self.collation_id,
            status: self.status.spec_bits(),
            proxy_user: self.proxy_user@,
            db: self.db@,
            router: self.r@,
        }
    }
}

impl C2PConn {
    /// The salt is the twenty bytes the handshake sends.
    #[verifier::type_invariant]
    spec fn inv(self) -> bool {
        self.salt@.len() == 20
    }
}

/// The version the proxy announces.
pub open spec fn spec_server_version() -> Seq<char> {
    "1.0.0-sparrow"@
}

/// The initial handshake packet (protocol version 10), behind four bytes
/// reserved for the frame header: version, server version, connection id,
/// the first 8 bytes of the salt, capabilities, collation, status, and the
/// rest of the salt.
pub open spec fn spec_initial_handshake(conn_id: u32, salt: Seq<u8>, cap: u32, collation: u8, status: u16) -> Seq<u8> {
    seq![0u8, 0u8, 0u8, 0u8, constants::MIN_PROTOCOL_VERSION] + vstd::utf8::encode_utf8(spec_server_version())
        + seq![0u8] + utils::le_bytes(conn_id as nat, 4) + salt.take(8) + seq![
        0u8,
        cap as u8,
        (cap >> 8) as u8,
        collation,
        status as u8,
        (status >> 8) as u8,
        (cap >> 16) as u8,
        (cap >> 24) as u8,
        0x15u8,
    ] + Seq::new(10, |i: int| 0u8) + salt.skip(8) + seq![0u8]
}

/// The position of the first zero byte of `s`.
pub open spec fn first_zero(s: Seq<u8>) -> Option<int>
    decreases s.len(),
{
    if s.len() == 0 {
        None
    } else if s[0] == 0 {
        Some(0)
    } else {
        match first_zero(s.drop_first()) {
            Some(i) => Some(i + 1),
            None => None,
        }
    }
}

proof fn lemma_first_zero(s: Seq<u8>)
    ensures
        match first_zero(s) {
            Some(i) => 0 <= i < s.len() && s[i] == 0 && forall|j: int| 0 <= j < i ==> s[j] != 0,
            None => forall|j: int| 0 <= j < s.len() ==> s[j] != 0,
        },
    decreases s.len(),
{
    if s.len() > 0 && s[0] != 0 {
        lemma_first_zero(s.drop_first());
        assert forall|j: int| 1 <= j < s.len() implies s[j] == s.drop_first()[j - 1] by {}
    }
}

/// The text of the zero-terminated string at the front of `s`, read as
/// UTF-8 with invalid sequences replaced; empty where no zero ends it.
pub open spec fn spec_cstr(s: Seq<u8>) -> Seq<char> {
    match first_zero(s) {
        Some(n) => text::spec_from_utf8_lossy(s.take(n)),
        None => Seq::empty(),
    }
}

/// What a client's handshake response does to its connection.
pub enum HandshakeResult {
    /// Too short for the fields it announces.
    Malformed,
    /// The user is unknown or the answer to the salt is wrong.
    Denied { capability: u32, user: Seq<char> },
    /// Logged in, into database `db` (empty for none).
    Accepted { capability: u32, user: Seq<char>, db: Seq<char> },
}

/// The answer a password gives to the salt: none (empty) for an empty password.
pub open spec fn spec_expected_auth(salt: Seq<u8>, pwd: Seq<char>) -> Seq<u8> {
    if pwd.len() == 0 {
        Seq::empty()
    } else {
        utils::spec_scramble_password(salt, vstd::utf8::encode_utf8(pwd))
    }
}

/// The handshake response `data` of a client, from a connection whose
/// capabilities are `cap` and salt `salt`, checked against the proxy users:
/// the capabilities are those both sides have; then come 4 bytes of maximum
/// packet size, a charset byte and 23 reserved bytes, the zero-terminated
/// user name, the answer to the salt behind its length byte, and, where the
/// client connects with a database, its zero-terminated name.
pub open spec fn spec_client_handshake(data: Seq<u8>, cap: u32, salt: Seq<u8>, users: ConfigShortcut) -> HandshakeResult {
    if data.len() < 32 {
        HandshakeResult::Malformed
    } else {
        let cap2 = cap & ((utils::le_value(data.take(4)) as u32) & constants::ALL_CAPABILITY_FLAGS);
        let user = spec_cstr(data.skip(32));
        let p1 = 32 + vstd::utf8::encode_utf8(user).len() as int + 1;
        if p1 >= data.len() {
            HandshakeResult::Malformed
        } else {
            let auth_len = data[p1] as int;
            let p2 = p1 + 1;
            if p2 + auth_len > data.len() {
                HandshakeResult::Malformed
            } else {
                let auth = data.subrange(p2, p2 + auth_len);
                match users.spec_user_pwd(user) {
                    None => HandshakeResult::Denied { capability: cap2, user },
                    Some(pwd) => if spec_expected_auth(salt, pwd) != auth {
                        HandshakeResult::Denied { capability: cap2, user }
                    } else {
                        let p3 = p2 + auth_len;
                        let db = if cap2 & constants::CLIENT_CONNECT_WITH_DB == constants::CLIENT_CONNECT_WITH_DB
                            && p3 < data.len() {
                            spec_cstr(data.skip(p3))
                        } else {
                            Seq::empty()
                        };
                        HandshakeResult::Accepted { capability: cap2, user, db }
                    },
                }
            }
        }
    }
}

/// Whether `c` is `old` with the capabilities, user and database of a
/// handshake result (the database only where it was accepted).
pub open spec fn handshake_applied(old: C2PConnView, c: C2PConnView, h: HandshakeResult) -> bool {
    match h {
        HandshakeResult::Malformed => c == old,
        HandshakeResult::Denied { capability, user } => c == C2PConnView {
            capability,
            proxy_user: user,
            ..old
        },
        HandshakeResult::Accepted { capability, user, db } => c == C2PConnView {
            capability,
            proxy_user: user,
            db,
            ..old
        },
    }
}

/// The kinds of I/O failure a client session tells apart.
#[derive(Debug, Clone, Copy, PartialEq, Eq, Structural)]
pub enum IoErrorKind {
    TimedOut,
    ConnectionReset,
    ConnectionAborted,
    ConnectionRefused,
    NotConnected,
    BrokenPipe,
    Other,
}

/// Whether a failed read ends the session: an I/O failure that means the
/// client is gone (`Some` of its kind) does; anything else is skipped.
pub open spec fn spec_session_ends_on(kind: Option<IoErrorKind>) -> bool {
    match kind {
        Some(IoErrorKind::Other) => false,
        Some(_) => true,
        None => false,
    }
}

/// Whether a failed read ends the session (see `spec_session_ends_on`).
pub fn session_ends_on(kind: Option<IoErrorKind>) -> (r: bool)
    ensures
        r == spec_session_ends_on(kind),
{
    match kind {
        Some(IoErrorKind::TimedOut) => true,
        Some(IoErrorKind::ConnectionReset) => true,
        Some(IoErrorKind::ConnectionAborted) => true,
        Some(IoErrorKind::ConnectionRefused) => true,
        Some(IoErrorKind::NotConnected) => true,
        Some(IoErrorKind::BrokenPipe) => true,
        Some(IoErrorKind::Other) => false,
        None => false,
    }
}

/// Where the first zero byte of `data` at or after `start` stands, as an
/// offset from `start`.
fn find_zero(data: &[u8], start: usize) -> (r: Option<usize>)
    requires
        start <= data@.len(),
    ensures
        match first_zero(data@.skip(start as int)) {
            Some(n) => r == Some(n as usize),
            None => r is None,
        },
{
    let ghost s = data@.skip(start as int);
    let mut i = start;
    while i < data.len()
        invariant
            start <= i <= data@.len(),
            s == data@.skip(start as int),
            forall|j: int| 0 <= j < i - start ==> s[j] != 0,
        decreases data@.len() - i,
    {
        if data[i] == 0 {
            proof {
                lemma_first_zero(s);
                assert(s[i - start] == 0);
            }
            return Some(i - start);
        }
        i += 1;
    }
    proof {
        lemma_first_zero(s);
    }
    None
}

/// The zero-terminated string at `start` (see `spec_cstr`).
fn read_cstr(data: &[u8], start: usize) -> (r: String)
    requires
        start <= data@.len(),
    ensures
        r@ == spec_cstr(data@.skip(start as int)),
{
    match find_zero(data, start) {
        Some(off) => {
            proof {
                lemma_first_zero(data@.skip(start as int));
                assert(off < data.len() - start);
                assert(data@.skip(start as int).take(off as int) =~= data@.subrange(
                    start as int,
                    start + off,
                ));
            }
            let name = vstd::slice::slice_subrange(data, start, start + off);
            text::utf8_lossy(name)
        },
        None => String::new(),
    }
}

impl C2PConn {
    /// A new client connection of id `id`: the default capabilities, a
    /// fresh salt of 20 random printable bytes, utf8_general_ci, autocommit,
    /// nobody logged in yet.
    pub fn build_c2p_conn(id: u32, r: Arc<Router>) -> (res: Result<C2PConn, FrontendError>)
        ensures
            res matches Ok(c) && c@.conn_id == id && c@.pkg.sequence == 0 && c@.pkg.pending
                == Seq::<u8>::empty() && c@.capability == constants::DEFAULT_CAPABILITY && c@.salt.len()
                == 20 && (forall|i: int| 0 <= i < 20 ==> 30 <= #[trigger] c@.salt[i] < 127)
                && c@.collation_id == constants::UTF8_GENERAL_CI && c@.status
                == constants::SERVER_STATUS_AUTOCOMMIT && c@.proxy_user == Seq::<char>::empty() && c@.db
                == Seq::<char>::empty() && c@.router == r@,
    {
        let pkg = PacketIO::new();
        let capability = constants::get_default_capability_flags();
        let salt = match utils::random_salt(20) {
            Ok(s) => s,
            Err(e) => {
                return Err(FrontendError::ErrMysql(e));
            },
        };
        let status = StatusFlags::from_bits_truncate(constants::SERVER_STATUS_AUTOCOMMIT);
        assert(0x0002u16 & 0x7ffb == 0x0002) by (bit_vector);
        Ok(
            C2PConn {
                pkg,
                conn_id: id,
                capability,
                salt,
                collation_id: constants::UTF8_GENERAL_CI,
                status,
                proxy_user: String::new(),
                db: String::new(),
                r,
            },
        )
    }

    /// The initial handshake packet of this connection, behind four bytes
    /// reserved for the frame header.
    fn initial_handshake(&self) -> (data: Vec<u8>)
        ensures
            data@ == spec_initial_handshake(
                self@.conn_id,
                self@.salt,
                self@.capability,
                self@.collation_id,
                self@.status,
            ),
    {
        proof {
            use_type_invariant(self);
        }
        let mut data: Vec<u8> = Vec::new();
        data.push(0);
        data.push(0);
        data.push(0);
        data.push(0);
        data.push(constants::MIN_PROTOCOL_VERSION);
        let version = constants::server_version().as_bytes();
        utils::append_slice(&mut data, version, 0, version.len());
        data.push(0);
        let id = utils::le_write_u32(self.conn_id);
        utils::append_slice(&mut data, &id, 0, 4);
        utils::append_slice(&mut data, self.salt.as_slice(), 0, 8);
        let cap = self.capability.bits();
        let status = self.status.bits();
        data.push(0);
        data.push(#[verifier::truncate] (cap as u8));
        data.push(#[verifier::truncate] ((cap >> 8) as u8));
        data.push(self.collation_id);
        data.push(#[verifier::truncate] (status as u8));
        data.push(#[verifier::truncate] ((status >> 8) as u8));
        data.push(#[verifier::truncate] ((cap >> 16) as u8));
        data.push(#[verifier::truncate] ((cap >> 24) as u8));
        data.push(0x15);
        let mut k: usize = 0;
        let ghost before = data@;
        while k < 10
            invariant
                k <= 10,
                data@ == before + Seq::new(k as nat, |i: int| 0u8),
            decreases 10 - k,
        {
            data.push(0);
            proof {
                assert(Seq::new((k + 1) as nat, |i: int| 0u8) =~= Seq::new(k as nat, |i: int| 0u8).push(0u8));
            }
            k += 1;
        }
        utils::append_slice(&mut data, self.salt.as_slice(), 8, self.salt.len());
        data.push(0);
        proof {
            assert(id@.subrange(0, 4) =~= id@);
            assert(version@.subrange(0, version@.len() as int) =~= version@);
            assert(self.salt@.subrange(0, 8) =~= self.salt@.take(8));
            assert(self.salt@.subrange(8, self.salt@.len() as int) =~= self.salt@.skip(8));
            assert(data@ =~= spec_initial_handshake(
                self@.conn_id,
                self@.salt,
                self@.capability,
                self@.collation_id,
                self@.status,
            ));
        }
        data
    }

    /// The frames of the initial handshake packet, what goes to the client
    /// first.
    pub fn write_initial_handshake(&mut self) -> (wire: Vec<u8>)
        ensures
            wire@ == packetio::spec_frames(
                spec_initial_handshake(
                    old(self)@.conn_id,
                    old(self)@.salt,
                    old(self)@.capability,
                    old(self)@.collation_id,
                    old(self)@.status,
                ).skip(4),
                old(self)@.pkg.sequence,
            ),
            final(self)@ == (C2PConnView {
                pkg: PacketIOView {
                    sequence: packetio::spec_seq_after(
                        spec_initial_handshake(
                            old(self)@.conn_id,
                            old(self)@.salt,
                            old(self)@.capability,
                            old(self)@.collation_id,
                            old(self)@.status,
                        ).skip(4),
                        old(self)@.pkg.sequence,
                    ),
                    pending: old(self)@.pkg.pending,
                },
                ..old(self)@
            }),
    {
        proof {
            use_type_invariant(&*self);
        }
        let mut data = self.initial_handshake();
        let mut pkg = PacketIO::new();
        std::mem::swap(&mut pkg, &mut self.pkg);
        let wire = pkg.write_packet(data.as_mut_slice());
        self.pkg = pkg;
        wire
    }

    /// Reads the handshake response `data` of a client against the proxy
    /// users (see `spec_client_handshake`): `None` where it is malformed,
    /// and the connection is left as it was; else the capabilities and user
    /// are taken, and the login is denied or accepted with its database.
    fn handshake_step(&mut self, data: &[u8], users: &ConfigShortcut) -> (r: Option<Result<(), FrontendError>>)
        ensures
            handshake_applied(
                old(self)@,
                final(self)@,
                spec_client_handshake(data@, old(self)@.capability, old(self)@.salt, *users),
            ),
            match spec_client_handshake(data@, old(self)@.capability, old(self)@.salt, *users) {
                HandshakeResult::Malformed => r is None,
                HandshakeResult::Denied { .. } => r matches Some(Err(FrontendError::ProxyAuthDenied)),
                HandshakeResult::Accepted { .. } => r matches Some(Ok(())),
            },
    {
        proof {
            use_type_invariant(&*self);
        }
        if data.len() < 32 {
            return None;
        }
        let x = utils::le_read_uint(data, 4);
        proof {
            utils::lemma_le_value_subrange_bound(data@.subrange(0, 4));
            assert(vstd::arithmetic::power::pow(256, 4) == 0x1_0000_0000) by {
                reveal_with_fuel(vstd::arithmetic::power::pow, 5);
            }
            assert(data@.take(4) =~= data@.subrange(0, 4));
        }
        let bits = x as u32;
        let user = read_cstr(data, 32);
        let ulen = user.as_str().as_bytes().len();
        let room = data.len() - 32;
        if room == 0 || ulen >= room - 1 {
            return None;
        }
        let p1 = 32 + ulen + 1;
        let auth_len = data[p1] as usize;
        let p2 = p1 + 1;
        if auth_len > data.len() - p2 {
            return None;
        }
        let auth = vstd::slice::slice_subrange(data, p2, p2 + auth_len);
        let capability = self.capability.intersect(CapabilityFlags::from_bits_truncate(bits));
        let pwd = match users.check_proxy_user_exists(user.as_str()) {
            None => {
                self.capability = capability;
                self.proxy_user = user;
                return Some(Err(FrontendError::ProxyAuthDenied));
            },
            Some((_, p)) => text::copy_string(p),
        };
        let scramble = match utils::scramble_password(self.salt.as_slice(), pwd) {
            Some(s) => s,
            None => Vec::new(),
        };
        if !utils::bytes_eq(scramble.as_slice(), auth) {
            self.capability = capability;
            self.proxy_user = user;
            return Some(Err(FrontendError::ProxyAuthDenied));
        }
        let p3 = p2 + auth_len;
        let with_db = CapabilityFlags::from_bits_truncate(constants::CLIENT_CONNECT_WITH_DB);
        assert(0x0000_0008u32 & 0xe1ff_ffff == 0x0000_0008) by (bit_vector);
        let mut db = String::new();
        if capability.contains(with_db) && p3 < data.len() {
            db = read_cstr(data, p3);
        }
        self.capability = capability;
        self.proxy_user = user;
        self.db = db;
        Some(Ok(()))
    }

    /// Reads the handshake response `data` of a client against the proxy
    /// users (see `spec_client_handshake`): the capabilities both sides
    /// have and the user are taken; the login is denied where the user is
    /// unknown or the answer to the salt is wrong, else the database the
    /// client connects with is taken.
    pub fn read_client_handshake(&mut self, data: &[u8], users: &ConfigShortcut) -> (r: Result<(), FrontendError>)
        requires
            !(spec_client_handshake(data@, old(self)@.capability, old(self)@.salt, *users) is Malformed),
        ensures
            handshake_applied(
                old(self)@,
                final(self)@,
                spec_client_handshake(data@, old(self)@.capability, old(self)@.salt, *users),
            ),
            match spec_client_handshake(data@, old(self)@.capability, old(self)@.salt, *users) {
                HandshakeResult::Malformed => false,
                HandshakeResult::Denied { .. } => r matches Err(FrontendError::ProxyAuthDenied),
                HandshakeResult::Accepted { .. } => r is Ok,
            },
    {
        match self.handshake_step(data, users) {
            Some(r) => r,
            None => Err(FrontendError::ProxyAuthDenied),
        }
    }

    /// `read_client_handshake` where the response is well formed; `None`,
    /// with the connection left as it was, where it is too short for the
    /// fields it announces.
    pub fn try_read_client_handshake(&mut self, data: &[u8], users: &ConfigShortcut) -> (r: Option<Result<(), FrontendError>>)
        ensures
            handshake_applied(
                old(self)@,
                final(self)@,
                spec_client_handshake(data@, old(self)@.capability, old(self)@.salt, *users),
            ),
            match spec_client_handshake(data@, old(self)@.capability, old(self)@.salt, *users) {
                HandshakeResult::Malformed => r is None,
                HandshakeResult::Denied { .. } => r matches Some(Err(FrontendError::ProxyAuthDenied)),
                HandshakeResult::Accepted { .. } => r matches Some(Ok(())),
            },
    {
        self.handshake_step(data, users)
    }

    /// The server's side of the handshake, nothing more to do once the
    /// client is accepted.
    pub fn s2c_handshake(&self) -> (r: Result<(), FrontendError>)
        ensures
            r is Ok,
    {
        Ok(())
    }

    /// Handles one command packet of the client; every command is accepted
    /// for now.
    pub fn dispatch_mysql_cmd(&mut self, data: &mut [u8]) -> (r: Result<(), FrontendError>)
        ensures
            r is Ok,
            final(self)@ == old(self)@,
            final(data)@ == old(data)@,
    {
        Ok(())
    }

    /// The connection's view, for the session around it.
    pub fn conn_id(&self) -> (r: u32)
        ensures
            r == self@.conn_id,
    {
        self.conn_id
    }

    /// The user logged in.
    pub fn proxy_user(&self) -> (r: &str)
        ensures
            r@ == self@.proxy_user,
    {
        self.proxy_user.as_str()
    }

    /// The database the client connected with, empty for none.
    pub fn db(&self) -> (r: &str)
        ensures
            r@ == self@.db,
    {
        self.db.as_str()
    }

    /// Starts reading a packet of the client.
    pub fn begin_read(&mut self)
        ensures
            final(self)@ == (C2PConnView {
                pkg: PacketIOView { sequence: old(self)@.pkg.sequence, pending: Seq::empty() },
                ..old(self)@
            }),
    {
        proof {
            use_type_invariant(&*self);
        }
        let mut pkg = PacketIO::new();
        std::mem::swap(&mut pkg, &mut self.pkg);
        pkg.begin_read();
        self.pkg = pkg;
    }

    /// Reads a frame header of the client (see `PacketIO::on_header`).
    pub fn on_header(&mut self, header: &[u8]) -> (r: Result<packetio::HeaderStep, MysqlError>)
        ensures
            (final(self)@.pkg, packetio::header_event(r)) == packetio::spec_on_header(old(self)@.pkg, header@),
            final(self)@ == (C2PConnView { pkg: final(self)@.pkg, ..old(self)@ }),
    {
        proof {
            use_type_invariant(&*self);
        }
        let mut pkg = PacketIO::new();
        std::mem::swap(&mut pkg, &mut self.pkg);
        let r = pkg.on_header(header);
        self.pkg = pkg;
        r
    }

    /// Takes a frame payload of the client (see `PacketIO::on_payload`).
    pub fn on_payload(&mut self, expected: usize, buf: Vec<u8>) -> (r: Result<Option<Vec<u8>>, MysqlError>)
        ensures
            (final(self)@.pkg, packetio::payload_event(r)) == packetio::spec_on_payload(
                old(self)@.pkg,
                expected as nat,
                buf@,
            ),
            final(self)@ == (C2PConnView { pkg: final(self)@.pkg, ..old(self)@ }),
    {
        proof {
            use_type_invariant(&*self);
        }
        let mut pkg = PacketIO::new();
        std::mem::swap(&mut pkg, &mut self.pkg);
        let r = pkg.on_payload(expected, buf);
        self.pkg = pkg;
        r
    }

    /// The frames of a packet to the client (see `PacketIO::write_packet`);
    /// the headers are written into `data` in place.
    pub fn write_packet(&mut self, data: &mut [u8]) -> (wire: Vec<u8>)
        requires
            old(data)@.len() >= 4,
        ensures
            wire@ == packetio::spec_frames(old(data)@.skip(4), old(self)@.pkg.sequence),
            final(data)@ == packetio::spec_stamped(old(data)@, 0, old(self)@.pkg.sequence),
            final(self)@ == (C2PConnView {
                pkg: PacketIOView {
                    sequence: packetio::spec_seq_after(old(data)@.skip(4), old(self)@.pkg.sequence),
                    pending: old(self)@.pkg.pending,
                },
                ..old(self)@
            }),
    {
        proof {
            use_type_invariant(&*self);
        }
        let mut pkg = PacketIO::new();
        std::mem::swap(&mut pkg, &mut self.pkg);
        let wire = pkg.write_packet(data);
        self.pkg = pkg;
        wire
    }
}

/// The handshake response a client sends: its capabilities, a maximum
/// packet size, a charset, 23 reserved bytes, the user name and a zero, the
/// answer to the salt behind its length, and the database name and a zero.
pub open spec fn spec_client_response(cap: u32, max_packet: u32, charset: u8, user: Seq<u8>, auth: Seq<u8>, db: Seq<u8>) -> Seq<u8> {
    utils::le_bytes(cap as nat, 4) + utils::le_bytes(max_packet as nat, 4) + seq![charset] + Seq::new(23, |i: int| 0u8)
        + user + seq![0u8] + seq![auth.len() as u8] + auth + db + seq![0u8]
}

/// The handshake response of a client that connects without a database:
/// the packet ends right after the answer to the salt.
pub open spec fn spec_client_response_no_db(cap: u32, max_packet: u32, charset: u8, user: Seq<u8>, auth: Seq<u8>) -> Seq<u8> {
    utils::le_bytes(cap as nat, 4) + utils::le_bytes(max_packet as nat, 4) + seq![charset] + Seq::new(23, |i: int| 0u8)
        + user + seq![0u8] + seq![auth.len() as u8] + auth
}

/// Whether no byte of `s` is zero.
pub open spec fn no_zero(s: Seq<u8>) -> bool {
    forall|i: int| 0 <= i < s.len() ==> s[i] != 0
}

proof fn lemma_first_zero_at(s: Seq<u8>, i: int)
    requires
        0 <= i < s.len(),
        s[i] == 0,
        forall|j: int| 0 <= j < i ==> s[j] != 0,
    ensures
        first_zero(s) == Some(i),
{
    lemma_first_zero(s);
}

/// A zero-terminated name of valid UTF-8 reads back as its text.
proof fn lemma_cstr_of(name: Seq<u8>, rest: Seq<u8>)
    requires
        vstd::utf8::valid_utf8(name),
        no_zero(name),
    ensures
        spec_cstr(name + seq![0u8] + rest) == vstd::utf8::decode_utf8(name),
{
    let s = name + seq![0u8] + rest;
    lemma_first_zero_at(s, name.len() as int);
    assert(s.take(name.len() as int) =~= name);
}

/// A client that names a configured user and answers the salt as that
/// user's password does is accepted, as that user, with the capabilities
/// both sides have and the database it names where it connects with one.
pub proof fn lemma_correct_answer_accepted(
    server_cap: u32,
    salt: Seq<u8>,
    users: ConfigShortcut,
    cap: u32,
    max_packet: u32,
    charset: u8,
    user: Seq<u8>,
    db: Seq<u8>,
)
    requires
        vstd::utf8::valid_utf8(user),
        no_zero(user),
        vstd::utf8::valid_utf8(db),
        no_zero(db),
        users.spec_user_pwd(vstd::utf8::decode_utf8(user)) is Some,
    ensures
        ({
            let pwd = users.spec_user_pwd(vstd::utf8::decode_utf8(user))->Some_0;
            let data = spec_client_response(cap, max_packet, charset, user, spec_expected_auth(salt, pwd), db);
            let both = server_cap & (cap & constants::ALL_CAPABILITY_FLAGS);
            spec_client_handshake(data, server_cap, salt, users) == HandshakeResult::Accepted {
                capability: both,
                user: vstd::utf8::decode_utf8(user),
                db: if both & constants::CLIENT_CONNECT_WITH_DB == constants::CLIENT_CONNECT_WITH_DB {
                    vstd::utf8::decode_utf8(db)
                } else {
                    Seq::empty()
                },
            }
        }),
{
    let name = vstd::utf8::decode_utf8(user);
    let pwd = users.spec_user_pwd(name)->Some_0;
    let auth = spec_expected_auth(salt, pwd);
    let data = spec_client_response(cap, max_packet, charset, user, auth, db);
    assert(auth.len() == 0 || auth.len() == 20);
    utils::lemma_le_bytes_len(cap as nat, 4);
    utils::lemma_le_bytes_len(max_packet as nat, 4);
    utils::lemma_le_value_of_bytes(cap as nat, 4);
    assert(vstd::arithmetic::power::pow(256, 4) == 0x1_0000_0000) by {
        reveal_with_fuel(vstd::arithmetic::power::pow, 5);
    }
    assert(data.take(4) =~= utils::le_bytes(cap as nat, 4));
    let tail = seq![auth.len() as u8] + auth + db + seq![0u8];
    assert(data.skip(32) =~= user + seq![0u8] + tail);
    lemma_cstr_of(user, tail);
    vstd::utf8::decode_utf8_encode_utf8(user);
    let p1 = 32 + user.len() as int + 1;
    assert(data[p1] == auth.len() as u8);
    let p2: int = p1 + 1;
    assert(data.subrange(p2, p2 + auth.len()) =~= auth);
    let p3: int = p2 + auth.len();
    assert(data.skip(p3) =~= db + seq![0u8] + Seq::<u8>::empty());
    lemma_cstr_of(db, Seq::empty());
}

/// A client that names no configured user, or answers the salt otherwise
/// than that user's password does, is denied; the capabilities both sides
/// have and the user it named are kept.
pub proof fn lemma_wrong_answer_denied(
    server_cap: u32,
    salt: Seq<u8>,
    users: ConfigShortcut,
    cap: u32,
    max_packet: u32,
    charset: u8,
    user: Seq<u8>,
    auth: Seq<u8>,
    db: Seq<u8>,
)
    requires
        vstd::utf8::valid_utf8(user),
        no_zero(user),
        auth.len() < 256,
        match users.spec_user_pwd(vstd::utf8::decode_utf8(user)) {
            Some(pwd) => auth != spec_expected_auth(salt, pwd),
            None => true,
        },
    ensures
        spec_client_handshake(spec_client_response(cap, max_packet, charset, user, auth, db), server_cap, salt, users)
            == (HandshakeResult::Denied {
            capability: server_cap & (cap & constants::ALL_CAPABILITY_FLAGS),
            user: vstd::utf8::decode_utf8(user),
        }),
{
    let data = spec_client_response(cap, max_packet, charset, user, auth, db);
    utils::lemma_le_bytes_len(cap as nat, 4);
    utils::lemma_le_bytes_len(max_packet as nat, 4);
    utils::lemma_le_value_of_bytes(cap as nat, 4);
    assert(vstd::arithmetic::power::pow(256, 4) == 0x1_0000_0000) by {
        reveal_with_fuel(vstd::arithmetic::power::pow, 5);
    }
    assert(data.take(4) =~= utils::le_bytes(cap as nat, 4));
    let tail = seq![auth.len() as u8] + auth + db + seq![0u8];
    assert(data.skip(32) =~= user + seq![0u8] + tail);
    lemma_cstr_of(user, tail);
    vstd::utf8::decode_utf8_encode_utf8(user);
    let p1 = 32 + user.len() as int + 1;
    assert(data[p1] == auth.len() as u8);
    let p2: int = p1 + 1;
    assert(data.subrange(p2, p2 + auth.len()) =~= auth);
}

/// A client that names a configured user, answers the salt as that user's
/// password does and sends no database field (the packet ends with the
/// answer) is accepted, as that user, with the capabilities both sides have
/// and no database, whatever capabilities it claims.
pub proof fn lemma_correct_answer_without_db_accepted(
    server_cap: u32,
    salt: Seq<u8>,
    users: ConfigShortcut,
    cap: u32,
    max_packet: u32,
    charset: u8,
    user: Seq<u8>,
)
    requires
        vstd::utf8::valid_utf8(user),
        no_zero(user),
        users.spec_user_pwd(vstd::utf8::decode_utf8(user)) is Some,
    ensures
        ({
            let pwd = users.spec_user_pwd(vstd::utf8::decode_utf8(user))->Some_0;
            let data = spec_client_response_no_db(cap, max_packet, charset, user, spec_expected_auth(salt, pwd));
            spec_client_handshake(data, server_cap, salt, users) == HandshakeResult::Accepted {
                capability: server_cap & (cap & constants::ALL_CAPABILITY_FLAGS),
                user: vstd::utf8::decode_utf8(user),
                db: Seq::empty(),
            }
        }),
{
    let name = vstd::utf8::decode_utf8(user);
    let pwd = users.spec_user_pwd(name)->Some_0;
    let auth = spec_expected_auth(salt, pwd);
    let data = spec_client_response_no_db(cap, max_packet, charset, user, auth);
    assert(auth.len() == 0 || auth.len() == 20);
    utils::lemma_le_bytes_len(cap as nat, 4);
    utils::lemma_le_bytes_len(max_packet as nat, 4);
    utils::lemma_le_value_of_bytes(cap as nat, 4);
    assert(vstd::arithmetic::power::pow(256, 4) == 0x1_0000_0000) by {
        reveal_with_fuel(vstd::arithmetic::power::pow, 5);
    }
    assert(data.take(4) =~= utils::le_bytes(cap as nat, 4));
    let tail = seq![auth.len() as u8] + auth;
    assert(data.skip(32) =~= user + seq![0u8] + tail);
    lemma_cstr_of(user, tail);
    vstd::utf8::decode_utf8_encode_utf8(user);
    let p1 = 32 + user.len() as int + 1;
    assert(data[p1] == auth.len() as u8);
    let p2: int = p1 + 1;
    assert(data.subrange(p2, p2 + auth.len()) =~= auth);
    assert(p2 + auth.len() == data.len());
}

/// A client that sends no database field and names no configured user, or
/// answers the salt otherwise than that user's password does, is denied.
pub proof fn lemma_wrong_answer_without_db_denied(
    server_cap: u32,
    salt: Seq<u8>,
    users: ConfigShortcut,
    cap: u32,
    max_packet: u32,
    charset: u8,
    user: Seq<u8>,
    auth: Seq<u8>,
)
    requires
        vstd::utf8::valid_utf8(user),
        no_zero(user),
        auth.len() < 256,
        match users.spec_user_pwd(vstd::utf8::decode_utf8(user)) {
            Some(pwd) => auth != spec_expected_auth(salt, pwd),
            None => true,
        },
    ensures
        spec_client_handshake(spec_client_response_no_db(cap, max_packet, charset, user, auth), server_cap, salt, users)
            == (HandshakeResult::Denied {
            capability: server_cap & (cap & constants::ALL_CAPABILITY_FLAGS),
            user: vstd::utf8::decode_utf8(user),
        }),
{
    let data = spec_client_response_no_db(cap, max_packet, charset, user, auth);
    utils::lemma_le_bytes_len(cap as nat, 4);
    utils::lemma_le_bytes_len(max_packet as nat, 4);
    utils::lemma_le_value_of_bytes(cap as nat, 4);
    assert(vstd::arithmetic::power::pow(256, 4) == 0x1_0000_0000) by {
        reveal_with_fuel(vstd::arithmetic::power::pow, 5);
    }
    assert(data.take(4) =~= utils::le_bytes(cap as nat, 4));
    let tail = seq![auth.len() as u8] + auth;
    assert(data.skip(32) =~= user + seq![0u8] + tail);
    lemma_cstr_of(user, tail);
    vstd::utf8::decode_utf8_encode_utf8(user);
    let p1 = 32 + user.len() as int + 1;
    assert(data[p1] == auth.len() as u8);
    let p2: int = p1 + 1;
    assert(data.subrange(p2, p2 + auth.len()) =~= auth);
}

} // verus!
