use vstd::prelude::*;

verus! {

/// Largest payload of a single MySQL packet.
pub const MAX_PAYLOAD_LEN: usize = 16_777_215;
pub const DEFAULT_MAX_ALLOWED_PACKET: usize = 4194304;
pub const MIN_PROTOCOL_VERSION: u8 = 10;
pub const UTF8_GENERAL_CI: u8 = 33;
pub const UTF8MB4_GENERAL_CI: u8 = 45;
/// First byte of an OK packet.
pub const OK_PACKET_HEADER_MARK: u8 = 0x00;

/// The version the proxy announces in its handshake.
pub fn server_version() -> (v: &'static str)
    ensures
        v@ == "1.0.0-sparrow"@,
{
    "1.0.0-sparrow"
}

// Server status flags.
pub const SERVER_STATUS_IN_TRANS: u16 = 0x0001;
pub const SERVER_STATUS_AUTOCOMMIT: u16 = 0x0002;
pub const SERVER_MORE_RESULTS_EXISTS: u16 = 0x0008;
pub const SERVER_STATUS_NO_GOOD_INDEX_USED: u16 = 0x0010;
pub const SERVER_STATUS_NO_INDEX_USED: u16 = 0x0020;
pub const SERVER_STATUS_CURSOR_EXISTS: u16 = 0x0040;
pub const SERVER_STATUS_LAST_ROW_SENT: u16 = 0x0080;
pub const SERVER_STATUS_DB_DROPPED: u16 = 0x0100;
pub const SERVER_STATUS_NO_BACKSLASH_ESCAPES: u16 = 0x0200;
pub const SERVER_STATUS_METADATA_CHANGED: u16 = 0x0400;
pub const SERVER_QUERY_WAS_SLOW: u16 = 0x0800;
pub const SERVER_PS_OUT_PARAMS: u16 = 0x1000;
pub const SERVER_STATUS_IN_TRANS_READONLY: u16 = 0x2000;
pub const SERVER_SESSION_STATE_CHANGED: u16 = 0x4000;
/// Every status flag the server knows.
pub const ALL_STATUS_FLAGS: u16 = 0x7ffb;

/// A set of MySQL server status flags: only known flags are ever held.
#[derive(Debug, Clone, Copy, PartialEq, Eq, Structural)]
pub struct StatusFlags {
    bits: u16,
}

impl StatusFlags {
    /// A value only holds known flags.
    pub open spec fn wf(self) -> bool {
        self.spec_bits() & !ALL_STATUS_FLAGS == 0
    }

    pub closed spec fn spec_bits(self) -> u16 {
        self.bits
    }

    /// The flag set holding the known flags of `bits`.
    pub closed spec fn spec_from_bits_truncate(bits: u16) -> StatusFlags {
        StatusFlags { bits: bits & ALL_STATUS_FLAGS }
    }

    /// The flag set made from `bits` holds their known flags.
    pub proof fn lemma_from_bits_truncate_bits(bits: u16)
        ensures
            Self::spec_from_bits_truncate(bits).spec_bits() == bits & ALL_STATUS_FLAGS,
    {
    }

    /// Truncating the bits of a flag set gives the set back.
    pub proof fn lemma_from_own_bits(self)
        requires
            self.wf(),
        ensures
            Self::spec_from_bits_truncate(self.spec_bits()) == self,
    {
        let b = self.bits;
        assert(b & !0x7ffbu16 == 0 ==> b & 0x7ffb == b) by (bit_vector);
    }

    /// Keeps the known flags of `bits`, drops the others.
    pub fn from_bits_truncate(bits: u16) -> (f: StatusFlags)
        ensures
            f == Self::spec_from_bits_truncate(bits),
            f.spec_bits() == bits & ALL_STATUS_FLAGS,
            f.wf(),
    {
        let f = StatusFlags { bits: bits & ALL_STATUS_FLAGS };
        assert(bits & 0x7ffb & !0x7ffbu16 == 0) by (bit_vector);
        f
    }

    pub fn empty() -> (f: StatusFlags)
        ensures
            f.spec_bits() == 0,
            f.wf(),
    {
        assert(0u16 & !0x7ffbu16 == 0) by (bit_vector);
        StatusFlags { bits: 0 }
    }

    pub fn bits(&self) -> (b: u16)
        ensures
            b == self.spec_bits(),
    {
        self.bits
    }

    /// Whether every flag of `other` is set here.
    pub fn contains(&self, other: StatusFlags) -> (r: bool)
        ensures
            r == (self.spec_bits() & other.spec_bits() == other.spec_bits()),
    {
        self.bits & other.bits == other.bits
    }
}

// Client capability flags.
pub const CLIENT_LONG_PASSWORD: u32 = 0x0000_0001;
pub const CLIENT_FOUND_ROWS: u32 = 0x0000_0002;
pub const CLIENT_LONG_FLAG: u32 = 0x0000_0004;
pub const CLIENT_CONNECT_WITH_DB: u32 = 0x0000_0008;
pub const CLIENT_NO_SCHEMA: u32 = 0x0000_0010;
pub const CLIENT_COMPRESS: u32 = 0x0000_0020;
pub const CLIENT_ODBC: u32 = 0x0000_0040;
pub const CLIENT_LOCAL_FILES: u32 = 0x0000_0080;
pub const CLIENT_IGNORE_SPACE: u32 = 0x0000_0100;
pub const CLIENT_PROTOCOL_41: u32 = 0x0000_0200;
pub const CLIENT_INTERACTIVE: u32 = 0x0000_0400;
pub const CLIENT_SSL: u32 = 0x0000_0800;
pub const CLIENT_IGNORE_SIGPIPE: u32 = 0x0000_1000;
pub const CLIENT_TRANSACTIONS: u32 = 0x0000_2000;
pub const CLIENT_RESERVED: u32 = 0x0000_4000;
pub const CLIENT_SECURE_CONNECTION: u32 = 0x0000_8000;
pub const CLIENT_MULTI_STATEMENTS: u32 = 0x0001_0000;
pub const CLIENT_MULTI_RESULTS: u32 = 0x0002_0000;
pub const CLIENT_PS_MULTI_RESULTS: u32 = 0x0004_0000;
pub const CLIENT_PLUGIN_AUTH: u32 = 0x0008_0000;
pub const CLIENT_CONNECT_ATTRS: u32 = 0x0010_0000;
pub const CLIENT_PLUGIN_AUTH_LENENC_CLIENT_DATA: u32 = 0x0020_0000;
pub const CLIENT_CAN_HANDLE_EXPIRED_PASSWORDS: u32 = 0x0040_0000;
pub const CLIENT_SESSION_TRACK: u32 = 0x0080_0000;
pub const CLIENT_DEPRECATE_EOF: u32 = 0x0100_0000;
pub const CLIENT_PROGRESS_OBSOLETE: u32 = 0x2000_0000;
pub const CLIENT_SSL_VERIFY_SERVER_CERT: u32 = 0x4000_0000;
pub const CLIENT_REMEMBER_OPTIONS: u32 = 0x8000_0000;
/// Every capability flag the protocol defines.
pub const ALL_CAPABILITY_FLAGS: u32 = 0xe1ff_ffff;
/// The capabilities the proxy offers to its clients.
pub const DEFAULT_CAPABILITY: u32 = 0x0000_a20d;

/// A set of client capability flags: only known flags are ever held.
#[derive(Debug, Clone, Copy, PartialEq, Eq, Structural)]
pub struct CapabilityFlags {
    bits: u32,
}

impl CapabilityFlags {
    pub open spec fn wf(self) -> bool {
        self.spec_bits() & !ALL_CAPABILITY_FLAGS == 0
    }

    pub closed spec fn spec_bits(self) -> u32 {
        self.bits
    }

    /// Keeps the known flags of `bits`, drops the others.
    pub fn from_bits_truncate(bits: u32) -> (f: CapabilityFlags)
        ensures
            f.spec_bits() == bits & ALL_CAPABILITY_FLAGS,
            f.wf(),
    {
        assert(bits & 0xe1ff_ffff & !0xe1ff_ffffu32 == 0) by (bit_vector);
        CapabilityFlags { bits: bits & ALL_CAPABILITY_FLAGS }
    }

    pub fn bits(&self) -> (b: u32)
        ensures
            b == self.spec_bits(),
    {
        self.bits
    }

    /// Whether every flag of `other` is set here.
    pub fn contains(&self, other: CapabilityFlags) -> (r: bool)
        ensures
            r == (self.spec_bits() & other.spec_bits() == other.spec_bits()),
    {
        self.bits & other.bits == other.bits
    }

    /// Keeps only the flags that are set in both.
    pub fn intersect(&self, other: CapabilityFlags) -> (f: CapabilityFlags)
        ensures
            f.spec_bits() == self.spec_bits() & other.spec_bits(),
    {
        CapabilityFlags { bits: self.bits & other.bits }
    }
}

/// The capabilities a new client connection starts from: long password,
/// long flag, connect-with-db, protocol 4.1, transactions, secure connection.
pub fn get_default_capability_flags() -> (f: CapabilityFlags)
    ensures
        f.spec_bits() == DEFAULT_CAPABILITY,
{
    assert(0xa20du32 & 0xe1ff_ffff == 0xa20d) by (bit_vector);
    CapabilityFlags::from_bits_truncate(DEFAULT_CAPABILITY)
}

/// MySQL server commands, in the order of their code.
#[allow(non_camel_case_types)]
#[derive(Clone, Copy, Eq, PartialEq, Debug, Structural)]
pub enum Command {
    COM_SLEEP,
    COM_QUIT,
    COM_INIT_DB,
    COM_QUERY,
    COM_FIELD_LIST,
    COM_CREATE_DB,
    COM_DROP_DB,
    COM_REFRESH,
    COM_DEPRECATED_1,
    COM_STATISTICS,
    COM_PROCESS_INFO,
    COM_CONNECT,
    COM_PROCESS_KILL,
    COM_DEBUG,
    COM_PING,
    COM_TIME,
    COM_DELAYED_INSERT,
    COM_CHANGE_USER,
    COM_BINLOG_DUMP,
    COM_TABLE_DUMP,
    COM_CONNECT_OUT,
    COM_REGISTER_SLAVE,
    COM_STMT_PREPARE,
    COM_STMT_EXECUTE,
    COM_STMT_SEND_LONG_DATA,
    COM_STMT_CLOSE,
    COM_STMT_RESET,
    COM_SET_OPTION,
    COM_STMT_FETCH,
    COM_DAEMON,
    COM_BINLOG_DUMP_GTID,
    COM_RESET_CONNECTION,
    COM_END,
}

} // verus!
