use vstd::prelude::*;

verus! {

/// The server error a failed handshake is answered with.
pub const ER_HANDSHAKE_ERROR: u16 = 1043;
/// The SQL state of an error that has none of its own.
pub const DEFAULT_MYSQL_STATE: &'static str = "HY000";

/// The name of a server error, where the proxy knows it.
pub open spec fn spec_sql_err_name(code: u16) -> Option<Seq<char>> {
    if code == ER_HANDSHAKE_ERROR {
        Some("Bad handshake"@)
    } else {
        None
    }
}

/// The name of a server error, where the proxy knows it.
pub fn sql_err_name(code: u16) -> (r: Option<&'static str>)
    ensures
        match spec_sql_err_name(code) {
            Some(n) => r matches Some(s) && s@ == n,
            None => r is None,
        },
{
    if code == ER_HANDSHAKE_ERROR {
        Some("Bad handshake")
    } else {
        None
    }
}

/// The SQL state of a server error: `08S01` for a failed handshake,
/// `HY000` for any other.
pub open spec fn spec_sql_state(code: u16) -> Seq<char> {
    if code == ER_HANDSHAKE_ERROR {
        "08S01"@
    } else {
        "HY000"@
    }
}

/// The SQL state of a server error.
pub fn sql_state(code: u16) -> (r: &'static str)
    ensures
        r@ == spec_sql_state(code),
{
    if code == ER_HANDSHAKE_ERROR {
        "08S01"
    } else {
        DEFAULT_MYSQL_STATE
    }
}

} // verus!
