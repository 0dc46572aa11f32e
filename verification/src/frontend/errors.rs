use vstd::prelude::*;
use crate::mysql::errors::MysqlError;

verus! {

/// Errors of a client session.
#[derive(Debug)]
pub enum FrontendError {
    Io(std::io::Error),
    ErrMysql(MysqlError),
    ProxyAuthDenied,
    ProxyAuthOldinClientProtocol41,
}

impl From<MysqlError> for FrontendError {
    fn from(e: MysqlError) -> (r: Self) {
        FrontendError::ErrMysql(e)
    }
}

impl vstd::std_specs::convert::FromSpecImpl<MysqlError> for FrontendError {
    open spec fn obeys_from_spec() -> bool {
        true
    }

    open spec fn from_spec(e: MysqlError) -> Self {
        FrontendError::ErrMysql(e)
    }
}

impl From<std::io::Error> for FrontendError {
    fn from(e: std::io::Error) -> (r: Self) {
        FrontendError::Io(e)
    }
}

impl vstd::std_specs::convert::FromSpecImpl<std::io::Error> for FrontendError {
    open spec fn obeys_from_spec() -> bool {
        true
    }

    open spec fn from_spec(e: std::io::Error) -> Self {
        FrontendError::Io(e)
    }
}

impl FrontendError {
    /// The text of the error, as it is displayed; an I/O error, or a
    /// protocol error that wraps one, shows the system's text.
    pub fn to_text(&self) -> (r: String)
        ensures
            *self is ProxyAuthDenied ==> r@ == "proxy auth denied!"@,
            *self is ProxyAuthOldinClientProtocol41 ==> r@ == "Too old than CapabilityFlags::CLIENT_PROTOCOL_41!"@,
            (*self matches FrontendError::ErrMysql(e) && !(e is Io)) ==> r@
                == crate::mysql::errors::spec_mysql_error_text(self->ErrMysql_0),
    {
        match self {
            FrontendError::ProxyAuthDenied => String::from_str("proxy auth denied!"),
            FrontendError::ProxyAuthOldinClientProtocol41 => String::from_str(
                "Too old than CapabilityFlags::CLIENT_PROTOCOL_41!",
            ),
            FrontendError::Io(e) => crate::mysql::errors::io_error_text(e),
            FrontendError::ErrMysql(e) => e.to_text(),
        }
    }
}

} // verus!
