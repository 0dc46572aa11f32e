use vstd::prelude::*;

verus! {

#[verifier::external_type_specification]
#[verifier::external_body]
pub struct ExIoError(std::io::Error);

/// Errors of the MySQL protocol layer.
#[derive(Debug)]
pub enum MysqlError {
    MismatchPacketSequence,
    PacketlZeroPayload,
    InvalidPacketHeader,
    IncompletePacketPayload,
    OkPacketWrongSize,
    OkPacketILL,
    ErrPacketWrongSize,
    ErrPacketILL,
    ErUnknownCmd,
    Io(std::io::Error),
}

/// `std::io::Error`'s `Display`: the text of an I/O error, which comes
/// from the system and is not stated here.
#[verifier::external_body]
pub(crate) fn io_error_text(e: &std::io::Error) -> (r: String) {
    e.to_string()
}

/// The text of an error other than an I/O one.
pub open spec fn spec_mysql_error_text(e: MysqlError) -> Seq<char> {
    match e {
        MysqlError::MismatchPacketSequence => "MysqlError::MismatchPacketSequence!"@,
        MysqlError::PacketlZeroPayload => "MysqlError::PacketlZeroPayload!"@,
        MysqlError::InvalidPacketHeader => "MysqlError::InvalidPacketHeader!"@,
        MysqlError::IncompletePacketPayload => "MysqlError::IncompletePacketPayload!"@,
        MysqlError::OkPacketWrongSize => "MysqlError::OkPacketWrongSize!"@,
        MysqlError::OkPacketILL => "MysqlError::OkPacketILL!"@,
        MysqlError::ErUnknownCmd => "MysqlError::ErUnknownCmd!"@,
        MysqlError::ErrPacketWrongSize => "MysqlError::ErrPacketWrongSize!"@,
        MysqlError::ErrPacketILL => "MysqlError::ErrPacketILL!"@,
        MysqlError::Io(_) => Seq::empty(),
    }
}

impl MysqlError {
    /// The text of the error, as it is displayed; an I/O error shows the
    /// system's text.
    pub fn to_text(&self) -> (r: String)
        ensures
            !(*self is Io) ==> r@ == spec_mysql_error_text(*self),
    {
        match self {
            MysqlError::MismatchPacketSequence => String::from_str("MysqlError::MismatchPacketSequence!"),
            MysqlError::PacketlZeroPayload => String::from_str("MysqlError::PacketlZeroPayload!"),
            MysqlError::InvalidPacketHeader => String::from_str("MysqlError::InvalidPacketHeader!"),
            MysqlError::IncompletePacketPayload => String::from_str("MysqlError::IncompletePacketPayload!"),
            MysqlError::OkPacketWrongSize => String::from_str("MysqlError::OkPacketWrongSize!"),
            MysqlError::OkPacketILL => String::from_str("MysqlError::OkPacketILL!"),
            MysqlError::ErUnknownCmd => String::from_str("MysqlError::ErUnknownCmd!"),
            MysqlError::ErrPacketWrongSize => String::from_str("MysqlError::ErrPacketWrongSize!"),
            MysqlError::ErrPacketILL => String::from_str("MysqlError::ErrPacketILL!"),
            MysqlError::Io(e) => io_error_text(e),
        }
    }
}

impl From<std::io::Error> for MysqlError {
    fn from(e: std::io::Error) -> (r: Self) {
        MysqlError::Io(e)
    }
}

impl vstd::std_specs::convert::FromSpecImpl<std::io::Error> for MysqlError {
    open spec fn obeys_from_spec() -> bool {
        true
    }

    open spec fn from_spec(e: std::io::Error) -> Self {
        MysqlError::Io(e)
    }
}

} // verus!
