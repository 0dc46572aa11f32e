use vstd::prelude::*;
use vstd::string::StringExecFns;
use crate::mysql::errors::MysqlError;

verus! {

/// Errors of the connection pools.
#[derive(Debug)]
pub enum BackendError {
    InnerErrPipeEmpty,
    InnerErrReachedMinConnCount,
    InnerErrOfflineOrQuit,
    InnerErrGreaterThenMaxConnCount,
    PoolErrClusterIdNotFound(String),
    PoolErrNodeNotFound(String),
    PoolErrNodeIdNotFound,
    PoolErrNodeLineNotFound,
    PoolErrConnGrowGiveup(String),
    PoolErrConnGrowFailed(String),
    IO(std::io::Error),
    Mysql(MysqlError),
}

impl From<MysqlError> for BackendError {
    fn from(e: MysqlError) -> (r: Self) {
        BackendError::Mysql(e)
    }
}

impl vstd::std_specs::convert::FromSpecImpl<MysqlError> for BackendError {
    open spec fn obeys_from_spec() -> bool {
        true
    }

    open spec fn from_spec(e: MysqlError) -> Self {
        BackendError::Mysql(e)
    }
}

impl From<std::io::Error> for BackendError {
    fn from(e: std::io::Error) -> (r: Self) {
        BackendError::IO(e)
    }
}

impl vstd::std_specs::convert::FromSpecImpl<std::io::Error> for BackendError {
    open spec fn obeys_from_spec() -> bool {
        true
    }

    open spec fn from_spec(e: std::io::Error) -> Self {
        BackendError::IO(e)
    }
}

/// The text of an error that wraps neither an I/O nor a protocol error.
pub open spec fn spec_backend_error_text(e: BackendError) -> Seq<char> {
    match e {
        BackendError::InnerErrPipeEmpty => "node conn pipe is empty!"@,
        BackendError::InnerErrReachedMinConnCount => "node conn count reached min count!"@,
        BackendError::InnerErrOfflineOrQuit => "node offline or quit!"@,
        BackendError::InnerErrGreaterThenMaxConnCount => "node conn count reached max count!"@,
        BackendError::PoolErrClusterIdNotFound(s) => "cluster_id not exist: "@ + s@,
        BackendError::PoolErrNodeNotFound(s) => "node_id not exist: "@ + s@,
        BackendError::PoolErrNodeIdNotFound => "node_id not exist!"@,
        BackendError::PoolErrNodeLineNotFound => "node pipe line  not exist!"@,
        BackendError::PoolErrConnGrowGiveup(s) => "node is online, no conn grows: "@ + s@,
        BackendError::PoolErrConnGrowFailed(s) => "no conn could be opened to node: "@ + s@,
        BackendError::IO(_) => Seq::empty(),
        BackendError::Mysql(_) => Seq::empty(),
    }
}

impl BackendError {
    /// The text of the error, as it is displayed; a wrapped I/O error shows
    /// the system's text.
    pub fn to_text(&self) -> (r: String)
        ensures
            !(*self is IO) && !(*self is Mysql) ==> r@ == spec_backend_error_text(*self),
            (*self matches BackendError::Mysql(e) && !(e is Io)) ==> r@
                == crate::mysql::errors::spec_mysql_error_text(self->Mysql_0),
    {
        match self {
            BackendError::InnerErrPipeEmpty => String::from_str("node conn pipe is empty!"),
            BackendError::InnerErrReachedMinConnCount => String::from_str("node conn count reached min count!"),
            BackendError::InnerErrOfflineOrQuit => String::from_str("node offline or quit!"),
            BackendError::InnerErrGreaterThenMaxConnCount => String::from_str("node conn count reached max count!"),
            BackendError::PoolErrClusterIdNotFound(s) => {
                let mut r = String::from_str("cluster_id not exist: ");
                r.append(s.as_str());
                r
            },
            BackendError::PoolErrNodeNotFound(s) => {
                let mut r = String::from_str("node_id not exist: ");
                r.append(s.as_str());
                r
            },
            BackendError::PoolErrNodeIdNotFound => String::from_str("node_id not exist!"),
            BackendError::PoolErrNodeLineNotFound => String::from_str("node pipe line  not exist!"),
            BackendError::PoolErrConnGrowGiveup(s) => {
                let mut r = String::from_str("node is online, no conn grows: ");
                r.append(s.as_str());
                r
            },
            BackendError::PoolErrConnGrowFailed(s) => {
                let mut r = String::from_str("no conn could be opened to node: ");
                r.append(s.as_str());
                r
            },
            BackendError::IO(e) => crate::mysql::errors::io_error_text(e),
            BackendError::Mysql(e) => e.to_text(),
        }
    }
}

} // verus!
