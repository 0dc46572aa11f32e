use vstd::prelude::*;
use vstd::string::StringExecFns;
use crate::text;

verus! {

/// Errors of the router built from the sharding schemas.
#[derive(Debug, Clone)]
pub enum RouterError {
    ShardSchemaParameterILL(String),
    ShardSchemaIntegerRangeILL(String),
    LookupErrShardValueEmpty,
    LookupErrClusterPairsEmpty,
    LookupErrShardValueILL(String),
    LookupErrNotInIntegerRange(String),
    LookupErrTableNotExist,
    LookupErrDBNotExist,
    LookupErrSchemaNotExit,
}

/// The text of an error: its name, and the detail that it carries.
pub open spec fn spec_router_error_text(e: RouterError) -> Seq<char> {
    match e {
        RouterError::LookupErrTableNotExist => "RouterError::LookupErrTableNotExist"@,
        RouterError::ShardSchemaParameterILL(s) => "RouterError::ShardSchemaParameterILL: "@ + s@,
        RouterError::LookupErrDBNotExist => "RouterError::LookupErrDBNotExist"@,
        RouterError::LookupErrSchemaNotExit => "RouterError::LookupErrSchemaNotExit"@,
        RouterError::ShardSchemaIntegerRangeILL(s) => "RouterError::ShardSchemaIntegerRangeILL: "@
            + s@,
        RouterError::LookupErrShardValueEmpty => "RouterError::LookupErrShardValueEmpty"@,
        RouterError::LookupErrClusterPairsEmpty => "RouterError::LookupErrClusterPairsEmpty"@,
        RouterError::LookupErrShardValueILL(s) => "RouterError::LookupErrShardValueILL: "@ + s@,
        RouterError::LookupErrNotInIntegerRange(s) => "RouterError::LookupErrNotInIntegerRange: "@
            + s@,
    }
}

/// The detail an error carries, empty for those that carry none.
pub open spec fn spec_router_error_detail(e: RouterError) -> Seq<char> {
    match e {
        RouterError::ShardSchemaParameterILL(s) => s@,
        RouterError::ShardSchemaIntegerRangeILL(s) => s@,
        RouterError::LookupErrShardValueILL(s) => s@,
        RouterError::LookupErrNotInIntegerRange(s) => s@,
        _ => Seq::empty(),
    }
}

impl RouterError {
    /// The text of the error, as it is displayed.
    pub fn to_text(&self) -> (r: String)
        ensures
            r@ == spec_router_error_text(*self),
    {
        match self {
            RouterError::LookupErrTableNotExist => String::from_str("RouterError::LookupErrTableNotExist"),
            RouterError::ShardSchemaParameterILL(s) => {
                let mut r = String::from_str("RouterError::ShardSchemaParameterILL: ");
                r.append(s.as_str());
                r
            },
            RouterError::LookupErrDBNotExist => String::from_str("RouterError::LookupErrDBNotExist"),
            RouterError::LookupErrSchemaNotExit => String::from_str("RouterError::LookupErrSchemaNotExit"),
            RouterError::ShardSchemaIntegerRangeILL(s) => {
                let mut r = String::from_str("RouterError::ShardSchemaIntegerRangeILL: ");
                r.append(s.as_str());
                r
            },
            RouterError::LookupErrShardValueEmpty => String::from_str("RouterError::LookupErrShardValueEmpty"),
            RouterError::LookupErrClusterPairsEmpty => String::from_str("RouterError::LookupErrClusterPairsEmpty"),
            RouterError::LookupErrShardValueILL(s) => {
                let mut r = String::from_str("RouterError::LookupErrShardValueILL: ");
                r.append(s.as_str());
                r
            },
            RouterError::LookupErrNotInIntegerRange(s) => {
                let mut r = String::from_str("RouterError::LookupErrNotInIntegerRange: ");
                r.append(s.as_str());
                r
            },
        }
    }
}

impl PartialEq for RouterError {
    fn eq(&self, other: &Self) -> (r: bool) {
        match (self, other) {
            (RouterError::ShardSchemaParameterILL(a), RouterError::ShardSchemaParameterILL(b)) => text::str_eq(a.as_str(), b.as_str()),
            (RouterError::ShardSchemaIntegerRangeILL(a), RouterError::ShardSchemaIntegerRangeILL(b)) => text::str_eq(a.as_str(), b.as_str()),
            (RouterError::LookupErrShardValueEmpty, RouterError::LookupErrShardValueEmpty) => true,
            (RouterError::LookupErrClusterPairsEmpty, RouterError::LookupErrClusterPairsEmpty) => true,
            (RouterError::LookupErrShardValueILL(a), RouterError::LookupErrShardValueILL(b)) => text::str_eq(a.as_str(), b.as_str()),
            (RouterError::LookupErrNotInIntegerRange(a), RouterError::LookupErrNotInIntegerRange(b)) => text::str_eq(a.as_str(), b.as_str()),
            (RouterError::LookupErrTableNotExist, RouterError::LookupErrTableNotExist) => true,
            (RouterError::LookupErrDBNotExist, RouterError::LookupErrDBNotExist) => true,
            (RouterError::LookupErrSchemaNotExit, RouterError::LookupErrSchemaNotExit) => true,
            _ => false,
        }
    }
}

impl vstd::std_specs::cmp::PartialEqSpecImpl for RouterError {
    open spec fn obeys_eq_spec() -> bool {
        true
    }

    open spec fn eq_spec(&self, other: &Self) -> bool {
        match (*self, *other) {
            (RouterError::ShardSchemaParameterILL(a), RouterError::ShardSchemaParameterILL(b)) => a@ == b@,
            (RouterError::ShardSchemaIntegerRangeILL(a), RouterError::ShardSchemaIntegerRangeILL(b)) => a@ == b@,
            (RouterError::LookupErrShardValueEmpty, RouterError::LookupErrShardValueEmpty) => true,
            (RouterError::LookupErrClusterPairsEmpty, RouterError::LookupErrClusterPairsEmpty) => true,
            (RouterError::LookupErrShardValueILL(a), RouterError::LookupErrShardValueILL(b)) => a@ == b@,
            (RouterError::LookupErrNotInIntegerRange(a), RouterError::LookupErrNotInIntegerRange(b)) => a@ == b@,
            (RouterError::LookupErrTableNotExist, RouterError::LookupErrTableNotExist) => true,
            (RouterError::LookupErrDBNotExist, RouterError::LookupErrDBNotExist) => true,
            (RouterError::LookupErrSchemaNotExit, RouterError::LookupErrSchemaNotExit) => true,
            _ => false,
        }
    }
}

/// Errors of the router built from the flat shard schema list.
#[derive(Debug, Clone)]
pub enum ShardRouterError {
    ShardSchemaParameterILL(String),
    ShardSchemaIntegerRangeILL(String),
    NoShardSchemaConfig,
    NoClusterConfig(String),
    NoNodeConfig(String),
}

} // verus!
