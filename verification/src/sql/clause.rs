//! The `ORDER BY` and `LIMIT` clauses.
use vstd::prelude::*;

verus! {

/// `ORDER BY label [ASC|DESC]`.
#[derive(Debug, Default, Clone, PartialEq)]
pub struct OrderBy {
    pub label: String,
    pub is_asc: bool,
}

/// `LIMIT limit [OFFSET offset]`.
#[derive(Debug, Default, Clone, PartialEq)]
pub struct Limit {
    pub limit: u64,
    pub offset: u64,
}

} // verus!
