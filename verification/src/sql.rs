//! Queries: selectors (paths into values), expressions, fields, conditions,
//! the alias environment, and the filtering of values by a condition.
pub mod bindings;
pub mod bingings;
pub mod clause;
pub mod env;
pub mod eval;
pub mod expr;
pub mod field;
pub mod filter;
pub mod selector;

pub use clause::{Limit, OrderBy};
pub use env::Env;

pub use expr::{Expr, Func, Sql, WhereCond};
pub use field::{Field, Proj};
pub use filter::{re_from_str, restrict};
pub use selector::{Selector, SelectorNode};
