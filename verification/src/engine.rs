//! Running a query written as text on data, for a target format.
use vstd::prelude::*;

use crate::lang::{lang_name, LangType};
use crate::parser::{sql, sql_spec, SqlError};
use crate::planner::{evaluate as run_query, query_model, query_spec, QueryError};
use crate::value::{PqlValue, ValueModel};

verus! {

/// Why a query cannot be run.
#[derive(Debug, Clone, Copy, PartialEq, Eq)]
pub enum EngineError {
    /// A format name is not one of `csv`, `json`, `toml`, `yaml`, `xml`.
    UnknownLang,
    /// The query text does not parse.
    Syntax(SqlError),
    /// The query has no result on the data.
    Query(QueryError),
}

/// The format named `s`, if any.
pub open spec fn lang_of(s: Seq<char>) -> Option<LangType> {
    if s == lang_name(LangType::Csv) {
        Some(LangType::Csv)
    } else if s == lang_name(LangType::Json) {
        Some(LangType::Json)
    } else if s == lang_name(LangType::Toml) {
        Some(LangType::Toml)
    } else if s == lang_name(LangType::Yaml) {
        Some(LangType::Yaml)
    } else if s == lang_name(LangType::Xml) {
        Some(LangType::Xml)
    } else {
        None
    }
}

/// The result of running the query text `q` on `data` read as format `from`,
/// for writing as format `to`: both format names are checked first, then the
/// query is parsed (see `sql_spec`) and run (see `query_spec`).
pub open spec fn engine_spec(q: Seq<char>, data: ValueModel, from: Seq<char>, to: Seq<char>) -> Result<
    (ValueModel, LangType),
    EngineError,
> {
    match (lang_of(from), lang_of(to)) {
        (Some(_), Some(t)) => match sql_spec(q) {
            None => Err(EngineError::Syntax(SqlError::Syntax)),
            Some(m) => match query_spec(m, data) {
                Ok(v) => Ok((v, t)),
                Err(e) => Err(EngineError::Query(e)),
            },
        },
        _ => Err(EngineError::UnknownLang),
    }
}

/// The model of the outcome of `evaluate`.
pub open spec fn engine_model(r: Result<(PqlValue, LangType), EngineError>) -> Result<
    (ValueModel, LangType),
    EngineError,
> {
    match r {
        Ok((v, t)) => Ok((v@, t)),
        Err(e) => Err(e),
    }
}

fn lang_exec(s: &str) -> (r: Option<LangType>)
    ensures
        r == lang_of(s@),
{
    let r = LangType::from_str(s);
    proof {
        match r {
            Some(t) => {},
            None => {
                assert(lang_name(LangType::Csv) != s@);
                assert(lang_name(LangType::Json) != s@);
                assert(lang_name(LangType::Toml) != s@);
                assert(lang_name(LangType::Yaml) != s@);
                assert(lang_name(LangType::Xml) != s@);
            },
        }
    }
    r
}

/// Runs the query text `sql_text` on `data` read as format `from`, for
/// writing as format `to` (see `engine_spec`): the rows and the target
/// format.
pub fn evaluate(sql_text: &str, data: PqlValue, from: &str, to: &str) -> (r: Result<
    (PqlValue, LangType),
    EngineError,
>)
    ensures
        engine_model(r) == engine_spec(sql_text@, data@, from@, to@),
{
    let from_type = lang_exec(from);
    let to_type = lang_exec(to);
    let target = match (from_type, to_type) {
        (Some(_), Some(t)) => t,
        _ => {
            return Err(EngineError::UnknownLang);
        },
    };
    let q = match sql(sql_text) {
        Ok(q) => q,
        Err(e) => {
            return Err(EngineError::Syntax(e));
        },
    };
    match run_query(q, data) {
        Ok(v) => Ok((v, target)),
        Err(e) => Err(EngineError::Query(e)),
    }
}


/// A format's name names that format.
pub proof fn lemma_lang_name_roundtrip(t: LangType)
    ensures
        lang_of(lang_name(t)) == Some(t),
{
    assert(lang_name(LangType::Csv) != lang_name(LangType::Json));
    assert(lang_name(LangType::Csv) != lang_name(LangType::Toml));
    assert(lang_name(LangType::Csv) != lang_name(LangType::Yaml));
    assert(lang_name(LangType::Csv) != lang_name(LangType::Xml));
    assert(lang_name(LangType::Json) != lang_name(LangType::Toml));
    assert(lang_name(LangType::Json) != lang_name(LangType::Yaml));
    assert(lang_name(LangType::Json) != lang_name(LangType::Xml));
    assert(lang_name(LangType::Toml) != lang_name(LangType::Yaml));
    assert(lang_name(LangType::Toml) != lang_name(LangType::Xml));
    assert(lang_name(LangType::Yaml) != lang_name(LangType::Xml));
}

} // verus!
