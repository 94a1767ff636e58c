//! The data formats that queries read and write.
use vstd::prelude::*;

use crate::text::str_eq;

verus! {

/// A data format.
#[derive(Debug, Clone, Copy, PartialEq, Eq)]
pub enum LangType {
    Csv,
    Json,
    Toml,
    Yaml,
    Xml,
}

/// The name of a format, in snake case.
pub open spec fn lang_name(t: LangType) -> Seq<char> {
    match t {
        LangType::Csv => seq!['c', 's', 'v'],
        LangType::Json => seq!['j', 's', 'o', 'n'],
        LangType::Toml => seq!['t', 'o', 'm', 'l'],
        LangType::Yaml => seq!['y', 'a', 'm', 'l'],
        LangType::Xml => seq!['x', 'm', 'l'],
    }
}

impl LangType {
    /// The format named `s` (`csv`, `json`, `toml`, `yaml` or `xml`), if any.
    pub fn from_str(s: &str) -> (r: Option<LangType>)
        ensures
            match r {
                Some(t) => lang_name(t) == s@,
                None => forall|t: LangType| lang_name(t) != s@,
            },
    {
        proof {
            reveal_strlit("csv");
            reveal_strlit("json");
            reveal_strlit("toml");
            reveal_strlit("yaml");
            reveal_strlit("xml");
            assert("csv"@ =~= lang_name(LangType::Csv));
            assert("json"@ =~= lang_name(LangType::Json));
            assert("toml"@ =~= lang_name(LangType::Toml));
            assert("yaml"@ =~= lang_name(LangType::Yaml));
            assert("xml"@ =~= lang_name(LangType::Xml));
        }
        if str_eq(s, "csv") {
            Some(LangType::Csv)
        } else if str_eq(s, "json") {
            Some(LangType::Json)
        } else if str_eq(s, "toml") {
            Some(LangType::Toml)
        } else if str_eq(s, "yaml") {
            Some(LangType::Yaml)
        } else if str_eq(s, "xml") {
            Some(LangType::Xml)
        } else {
            proof {
                assert forall|t: LangType| lang_name(t) != s@ by {
                    match t {
                        LangType::Csv => {},
                        LangType::Json => {},
                        LangType::Toml => {},
                        LangType::Yaml => {},
                        LangType::Xml => {},
                    }
                }
            }
            None
        }
    }

    /// The name of the format (see `lang_name`).
    pub fn to_string(&self) -> (r: String)
        ensures
            r@ == lang_name(*self),
    {
        proof {
            reveal_strlit("csv");
            reveal_strlit("json");
            reveal_strlit("toml");
            reveal_strlit("yaml");
            reveal_strlit("xml");
        }
        let s = match self {
            LangType::Csv => "csv",
            LangType::Json => "json",
            LangType::Toml => "toml",
            LangType::Yaml => "yaml",
            LangType::Xml => "xml",
        };
        let r = s.to_owned();
        assert(r@ =~= lang_name(*self));
        r
    }
}

} // verus!
