//! The structural-parser language table: which grammars the item extractor
//! can drive, and how a grammar and a compiled query are obtained from the
//! parser library.

use tree_sitter::Language as TsLanguage;
use vstd::prelude::*;

verus! {

/// Declares tree_sitter::Language, an opaque handle to a grammar.
#[verifier::external_type_specification]
#[verifier::external_body]
pub struct ExTsLanguage(TsLanguage);

/// Declares tree_sitter::Query, an opaque compiled structural query.
#[verifier::external_type_specification]
#[verifier::external_body]
pub struct ExTsQuery(tree_sitter::Query);

/// A language the item extractor can parse.
#[derive(Clone, Copy, Debug, PartialEq, Eq, Hash, Structural)]
pub enum Language {
    Rust,
}

impl Language {
    /// Every supported language.
    pub fn all() -> (r: Vec<Language>)
        ensures
            r@ == seq![Language::Rust],
    {
        let mut r: Vec<Language> = Vec::new();
        r.push(Language::Rust);
        proof {
            assert(r@ =~= seq![Language::Rust]);
        }
        r
    }

    /// The grammar of this language.
    ///
    /// Relies on tree_sitter_rust::language, which returns the handle to the
    /// bundled Rust grammar.
    #[verifier::external_body]
    pub fn language(&self) -> tree_sitter::Language {
        match self {
            Language::Rust => tree_sitter_rust::language(),
        }
    }

    /// Compile a structural query against this language's grammar, or `None`
    /// when the query text is rejected.
    ///
    /// Relies on tree_sitter::Query::new, which compiles a query over the
    /// given grammar. Its error report for a bad name takes the text from
    /// the error offset up to the first character that cannot be part of a
    /// name, and mis-slices when only name characters follow the offset;
    /// a query whose last character cannot be part of a name never reaches
    /// that slice, so only such queries are admitted.
    #[verifier::external_body]
    pub fn parse_query(&self, raw: &str) -> Option<tree_sitter::Query>
        requires
            safe_query_text(raw@),
    {
        match self {
            Language::Rust => tree_sitter::Query::new(tree_sitter_rust::language(), raw).ok(),
        }
    }

    /// The language whose matcher name is `s`: `Rust` for `rust`, and none
    /// for any other name.
    pub fn language_for_name(s: &str) -> (r: Option<Language>)
        ensures
            r == (if s@ == "rust"@ {
                Some(Language::Rust)
            } else {
                None::<Language>
            }),
    {
        let rust_name: String = "rust".to_owned();
        if s.to_owned() == rust_name {
            Some(Language::Rust)
        } else {
            None
        }
    }

    /// The name under which a file-type matcher knows this language.
    pub fn name_for_types_builder(&self) -> (r: &'static str)
        ensures
            r@ == "rust"@,
    {
        match self {
            Language::Rust => "rust",
        }
    }
}

/// Whether a character can stand outside a name in a structural query, so
/// that a query ending in it is reported without mis-slicing when its text
/// is rejected.
pub open spec fn closes_query(c: char) -> bool {
    ||| c == ')'
    ||| c == '('
    ||| c == ']'
    ||| c == '['
    ||| c == '}'
    ||| c == '{'
    ||| c == '"'
    ||| c == ' '
    ||| c == '\n'
    ||| c == '\t'
}

/// A query text that is empty or ends in a character that cannot be part of
/// a name.
pub open spec fn safe_query_text(q: Seq<char>) -> bool {
    q.len() == 0 || closes_query(q.last())
}

/// The error of parsing a language name nobody supports.
#[derive(Clone, Copy, Debug, PartialEq, Eq, Structural)]
pub struct UnknownLanguage {}

impl core::str::FromStr for Language {
    type Err = UnknownLanguage;

    /// The language whose matcher name is `s`, or `Err` for any other name.
    fn from_str(s: &str) -> Result<Language, UnknownLanguage> {
        match Language::language_for_name(s) {
            Some(l) => Ok(l),
            None => Err(UnknownLanguage {}),
        }
    }
}

} // verus!
