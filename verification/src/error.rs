//! The failures that loading and reading a configuration can report.

use vstd::prelude::*;
use crate::schema::Declared;

verus! {

/// Why an operation on a configuration failed.
pub enum Error {
    /// A discovered file could not be opened or read; holds its path.
    Io(String),
    /// A document selected as TOML is malformed; holds the parser's message.
    Toml(String),
    /// A document selected as JSON is malformed; holds the parser's message.
    Json(String),
    /// A document selected as YAML is malformed; holds the parser's message.
    Yaml(String),
    /// A raw token could not be read as the type declared for its path.
    TypeCoercion { path: String, target: Declared },
    /// A tag prefix is malformed or repeated; holds the offending text.
    TagExpansion(String),
    /// The configuration was used before it was loaded.
    NotInitialized,
    /// A path that the caller asserted to exist resolved to nothing usable.
    MissingPath(String),
}

impl Error {
    /// What stands in front of the detail in the failure's message.
    pub open spec fn heading(&self) -> Seq<char> {
        match self {
            Error::Io(_) => "cannot read the file "@,
            Error::Toml(_) => "malformed TOML: "@,
            Error::Json(_) => "malformed JSON: "@,
            Error::Yaml(_) => "malformed YAML: "@,
            Error::TypeCoercion { .. } => "no value of the declared type for the path "@,
            Error::TagExpansion(_) => "malformed tag in "@,
            Error::NotInitialized => "the configuration has not been loaded"@,
            Error::MissingPath(_) => "nothing usable at the path "@,
        }
    }

    /// The detail of the failure: the path, the text or the parser's
    /// message that it holds.
    pub open spec fn detail(&self) -> Seq<char> {
        match self {
            Error::Io(p) => p@,
            Error::Toml(m) => m@,
            Error::Json(m) => m@,
            Error::Yaml(m) => m@,
            Error::TypeCoercion { path, target } => path@,
            Error::TagExpansion(t) => t@,
            Error::NotInitialized => Seq::empty(),
            Error::MissingPath(p) => p@,
        }
    }

    /// The failure in words.
    pub fn message(&self) -> (r: String)
        ensures
            r@ == self.heading() + self.detail(),
    {
        let mut out: Vec<char> = Vec::new();
        match self {
            Error::Io(p) => {
                crate::text::append_str(&mut out, "cannot read the file ");
                crate::text::append_str(&mut out, p.as_str());
            },
            Error::Toml(m) => {
                crate::text::append_str(&mut out, "malformed TOML: ");
                crate::text::append_str(&mut out, m.as_str());
            },
            Error::Json(m) => {
                crate::text::append_str(&mut out, "malformed JSON: ");
                crate::text::append_str(&mut out, m.as_str());
            },
            Error::Yaml(m) => {
                crate::text::append_str(&mut out, "malformed YAML: ");
                crate::text::append_str(&mut out, m.as_str());
            },
            Error::TypeCoercion { path, target } => {
                crate::text::append_str(&mut out, "no value of the declared type for the path ");
                crate::text::append_str(&mut out, path.as_str());
            },
            Error::TagExpansion(t) => {
                crate::text::append_str(&mut out, "malformed tag in ");
                crate::text::append_str(&mut out, t.as_str());
            },
            Error::NotInitialized => {
                crate::text::append_str(&mut out, "the configuration has not been loaded");
            },
            Error::MissingPath(p) => {
                crate::text::append_str(&mut out, "nothing usable at the path ");
                crate::text::append_str(&mut out, p.as_str());
            },
        }
        assert(out@ =~= self.heading() + self.detail());
        assert(out@.subrange(0, out@.len() as int) == out@);
        crate::text::string_of(&out, 0, out.len())
    }
}

} // verus!
