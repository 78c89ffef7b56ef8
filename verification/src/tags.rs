//! Tag prefixes of string literals: `secret:`, `map:`, `int:`, `float:` and
//! `bool:` say what a raw string is meant to be.

use vstd::prelude::*;
use crate::error::Error;
use crate::number::parse_signed;
use crate::text::{chars_of, matches_at, string_of};
use crate::tree::{signed_decimal, Tree};
use crate::value::{Sealed, Value};

verus! {

/// Whether `s` begins with `tag`.
pub open spec fn tagged_with(s: Seq<char>, tag: Seq<char>) -> bool {
    tag.is_prefix_of(s)
}

/// What follows `tag` in `s`.
pub open spec fn after(s: Seq<char>, tag: Seq<char>) -> Seq<char> {
    s.skip(tag.len() as int)
}

/// `s` without a leading `secret:`.
pub open spec fn unsealed(s: Seq<char>) -> Seq<char> {
    if tagged_with(s, "secret:"@) {
        after(s, "secret:"@)
    } else {
        s
    }
}

/// The part of a literal that is read as a double where one is asked for:
/// what follows `float:`, or else the literal without a leading `secret:`.
pub open spec fn float_text(s: Seq<char>) -> Seq<char> {
    let inner = unsealed(s);
    if tagged_with(inner, "float:"@) {
        after(inner, "float:"@)
    } else {
        inner
    }
}

/// The text that is to be read as a document, where `s` carries the `map:`
/// tag, alone or behind `secret:`.
pub open spec fn document_text(s: Seq<char>) -> Option<Seq<char>> {
    let inner = unsealed(s);
    if tagged_with(inner, "map:"@) {
        Some(after(inner, "map:"@))
    } else {
        None
    }
}

/// What a literal without the `secret:` tag denotes, or nothing where its
/// tag is malformed. `float` is what reading `float_text` as a double gave,
/// `document` the tree of the document in `document_text`, if it was read.
///
/// `map:` denotes the document; `int:` a whole number in the range of 64
/// signed bits; `float:` the double that was read; `bool:` one of `true` and
/// `false`; a literal without a tag denotes itself.
pub open spec fn plain_literal(s: Seq<char>, float: Option<u64>, document: Option<Tree>) -> Option<
    Tree,
> {
    if tagged_with(s, "map:"@) {
        document
    } else if tagged_with(s, "int:"@) {
        match signed_decimal(after(s, "int:"@)) {
            Some(n) => if i64::MIN <= n <= i64::MAX {
                Some(Tree::Integer(n))
            } else {
                None
            },
            None => None,
        }
    } else if tagged_with(s, "float:"@) {
        match float {
            Some(bits) => Some(Tree::Float(bits)),
            None => None,
        }
    } else if tagged_with(s, "bool:"@) {
        if after(s, "bool:"@) == "true"@ {
            Some(Tree::Bool(true))
        } else if after(s, "bool:"@) == "false"@ {
            Some(Tree::Bool(false))
        } else {
            None
        }
    } else {
        Some(Tree::Text(s))
    }
}

/// What a literal denotes, or nothing where a tag is malformed or `secret:`
/// is repeated. `secret:` wraps what the rest denotes in a secret.
pub open spec fn literal(s: Seq<char>, float: Option<u64>, document: Option<Tree>) -> Option<Tree> {
    if tagged_with(s, "secret:"@) {
        let inner = after(s, "secret:"@);
        if tagged_with(inner, "secret:"@) {
            None
        } else {
            match plain_literal(inner, float, document) {
                Some(t) => if t is Secret {
                    None
                } else {
                    Some(Tree::Secret(Box::new(t)))
                },
                None => None,
            }
        }
    } else {
        plain_literal(s, float, document)
    }
}

/// Whether `v[from..]` begins with `tag`.
pub(crate) fn has_tag(v: &Vec<char>, from: usize, tag: &str) -> (r: bool)
    requires
        from <= v@.len(),
    ensures
        r == tagged_with(v@.skip(from as int), tag@),
        r ==> from + tag@.len() <= v@.len() <= usize::MAX,
{
    let _ = v.len();
    let t = chars_of(tag);
    let r = matches_at(v, &t, from);
    proof {
        if from + t@.len() <= v@.len() {
            assert(v@.subrange(from as int, from + t@.len()) == v@.skip(from as int).take(
                t@.len() as int,
            ));
        }
    }
    r
}

/// The length of `tag`, which must be ASCII.
fn tag_len(tag: &str) -> (n: usize)
    ensures
        n == tag@.len(),
{
    tag.unicode_len()
}

/// Where the literal in `v` begins once a leading `secret:` is skipped.
pub(crate) fn unsealed_start(v: &Vec<char>) -> (from: usize)
    ensures
        from <= v@.len(),
        v@.skip(from as int) == unsealed(v@),
        (from > 0) == tagged_with(v@, "secret:"@),
{
    assert(v@.skip(0) == v@);
    if has_tag(v, 0, "secret:") {
        proof {
            reveal_strlit("secret:");
        }
        tag_len("secret:")
    } else {
        0
    }
}

/// The part of `text` that is read as a double where one is asked for.
/// Whoever supplies the reading of a literal reads this part.
pub fn float_payload(text: &str) -> (r: String)
    ensures
        r@ == float_text(text@),
{
    let v = chars_of(text);
    let from = unsealed_start(&v);
    if has_tag(&v, from, "float:") {
        let start = from + tag_len("float:");
        assert(v@.subrange(start as int, v@.len() as int) == v@.skip(from as int).skip(
            "float:"@.len() as int,
        ));
        string_of(&v, start, v.len())
    } else {
        assert(v@.subrange(from as int, v@.len() as int) == v@.skip(from as int));
        string_of(&v, from, v.len())
    }
}

/// The text that is to be read as a document, where `text` carries the
/// `map:` tag.
pub fn document_payload(text: &str) -> (r: Option<String>)
    ensures
        match r {
            Some(p) => document_text(text@) == Some(p@),
            None => document_text(text@) is None,
        },
{
    let v = chars_of(text);
    let from = unsealed_start(&v);
    if has_tag(&v, from, "map:") {
        let start = from + tag_len("map:");
        assert(v@.subrange(start as int, v@.len() as int) == v@.skip(from as int).skip(
            "map:"@.len() as int,
        ));
        Some(string_of(&v, start, v.len()))
    } else {
        None
    }
}

/// The tree of a document that was read, if it was.
pub open spec fn document_tree(document: Option<Result<Value, Error>>) -> Option<Tree> {
    match document {
        Some(Ok(d)) => Some(d@),
        _ => None,
    }
}

/// The failure that a literal without the `secret:` tag gives: the failure
/// of the document where the literal names one, else a tag failure that
/// holds the whole literal.
pub open spec fn literal_failure(
    s: Seq<char>,
    document: Option<Result<Value, Error>>,
    e: Error,
) -> bool {
    match document {
        Some(Err(failure)) => if document_text(s) is Some {
            e == failure
        } else {
            e matches Error::TagExpansion(t) && t@ == s
        },
        _ => e matches Error::TagExpansion(t) && t@ == s,
    }
}

/// The value that the literal `v[from..]` denotes when it has no `secret:`
/// tag; `whole` is the literal as it was written.
fn plain_value(
    v: &Vec<char>,
    from: usize,
    whole: &str,
    float: Option<u64>,
    document: Option<Result<Value, Error>>,
) -> (r: Result<Value, Error>)
    requires
        from <= v@.len(),
        v@.skip(from as int) == unsealed(whole@),
    ensures
        match r {
            Ok(value) => plain_literal(v@.skip(from as int), float, document_tree(document))
                == Some(value@),
            Err(e) => plain_literal(v@.skip(from as int), float, document_tree(document)) is None
                && literal_failure(whole@, document, e),
        },
{
    let ghost s = v@.skip(from as int);
    if has_tag(v, from, "map:") {
        match document {
            Some(read) => read,
            None => Err(Error::TagExpansion(whole.to_owned())),
        }
    } else if has_tag(v, from, "int:") {
        let start = from + tag_len("int:");
        assert(v@.subrange(start as int, v@.len() as int) == s.skip("int:"@.len() as int));
        let digits = string_of(v, start, v.len());
        match parse_signed(digits.as_str(), i64::MIN as i128, i64::MAX as i128) {
            Some(n) => Ok(Value::Integer(n)),
            None => Err(Error::TagExpansion(whole.to_owned())),
        }
    } else if has_tag(v, from, "float:") {
        match float {
            Some(bits) => Ok(Value::Float(bits)),
            None => Err(Error::TagExpansion(whole.to_owned())),
        }
    } else if has_tag(v, from, "bool:") {
        let start = from + tag_len("bool:");
        assert(v@.subrange(start as int, v@.len() as int) == s.skip("bool:"@.len() as int));
        let word = string_of(v, start, v.len());
        if word == "true".to_owned() {
            Ok(Value::Bool(true))
        } else if word == "false".to_owned() {
            Ok(Value::Bool(false))
        } else {
            Err(Error::TagExpansion(whole.to_owned()))
        }
    } else {
        Ok(Value::String(string_of(v, from, v.len())))
    }
}

impl Value {
    /// The value that the literal `text` denotes. `float` is what reading
    /// `float_payload(text)` as a double gave, by its bits; `document` is
    /// what reading `document_payload(text)` as a document gave, where that
    /// was done. Either is looked at only where `text` carries the tag.
    ///
    /// A malformed tag and a repeated `secret:` fail with `TagExpansion`,
    /// which holds `text`; a document that could not be read fails with its
    /// own failure.
    pub fn from_parts(
        text: &str,
        float: Option<u64>,
        document: Option<Result<Value, Error>>,
    ) -> (r: Result<Value, Error>)
        ensures
            match r {
                Ok(value) => literal(text@, float, document_tree(document)) == Some(value@),
                Err(e) => literal(text@, float, document_tree(document)) is None
                    && literal_failure(text@, document, e),
            },
    {
        let v = chars_of(text);
        assert(v@.skip(0) == v@);
        if has_tag(&v, 0, "secret:") {
            let from = tag_len("secret:");
            if has_tag(&v, from, "secret:") {
                proof {
                    reveal_strlit("secret:");
                    reveal_strlit("map:");
                    let inner = v@.skip(from as int);
                    assert(inner.take(7)[0] == 's');
                    if tagged_with(inner, "map:"@) {
                        assert(inner.take(4)[0] == 'm');
                    }
                }
                return Err(Error::TagExpansion(text.to_owned()));
            }
            match plain_value(&v, from, text, float, document) {
                Ok(inner) => match Sealed::new(inner) {
                    Ok(sealed) => Ok(Value::Secret(sealed)),
                    Err(_) => Err(Error::TagExpansion(text.to_owned())),
                },
                Err(e) => Err(e),
            }
        } else {
            plain_value(&v, 0, text, float, document)
        }
    }
}

} // verus!
