//! Reading raw tokens from the command line and the environment as values:
//! by the tags that they carry, and by the type that the schema declares.

use vstd::prelude::*;
use crate::document::document_of;
use crate::error::Error;
use crate::number::{parse_signed, parse_unsigned};
use crate::schema::{Declared, Schema, TypeTag};
use crate::tags::{
    after, document_payload, document_text, float_payload, float_text, has_tag, literal,
    plain_literal, tagged_with, unsealed, unsealed_start,
};
use crate::template::Sources;
use crate::text::{chars_of, find_char, matches_at, split, split_chars, string_of, views};
use crate::tree::{signed_decimal, unsigned_decimal, Tree};
use crate::value::{Sealed, Table, Value};

verus! {

/// What the surroundings of the process held when they were read.
pub struct Snapshot {
    /// The command-line arguments, without the program's name.
    pub args: Vec<String>,
    /// The environment variables and the regular files, by name and path.
    pub sources: Sources,
    /// The texts that read as doubles, each with the bits of its double.
    pub floats: Vec<(String, u64)>,
    /// The user's home directory, where there is one.
    pub home: Option<String>,
    /// The working directory.
    pub cwd: String,
}

/// The bits that the first entry of `floats` for `text` holds.
pub open spec fn reading(floats: Seq<(String, u64)>, text: Seq<char>) -> Option<u64>
    decreases floats.len(),
{
    if floats.len() == 0 {
        None
    } else if floats[0].0@ == text {
        Some(floats[0].1)
    } else {
        reading(floats.drop_first(), text)
    }
}

/// The tree of the document that a token with the `map:` tag names.
pub open spec fn token_document(s: Seq<char>) -> Option<Tree> {
    match document_text(s) {
        Some(p) => document_of(p),
        None => None,
    }
}

/// What a token denotes by its tags alone.
pub open spec fn token_tree(s: Seq<char>, snapshot: Snapshot) -> Option<Tree> {
    literal(
        s,
        reading(snapshot.floats@, float_text(s)),
        token_document(s),
    )
}

/// The failure that a token gives when it cannot be read by its tags: a
/// document that is malformed fails as a document of its format, every
/// other token with a tag failure that holds the token.
pub open spec fn token_failure(s: Seq<char>, e: Error) -> bool {
    ||| e matches Error::TagExpansion(t) && t@ == s
    ||| document_text(s) is Some && crate::document::failed_as(
        e,
        crate::document::detected_kind(document_text(s)->0),
    )
}

/// Whether `e` says that a token for `path` cannot be read as `target`.
pub open spec fn coercion_error(e: Error, path: Seq<char>, target: Declared) -> bool {
    e matches Error::TypeCoercion { path: p, target: t } && p@ == path && t == target
}

/// The failure that a token for `path` gives when it cannot be read: a
/// token that is read by its tags fails as its tags do, every other token
/// fails as not being of the declared type.
pub open spec fn coercion_failure(
    text: Seq<char>,
    path: Seq<char>,
    declared: Option<Declared>,
    e: Error,
) -> bool {
    if declared is None || forces_type(unsealed(text)) || tagged_with(unsealed(text), "secret:"@) {
        token_failure(text, e)
    } else {
        coercion_error(e, path, declared->0)
    }
}

/// The least and the greatest whole number of a type; a type that is not
/// of whole numbers has none.
pub open spec fn bounds(tag: TypeTag) -> Option<(int, int)> {
    match tag {
        TypeTag::U8 => Some((u8::MIN as int, u8::MAX as int)),
        TypeTag::U16 => Some((u16::MIN as int, u16::MAX as int)),
        TypeTag::U32 => Some((u32::MIN as int, u32::MAX as int)),
        TypeTag::U64 => Some((u64::MIN as int, u64::MAX as int)),
        TypeTag::I8 => Some((i8::MIN as int, i8::MAX as int)),
        TypeTag::I16 => Some((i16::MIN as int, i16::MAX as int)),
        TypeTag::I32 => Some((i32::MIN as int, i32::MAX as int)),
        TypeTag::I64 => Some((i64::MIN as int, i64::MAX as int)),
        _ => None,
    }
}

/// What `text` denotes as a value of the type `tag`, or nothing where it
/// cannot be read as one. A whole number is written in digits, with a sign
/// in front only where the type has negative numbers or the sign is `+`,
/// and must lie within the type; a truth value is `true` or `false`; a
/// number with a fraction is what `float` holds; a string is the text.
pub open spec fn scalar(text: Seq<char>, tag: TypeTag, float: Option<u64>) -> Option<Tree> {
    match tag {
        TypeTag::Bool => if text == "true"@ {
            Some(Tree::Bool(true))
        } else if text == "false"@ {
            Some(Tree::Bool(false))
        } else {
            None
        },
        TypeTag::String => Some(Tree::Text(text)),
        TypeTag::Single | TypeTag::Double => match float {
            Some(bits) => Some(Tree::Float(bits)),
            None => None,
        },
        _ => {
            let (lo, hi) = bounds(tag)->0;
            let number = if lo < 0 {
                signed_decimal(text)
            } else {
                match unsigned_decimal(text) {
                    Some(n) => Some(n as int),
                    None => None,
                }
            };
            match number {
                Some(n) => if lo <= n <= hi {
                    Some(Tree::Integer(n))
                } else {
                    None
                },
                None => None,
            }
        },
    }
}

/// The values of the first `n` of `pieces` as values of the type `tag`.
pub open spec fn scalars(
    pieces: Seq<Seq<char>>,
    n: int,
    tag: TypeTag,
    floats: Seq<(String, u64)>,
) -> Option<Seq<Tree>>
    decreases n,
{
    if n <= 0 || n > pieces.len() {
        Some(Seq::empty())
    } else {
        match (
            scalars(pieces, n - 1, tag, floats),
            scalar(pieces[n - 1], tag, reading(floats, pieces[n - 1])),
        ) {
            (Some(done), Some(t)) => Some(done.push(t)),
            _ => None,
        }
    }
}

/// The object of the first `n` of `pieces`, each written as `key=value`
/// with the value of the type `tag`. The key is what stands before the
/// first `=`; a piece without `=` has no reading. A later piece takes the
/// place of an earlier one with the same key.
pub open spec fn members(
    pieces: Seq<Seq<char>>,
    n: int,
    tag: TypeTag,
    floats: Seq<(String, u64)>,
) -> Option<Map<Seq<char>, Tree>>
    decreases n,
{
    if n <= 0 || n > pieces.len() {
        Some(Map::empty())
    } else {
        let piece = pieces[n - 1];
        let at = crate::text::offset_of(piece, '=') as int;
        if at >= piece.len() {
            None
        } else {
            let key = piece.take(at);
            let text = piece.skip(at + 1);
            match (members(pieces, n - 1, tag, floats), scalar(text, tag, reading(floats, text))) {
                (Some(done), Some(t)) => Some(done.insert(key, t)),
                _ => None,
            }
        }
    }
}

/// What `text` denotes under the declaration `declared`. A list is written
/// as its items with `,` between them, a keyed collection as `key=value`
/// pieces with `,` between them; the empty text is the empty collection.
pub open spec fn declared_tree(text: Seq<char>, declared: Declared, floats: Seq<(String, u64)>) -> Option<
    Tree,
> {
    match declared {
        Declared::One(tag) => scalar(text, tag, reading(floats, text)),
        Declared::ListOf(tag) => if text.len() == 0 {
            Some(Tree::List(Seq::empty()))
        } else {
            let pieces = split(text, ","@);
            match scalars(pieces, pieces.len() as int, tag, floats) {
                Some(l) => Some(Tree::List(l)),
                None => None,
            }
        },
        Declared::MapOf(tag) => if text.len() == 0 {
            Some(Tree::Object(Map::empty()))
        } else {
            let pieces = split(text, ","@);
            match members(pieces, pieces.len() as int, tag, floats) {
                Some(m) => Some(Tree::Object(m)),
                None => None,
            }
        },
    }
}

/// Whether `s` begins with one of the tags that force a type.
pub open spec fn forces_type(s: Seq<char>) -> bool {
    ||| tagged_with(s, "map:"@)
    ||| tagged_with(s, "int:"@)
    ||| tagged_with(s, "float:"@)
    ||| tagged_with(s, "bool:"@)
}

/// What a token denotes on a path with the declaration `declared`, or
/// nothing where it cannot be read.
///
/// The token `_` denotes the absent value whatever is declared. A missing
/// token on a path declared as a truth value denotes `true`; elsewhere it
/// is read as the empty token. `secret:` seals what the rest denotes. A
/// token with a tag that forces a type, and every token on a path that the
/// schema does not declare, is read by its tags; every other token is read
/// as the declared type.
pub open spec fn coerced(
    raw: Option<Seq<char>>,
    declared: Option<Declared>,
    snapshot: Snapshot,
) -> Option<Tree> {
    if raw is None && declared == Some(Declared::One(TypeTag::Bool)) {
        Some(Tree::Bool(true))
    } else {
        let text = if raw is Some {
            raw->0
        } else {
            Seq::empty()
        };
        let inner = unsealed(text);
        if text == "_"@ {
            Some(Tree::Absent)
        } else if declared is None || forces_type(inner) || tagged_with(inner, "secret:"@) {
            token_tree(text, snapshot)
        } else {
            match declared_tree(inner, declared->0, snapshot.floats@) {
                Some(t) => if tagged_with(text, "secret:"@) {
                    Some(Tree::Secret(Box::new(t)))
                } else {
                    Some(t)
                },
                None => None,
            }
        }
    }
}

/// The bits that `floats` holds for `text`.
pub fn find_reading(floats: &Vec<(String, u64)>, text: &String) -> (r: Option<u64>)
    ensures
        r == reading(floats@, text@),
{
    let mut i: usize = 0;
    assert(floats@.skip(0) == floats@);
    while i < floats.len()
        invariant
            i <= floats@.len(),
            reading(floats@, text@) == reading(floats@.skip(i as int), text@),
        decreases floats@.len() - i,
    {
        proof {
            let rest = floats@.skip(i as int);
            assert(rest[0] == floats@[i as int]);
            assert(rest.drop_first() == floats@.skip(i + 1));
        }
        if floats[i].0 == *text {
            return Some(floats[i].1);
        }
        i += 1;
    }
    None
}

/// What follows the first `=` of each of `pieces`; nothing for a piece
/// without `=`.
pub open spec fn member_texts(pieces: Seq<Seq<char>>) -> Seq<Seq<char>> {
    Seq::new(
        pieces.len(),
        |i: int|
            {
                let at = crate::text::offset_of(pieces[i], '=') as int;
                if at < pieces[i].len() {
                    pieces[i].skip(at + 1)
                } else {
                    Seq::empty()
                }
            },
    )
}

/// Every text whose reading as a double may be asked for while a token is
/// read: the part behind its tags, the pieces of that part between commas,
/// and what follows the first `=` of each piece.
pub open spec fn reading_texts(s: Seq<char>) -> Seq<Seq<char>> {
    let pieces = split(float_text(s), ","@);
    seq![float_text(s)] + pieces + member_texts(pieces)
}

/// Every text whose reading as a double may be asked for while `text` is
/// read. Whoever takes a snapshot of the surroundings reads these.
pub fn reading_candidates(text: &str) -> (r: Vec<String>)
    ensures
        views(r@) == reading_texts(text@),
{
    let whole = float_payload(text);
    let pieces = comma_pieces(whole.as_str());
    let mut r: Vec<String> = Vec::new();
    r.push(whole);
    let mut i: usize = 0;
    while i < pieces.len()
        invariant
            i <= pieces@.len(),
            r@.len() == 1 + i,
            r@[0]@ == float_text(text@),
            forall|j: int| 0 <= j < i ==> (#[trigger] r@[1 + j])@ == pieces@[j]@,
        decreases pieces@.len() - i,
    {
        r.push(pieces[i].clone());
        i += 1;
    }
    let mut k: usize = 0;
    while k < pieces.len()
        invariant
            k <= pieces@.len(),
            r@.len() == 1 + pieces@.len() + k,
            r@[0]@ == float_text(text@),
            forall|j: int| 0 <= j < pieces@.len() ==> (#[trigger] r@[1 + j])@ == pieces@[j]@,
            forall|j: int|
                0 <= j < k ==> (#[trigger] r@[1 + pieces@.len() + j])@ == member_texts(
                    views(pieces@),
                )[j],
        decreases pieces@.len() - k,
    {
        let piece = chars_of(pieces[k].as_str());
        assert(piece@.skip(0) == piece@);
        let at = find_char(&piece, 0, '=');
        if at < piece.len() {
            assert(piece@.subrange(at + 1, piece@.len() as int) == piece@.skip(at + 1));
            r.push(string_of(&piece, at + 1, piece.len()));
        } else {
            r.push(String::new());
        }
        k += 1;
    }
    proof {
        let want = reading_texts(text@);
        let parts = views(pieces@);
        assert(parts == split(float_text(text@), ","@));
        assert(views(r@).len() == want.len());
        assert forall|j: int| 0 <= j < want.len() implies views(r@)[j] == want[j] by {
            if j == 0 {
            } else if j < 1 + parts.len() {
                assert(r@[1 + (j - 1)]@ == pieces@[j - 1]@);
            } else {
                let q = j - 1 - parts.len();
                assert(r@[1 + pieces@.len() + q]@ == member_texts(parts)[q]);
            }
        }
        assert(views(r@) =~= want);
    }
    r
}

impl Value {
    /// The value that the token `text` denotes by its tags. The double of a
    /// `float:` tag is looked up in the snapshot, the document of a `map:`
    /// tag is read.
    pub fn from_tagged(text: &str, snapshot: &Snapshot) -> (r: Result<Value, Error>)
        ensures
            match r {
                Ok(v) => token_tree(text@, *snapshot) == Some(v@),
                Err(e) => token_tree(text@, *snapshot) is None && token_failure(text@, e),
            },
    {
        let candidate = float_payload(text);
        let float = find_reading(&snapshot.floats, &candidate);
        let document = match document_payload(text) {
            Some(p) => Some(Value::from_src(p.as_str())),
            None => None,
        };
        Value::from_parts(text, float, document)
    }
}

/// Reads `text` as a value of the type `tag`.
pub fn read_scalar(text: &str, tag: TypeTag, float: Option<u64>) -> (r: Option<Value>)
    ensures
        match r {
            Some(v) => scalar(text@, tag, float) == Some(v@),
            None => scalar(text@, tag, float) is None,
        },
{
    match tag {
        TypeTag::Bool => {
            let word = text.to_owned();
            if word == "true".to_owned() {
                Some(Value::Bool(true))
            } else if word == "false".to_owned() {
                Some(Value::Bool(false))
            } else {
                None
            }
        },
        TypeTag::String => Some(Value::String(text.to_owned())),
        TypeTag::Single => match float {
            Some(bits) => Some(Value::Float(bits)),
            None => None,
        },
        TypeTag::Double => match float {
            Some(bits) => Some(Value::Float(bits)),
            None => None,
        },
        TypeTag::U8 => read_unsigned(text, u8::MAX as u128),
        TypeTag::U16 => read_unsigned(text, u16::MAX as u128),
        TypeTag::U32 => read_unsigned(text, u32::MAX as u128),
        TypeTag::U64 => read_unsigned(text, u64::MAX as u128),
        TypeTag::I8 => read_signed(text, i8::MIN as i128, i8::MAX as i128),
        TypeTag::I16 => read_signed(text, i16::MIN as i128, i16::MAX as i128),
        TypeTag::I32 => read_signed(text, i32::MIN as i128, i32::MAX as i128),
        TypeTag::I64 => read_signed(text, i64::MIN as i128, i64::MAX as i128),
    }
}

/// Reads `text` as a whole number from 0 to `hi`.
fn read_unsigned(text: &str, hi: u128) -> (r: Option<Value>)
    requires
        hi <= u64::MAX,
    ensures
        match r {
            Some(v) => unsigned_decimal(text@) is Some && unsigned_decimal(text@)->0 <= hi && v@
                == Tree::Integer(unsigned_decimal(text@)->0 as int),
            None => unsigned_decimal(text@) is None || unsigned_decimal(text@)->0 > hi,
        },
{
    match parse_unsigned(text, hi) {
        Some(n) => Some(Value::Integer(n as i128)),
        None => None,
    }
}

/// Reads `text` as a whole number from `lo` to `hi`.
fn read_signed(text: &str, lo: i128, hi: i128) -> (r: Option<Value>)
    requires
        i64::MIN <= lo < 0 <= hi <= i64::MAX,
    ensures
        match r {
            Some(v) => signed_decimal(text@) is Some && lo <= signed_decimal(text@)->0 <= hi && v@
                == Tree::Integer(signed_decimal(text@)->0),
            None => signed_decimal(text@) is None || !(lo <= signed_decimal(text@)->0 <= hi),
        },
{
    match parse_signed(text, lo, hi) {
        Some(n) => Some(Value::Integer(n)),
        None => None,
    }
}

/// Once a part of the pieces has no reading, no longer part has one.
proof fn lemma_scalars_none(
    pieces: Seq<Seq<char>>,
    n: int,
    m: int,
    tag: TypeTag,
    floats: Seq<(String, u64)>,
)
    requires
        0 <= n <= m <= pieces.len(),
        scalars(pieces, n, tag, floats) is None,
    ensures
        scalars(pieces, m, tag, floats) is None,
    decreases m - n,
{
    if n < m {
        lemma_scalars_none(pieces, n, m - 1, tag, floats);
    }
}

/// Once a part of the pieces has no reading, no longer part has one.
proof fn lemma_members_none(
    pieces: Seq<Seq<char>>,
    n: int,
    m: int,
    tag: TypeTag,
    floats: Seq<(String, u64)>,
)
    requires
        0 <= n <= m <= pieces.len(),
        members(pieces, n, tag, floats) is None,
    ensures
        members(pieces, m, tag, floats) is None,
    decreases m - n,
{
    if n < m {
        lemma_members_none(pieces, n, m - 1, tag, floats);
    }
}

/// The pieces of `text` between its commas.
fn comma_pieces(text: &str) -> (parts: Vec<String>)
    ensures
        views(parts@) == split(text@, ","@),
{
    let v = chars_of(text);
    let sep = chars_of(",");
    proof {
        reveal_strlit(",");
    }
    split_chars(&v, &sep)
}

/// Reads `text` as what `declared` declares.
pub fn read_declared(text: &str, declared: Declared, floats: &Vec<(String, u64)>) -> (r: Option<
    Value,
>)
    ensures
        match r {
            Some(v) => declared_tree(text@, declared, floats@) == Some(v@),
            None => declared_tree(text@, declared, floats@) is None,
        },
{
    match declared {
        Declared::One(tag) => {
            let float = find_reading(floats, &text.to_owned());
            read_scalar(text, tag, float)
        },
        Declared::ListOf(tag) => {
            if text.unicode_len() == 0 {
                let r = Value::List(Vec::new());
                assert(r@->List_0 =~= Seq::<Tree>::empty());
                return Some(r);
            }
            let parts = comma_pieces(text);
            let ghost pieces = split(text@, ","@);
            let mut out: Vec<Value> = Vec::new();
            let mut i: usize = 0;
            while i < parts.len()
                invariant
                    i <= parts@.len(),
                    text@.len() > 0,
                    declared == Declared::ListOf(tag),
                    pieces == split(text@, ","@),
                    pieces == views(parts@),
                    out@.len() == i,
                    scalars(pieces, i as int, tag, floats@) == Some(
                        Seq::new(i as nat, |j: int| out@[j]@),
                    ),
                decreases parts@.len() - i,
            {
                let float = find_reading(floats, &parts[i]);
                match read_scalar(parts[i].as_str(), tag, float) {
                    Some(v) => {
                        let ghost before = out@;
                        out.push(v);
                        assert(Seq::new((i + 1) as nat, |j: int| out@[j]@) =~= Seq::new(
                            i as nat,
                            |j: int| before[j]@,
                        ).push(v@));
                    },
                    None => {
                        proof {
                            assert(pieces[i as int] == parts@[i as int]@);
                            assert(scalars(pieces, i + 1, tag, floats@) is None);
                            lemma_scalars_none(pieces, i + 1, pieces.len() as int, tag, floats@);
                        }
                        return None;
                    },
                }
                i += 1;
            }
            let r = Value::List(out);
            assert(r@->List_0 =~= scalars(pieces, pieces.len() as int, tag, floats@)->0);
            Some(r)
        },
        Declared::MapOf(tag) => {
            if text.unicode_len() == 0 {
                return Some(Value::Object(Table::new()));
            }
            let parts = comma_pieces(text);
            let ghost pieces = split(text@, ","@);
            let mut out = Table::new();
            let mut i: usize = 0;
            while i < parts.len()
                invariant
                    i <= parts@.len(),
                    text@.len() > 0,
                    declared == Declared::MapOf(tag),
                    pieces == split(text@, ","@),
                    pieces == views(parts@),
                    members(pieces, i as int, tag, floats@) == Some(out@),
                decreases parts@.len() - i,
            {
                let piece = chars_of(parts[i].as_str());
                assert(piece@.skip(0) == piece@);
                assert(pieces[i as int] == piece@);
                let at = find_char(&piece, 0, '=');
                if at >= piece.len() {
                    proof {
                        assert(members(pieces, i + 1, tag, floats@) is None);
                        lemma_members_none(pieces, i + 1, pieces.len() as int, tag, floats@);
                    }
                    return None;
                }
                let key = string_of(&piece, 0, at);
                let word = string_of(&piece, at + 1, piece.len());
                proof {
                    assert(piece@.subrange(0, at as int) == piece@.take(at as int));
                    assert(piece@.subrange(at + 1, piece@.len() as int) == piece@.skip(at + 1));
                }
                let float = find_reading(floats, &word);
                match read_scalar(word.as_str(), tag, float) {
                    Some(v) => {
                        out.insert(key, v);
                    },
                    None => {
                        proof {
                            assert(members(pieces, i + 1, tag, floats@) is None);
                            lemma_members_none(pieces, i + 1, pieces.len() as int, tag, floats@);
                        }
                        return None;
                    },
                }
                i += 1;
            }
            Some(Value::Object(out))
        },
    }
}

impl Value {
    /// Reads a raw token for the path `path`: by its tags where it carries
    /// one that forces a type or where the schema does not declare the
    /// path, else as the declared type. A token that cannot be read as the
    /// declared type fails with `TypeCoercion`, which names the path and
    /// the declaration; a malformed tag fails as `from_tagged` does.
    pub fn from_raw_with_schema_and_path(
        raw_value: Option<String>,
        path: &str,
        schema: &Schema,
        snapshot: &Snapshot,
    ) -> (r: Result<Value, Error>)
        ensures
            match r {
                Ok(v) => coerced(
                    match raw_value {
                        Some(t) => Some(t@),
                        None => None,
                    },
                    match schema@.get(path@) {
                        Some(d) => Some(d.0),
                        None => None,
                    },
                    *snapshot,
                ) == Some(v@),
                Err(e) => coerced(
                    match raw_value {
                        Some(t) => Some(t@),
                        None => None,
                    },
                    match schema@.get(path@) {
                        Some(d) => Some(d.0),
                        None => None,
                    },
                    *snapshot,
                ) is None && coercion_failure(
                    match raw_value {
                        Some(t) => t@,
                        None => Seq::empty(),
                    },
                    path@,
                    match schema@.get(path@) {
                        Some(d) => Some(d.0),
                        None => None,
                    },
                    e,
                ),
            },
    {
        let declared = schema.declared(path);
        if raw_value.is_none() {
            match declared {
                Some(d) => {
                    if d == Declared::One(TypeTag::Bool) {
                        return Ok(Value::Bool(true));
                    }
                },
                None => {},
            }
        }
        let text = match raw_value {
            Some(t) => t,
            None => String::new(),
        };
        if text == "_".to_owned() {
            return Ok(Value::Absent);
        }
        let v = chars_of(text.as_str());
        let from = unsealed_start(&v);
        let tagged = has_tag(&v, from, "map:") || has_tag(&v, from, "int:") || has_tag(
            &v,
            from,
            "float:",
        ) || has_tag(&v, from, "bool:") || has_tag(&v, from, "secret:");
        match declared {
            None => Value::from_tagged(text.as_str(), snapshot),
            Some(d) => {
                if tagged {
                    Value::from_tagged(text.as_str(), snapshot)
                } else {
                    assert(v@.subrange(from as int, v@.len() as int) == v@.skip(from as int));
                    let inner = string_of(&v, from, v.len());
                    match read_declared(inner.as_str(), d, &snapshot.floats) {
                        Some(value) => {
                            if from > 0 {
                                match Sealed::new(value) {
                                    Ok(sealed) => Ok(Value::Secret(sealed)),
                                    Err(_) => Err(
                                        Error::TypeCoercion { path: path.to_owned(), target: d },
                                    ),
                                }
                            } else {
                                Ok(value)
                            }
                        },
                        None => Err(Error::TypeCoercion { path: path.to_owned(), target: d }),
                    }
                }
            },
        }
    }
}

} // verus!
