//! Documents in the wire formats: which format a text is in, and the tree
//! that a parsed document stands for.

use serde_json::Value as Json;
use serde_yaml::Value as Yaml;
use toml::Value as Toml;
use vstd::prelude::*;
use crate::error::Error;
use crate::render::{decimal, decimal_string};
use crate::text::chars_of;
use crate::tree::Tree;
use crate::value::{Table, Value};

verus! {

/// The formats that a configuration document can be written in.
#[derive(Clone, Copy, PartialEq, Eq, Structural)]
pub enum Kind {
    Toml,
    Json,
    Yaml,
}

/// How many lines of a document are looked at to tell its format.
pub const SAMPLE_LINES: usize = 5;

/// The length of the first `lines` lines of `s`, line ends included.
pub open spec fn sample_len(s: Seq<char>, lines: nat) -> nat
    decreases s.len(),
{
    if lines == 0 || s.len() == 0 {
        0
    } else if s[0] == '\n' {
        1 + sample_len(s.drop_first(), (lines - 1) as nat)
    } else {
        1 + sample_len(s.drop_first(), lines)
    }
}

/// The format that a document is taken to be in, told from its first five
/// lines: a sample that starts with `{` is JSON, one that starts with `[` is
/// TOML, every other document is tried as YAML.
pub open spec fn detected_kind(s: Seq<char>) -> Kind {
    let sample = s.take(sample_len(s, SAMPLE_LINES as nat) as int);
    if sample.len() > 0 && sample[0] == '{' {
        Kind::Json
    } else if sample.len() > 0 && sample[0] == '[' {
        Kind::Toml
    } else {
        Kind::Yaml
    }
}

/// Where the sample of `v` ends: behind its fifth line end, or at its end.
fn sample_end(v: &Vec<char>) -> (end: usize)
    ensures
        end == sample_len(v@, SAMPLE_LINES as nat),
        end <= v@.len(),
{
    let mut i: usize = 0;
    let mut left: usize = SAMPLE_LINES;
    assert(v@.skip(0) == v@);
    while i < v.len() && left > 0
        invariant
            i <= v@.len(),
            left <= SAMPLE_LINES,
            sample_len(v@, SAMPLE_LINES as nat) == i + sample_len(v@.skip(i as int), left as nat),
        decreases v@.len() - i,
    {
        proof {
            let rest = v@.skip(i as int);
            assert(rest[0] == v@[i as int]);
            assert(rest.drop_first() == v@.skip(i + 1));
        }
        if v[i] == '\n' {
            left -= 1;
        }
        i += 1;
    }
    i
}

/// Tells the format of the document `text` from its first five lines.
pub fn detect_config_type(text: &str) -> (kind: Kind)
    ensures
        kind == detected_kind(text@),
{
    let v = chars_of(text);
    let end = sample_end(&v);
    if end > 0 && v[0] == '{' {
        Kind::Json
    } else if end > 0 && v[0] == '[' {
        Kind::Toml
    } else {
        Kind::Yaml
    }
}

/// What a parsed document holds, as its parser hands it over: scalars,
/// ordered items, members in the order they are stored.
pub enum Doc {
    Null,
    Bool(bool),
    /// A number with the readings that its parser offers: as 64 unsigned
    /// bits, as 64 signed bits, and as a double by its bit pattern.
    Number { unsigned: Option<u64>, signed: Option<i64>, float: Option<u64> },
    Text(Seq<char>),
    List(Seq<Doc>),
    /// Members under string keys.
    Object(Seq<(Seq<char>, Doc)>),
    /// Members under keys that are documents themselves.
    Mapping(Seq<(Doc, Doc)>),
    /// A document with a tag in front.
    Tagged(Box<Doc>),
}

/// A parsed JSON document, or a part of one.
#[verifier::external_body]
pub struct JsonNode(Json);

/// A parsed TOML document, or a part of one.
#[verifier::external_body]
pub struct TomlNode(Toml);

/// A parsed YAML document, or a part of one.
#[verifier::external_body]
pub struct YamlNode(Yaml);

/// What a JSON node holds.
pub uninterp spec fn json_doc(node: JsonNode) -> Doc;

/// What a TOML node holds.
pub uninterp spec fn toml_doc(node: TomlNode) -> Doc;

/// What a YAML node holds.
pub uninterp spec fn yaml_doc(node: YamlNode) -> Doc;

/// What reading a text as JSON gives; nothing where it is malformed.
pub uninterp spec fn json_read(text: Seq<char>) -> Option<Doc>;

/// What reading a text as TOML gives; nothing where it is malformed.
pub uninterp spec fn toml_read(text: Seq<char>) -> Option<Doc>;

/// What reading a text as YAML gives; nothing where it is malformed.
pub uninterp spec fn yaml_read(text: Seq<char>) -> Option<Doc>;

/// A parsed document of one of the formats, or a part of one.
pub enum Node {
    Json(JsonNode),
    Toml(TomlNode),
    Yaml(YamlNode),
}

/// What a node holds.
pub open spec fn node_doc(node: Node) -> Doc {
    match node {
        Node::Json(n) => json_doc(n),
        Node::Toml(n) => toml_doc(n),
        Node::Yaml(n) => yaml_doc(n),
    }
}

/// One level of a parsed document, with its children still unopened.
pub enum Shape {
    Null,
    Bool(bool),
    /// A number as 64 unsigned bits, as 64 signed bits, and as the bits of
    /// a double, each where the parser offers that reading.
    Number(Option<u64>, Option<i64>, Option<u64>),
    Text(String),
    List(Vec<Node>),
    Object(Vec<(String, Node)>),
    Mapping(Vec<(Node, Node)>),
    Tagged(Node),
}

/// The document that a shape stands for, each child standing for what it
/// holds.
pub open spec fn shape_doc(shape: Shape) -> Doc {
    match shape {
        Shape::Null => Doc::Null,
        Shape::Bool(b) => Doc::Bool(b),
        Shape::Number(unsigned, signed, float) => Doc::Number { unsigned, signed, float },
        Shape::Text(s) => Doc::Text(s@),
        Shape::List(items) => Doc::List(Seq::new(items@.len(), |i: int| node_doc(items@[i]))),
        Shape::Object(members) => Doc::Object(
            Seq::new(members@.len(), |i: int| (members@[i].0@, node_doc(members@[i].1))),
        ),
        Shape::Mapping(members) => Doc::Mapping(
            Seq::new(members@.len(), |i: int| (node_doc(members@[i].0), node_doc(members@[i].1))),
        ),
        Shape::Tagged(inner) => Doc::Tagged(Box::new(node_doc(inner))),
    }
}

/// `serde_json::from_str` reads a text as one JSON value. What it gives
/// depends on the text alone; a malformed text gives the parser's message.
#[verifier::external_body]
fn json_parse(text: &str) -> (r: Result<JsonNode, String>)
    ensures
        match r {
            Ok(node) => json_read(text@) == Some(json_doc(node)),
            Err(_) => json_read(text@) is None,
        },
{
    match serde_json::from_str::<Json>(text) {
        Ok(inner) => Ok(JsonNode(inner)),
        Err(e) => Err(e.to_string()),
    }
}

/// `toml::from_str` reads a text as one TOML document. What it gives
/// depends on the text alone; a malformed text gives the parser's message.
#[verifier::external_body]
fn toml_parse(text: &str) -> (r: Result<TomlNode, String>)
    ensures
        match r {
            Ok(node) => toml_read(text@) == Some(toml_doc(node)),
            Err(_) => toml_read(text@) is None,
        },
{
    match toml::from_str::<Toml>(text) {
        Ok(inner) => Ok(TomlNode(inner)),
        Err(e) => Err(e.to_string()),
    }
}

/// `serde_yaml::from_str` reads a text as one YAML document. What it gives
/// depends on the text alone; a malformed text gives the parser's message.
#[verifier::external_body]
fn yaml_parse(text: &str) -> (r: Result<YamlNode, String>)
    ensures
        match r {
            Ok(node) => yaml_read(text@) == Some(yaml_doc(node)),
            Err(_) => yaml_read(text@) is None,
        },
{
    match serde_yaml::from_str::<Yaml>(text) {
        Ok(inner) => Ok(YamlNode(inner)),
        Err(e) => Err(e.to_string()),
    }
}

/// Takes a `serde_json::Value` apart by its variant: scalars as they are, a
/// number with what `as_u64`, `as_i64` and `as_f64` give, the items of an
/// array and the members of an object as nodes, in their stored order.
#[verifier::external_body]
fn json_open(node: JsonNode) -> (shape: Shape)
    ensures
        shape_doc(shape) == json_doc(node),
{
    match node.0 {
        Json::Null => Shape::Null,
        Json::Bool(b) => Shape::Bool(b),
        Json::Number(n) => Shape::Number(n.as_u64(), n.as_i64(), n.as_f64().map(|x| x.to_bits())),
        Json::String(s) => Shape::Text(s),
        Json::Array(a) => Shape::List(a.into_iter().map(|x| Node::Json(JsonNode(x))).collect()),
        Json::Object(o) => Shape::Object(o.into_iter().map(|(k, x)| (k, Node::Json(JsonNode(x)))).collect()),
    }
}

/// Takes a `toml::Value` apart by its variant: scalars as they are, a date
/// as the text that it is written as, the items of an array and the members
/// of a table as nodes, in their stored order.
#[verifier::external_body]
fn toml_open(node: TomlNode) -> (shape: Shape)
    ensures
        shape_doc(shape) == toml_doc(node),
{
    match node.0 {
        Toml::String(s) => Shape::Text(s),
        Toml::Integer(i) => Shape::Number(None, Some(i), None),
        Toml::Float(x) => Shape::Number(None, None, Some(x.to_bits())),
        Toml::Boolean(b) => Shape::Bool(b),
        Toml::Datetime(d) => Shape::Text(d.to_string()),
        Toml::Array(a) => Shape::List(a.into_iter().map(|x| Node::Toml(TomlNode(x))).collect()),
        Toml::Table(t) => Shape::Object(t.into_iter().map(|(k, x)| (k, Node::Toml(TomlNode(x)))).collect()),
    }
}

/// Takes a `serde_yaml::Value` apart by its variant: scalars as they are, a
/// number with what `as_u64`, `as_i64` and `as_f64` give, the items of a
/// sequence and the keys and values of a mapping as nodes, in their stored
/// order, and what stands behind a tag.
#[verifier::external_body]
fn yaml_open(node: YamlNode) -> (shape: Shape)
    ensures
        shape_doc(shape) == yaml_doc(node),
{
    match node.0 {
        Yaml::Null => Shape::Null,
        Yaml::Bool(b) => Shape::Bool(b),
        Yaml::Number(n) => Shape::Number(n.as_u64(), n.as_i64(), n.as_f64().map(|x| x.to_bits())),
        Yaml::String(s) => Shape::Text(s),
        Yaml::Sequence(a) => Shape::List(a.into_iter().map(|x| Node::Yaml(YamlNode(x))).collect()),
        Yaml::Mapping(m) => Shape::Mapping(m.into_iter().map(|(k, x)| (Node::Yaml(YamlNode(k)), Node::Yaml(YamlNode(x)))).collect()),
        Yaml::Tagged(t) => Shape::Tagged(Node::Yaml(YamlNode(t.value))),
    }
}

/// The tree of a number: a whole number where the parser offers one, else
/// the double.
pub open spec fn number_tree(unsigned: Option<u64>, signed: Option<i64>, float: Option<u64>) -> Tree {
    if unsigned is Some {
        Tree::Integer(unsigned->0 as int)
    } else if signed is Some {
        Tree::Integer(signed->0 as int)
    } else if float is Some {
        Tree::Float(float->0)
    } else {
        Tree::Null
    }
}

/// The key that a document used as a mapping key stands for: a string is
/// its own key, a whole number is the key of its decimal digits. No other
/// document can be a key.
pub open spec fn key_of(d: Doc) -> Option<Seq<char>> {
    match d {
        Doc::Text(s) => Some(s),
        Doc::Number { unsigned, signed, float } => if unsigned is Some {
            Some(decimal(unsigned->0 as int))
        } else if signed is Some {
            Some(decimal(signed->0 as int))
        } else {
            None
        },
        _ => None,
    }
}

/// The trees of the first `n` of `items`, or nothing if one has none.
pub open spec fn list_trees(items: Seq<Doc>, n: int) -> Option<Seq<Tree>>
    decreases items, n,
{
    if n <= 0 || n > items.len() {
        Some(Seq::empty())
    } else {
        match (list_trees(items, n - 1), doc_tree(items[n - 1])) {
            (Some(done), Some(t)) => Some(done.push(t)),
            _ => None,
        }
    }
}

/// The object of the first `n` of `members`, a later member taking the
/// place of an earlier one under the same key.
pub open spec fn object_trees(members: Seq<(Seq<char>, Doc)>, n: int) -> Option<
    Map<Seq<char>, Tree>,
>
    decreases members, n,
{
    if n <= 0 || n > members.len() {
        Some(Map::empty())
    } else {
        match (object_trees(members, n - 1), doc_tree(members[n - 1].1)) {
            (Some(done), Some(t)) => Some(done.insert(members[n - 1].0, t)),
            _ => None,
        }
    }
}

/// The object of the first `n` of `members` whose keys are documents.
pub open spec fn mapping_trees(members: Seq<(Doc, Doc)>, n: int) -> Option<Map<Seq<char>, Tree>>
    decreases members, n,
{
    if n <= 0 || n > members.len() {
        Some(Map::empty())
    } else {
        match (mapping_trees(members, n - 1), key_of(members[n - 1].0), doc_tree(members[n - 1].1)) {
            (Some(done), Some(k), Some(t)) => Some(done.insert(k, t)),
            _ => None,
        }
    }
}

/// The tree that a parsed document stands for, or nothing where a mapping
/// has a key that is neither a string nor a whole number. A tag in front of
/// a document is dropped.
pub open spec fn doc_tree(d: Doc) -> Option<Tree>
    decreases d, 0int,
{
    match d {
        Doc::Null => Some(Tree::Null),
        Doc::Bool(b) => Some(Tree::Bool(b)),
        Doc::Number { unsigned, signed, float } => Some(number_tree(unsigned, signed, float)),
        Doc::Text(s) => Some(Tree::Text(s)),
        Doc::List(items) => match list_trees(items, items.len() as int) {
            Some(l) => Some(Tree::List(l)),
            None => None,
        },
        Doc::Object(members) => match object_trees(members, members.len() as int) {
            Some(m) => Some(Tree::Object(m)),
            None => None,
        },
        Doc::Mapping(members) => match mapping_trees(members, members.len() as int) {
            Some(m) => Some(Tree::Object(m)),
            None => None,
        },
        Doc::Tagged(inner) => doc_tree(*inner),
    }
}

/// Opens one level of a node.
fn open(node: Node) -> (shape: Shape)
    ensures
        shape_doc(shape) == node_doc(node),
{
    match node {
        Node::Json(n) => json_open(n),
        Node::Toml(n) => toml_open(n),
        Node::Yaml(n) => yaml_open(n),
    }
}

/// Once a part of a list has no tree, no longer part has one.
proof fn lemma_list_trees_none(items: Seq<Doc>, n: int, m: int)
    requires
        0 <= n <= m <= items.len(),
        list_trees(items, n) is None,
    ensures
        list_trees(items, m) is None,
    decreases m - n,
{
    if n < m {
        lemma_list_trees_none(items, n, m - 1);
    }
}

/// Once a part of an object has no tree, no longer part has one.
proof fn lemma_object_trees_none(members: Seq<(Seq<char>, Doc)>, n: int, m: int)
    requires
        0 <= n <= m <= members.len(),
        object_trees(members, n) is None,
    ensures
        object_trees(members, m) is None,
    decreases m - n,
{
    if n < m {
        lemma_object_trees_none(members, n, m - 1);
    }
}

/// Once a part of a mapping has no tree, no longer part has one.
proof fn lemma_mapping_trees_none(members: Seq<(Doc, Doc)>, n: int, m: int)
    requires
        0 <= n <= m <= members.len(),
        mapping_trees(members, n) is None,
    ensures
        mapping_trees(members, m) is None,
    decreases m - n,
{
    if n < m {
        lemma_mapping_trees_none(members, n, m - 1);
    }
}

/// The key that the node `node` stands for as a mapping key.
fn node_key(node: Node) -> (r: Option<String>)
    ensures
        match r {
            Some(k) => key_of(node_doc(node)) == Some(k@),
            None => key_of(node_doc(node)) is None,
        },
{
    match open(node) {
        Shape::Text(s) => Some(s),
        Shape::Number(unsigned, signed, float) => match unsigned {
            Some(u) => Some(decimal_string(u as i128)),
            None => match signed {
                Some(i) => Some(decimal_string(i as i128)),
                None => None,
            },
        },
        _ => None,
    }
}

/// The value of the tree that a parsed document stands for.
pub fn node_value(node: Node) -> (r: Option<Value>)
    ensures
        match r {
            Some(v) => doc_tree(node_doc(node)) == Some(v@),
            None => doc_tree(node_doc(node)) is None,
        },
    decreases node_doc(node),
{
    let ghost d = node_doc(node);
    match open(node) {
        Shape::Null => Some(Value::Null),
        Shape::Bool(b) => Some(Value::Bool(b)),
        Shape::Number(unsigned, signed, float) => match unsigned {
            Some(u) => Some(Value::Integer(u as i128)),
            None => match signed {
                Some(i) => Some(Value::Integer(i as i128)),
                None => match float {
                    Some(bits) => Some(Value::Float(bits)),
                    None => Some(Value::Null),
                },
            },
        },
        Shape::Text(s) => Some(Value::String(s)),
        Shape::List(items) => {
            let ghost docs = d->List_0;
            assert(docs =~= Seq::new(items@.len(), |i: int| node_doc(items@[i])));
            let mut rest = items;
            let mut out: Vec<Value> = Vec::new();
            let ghost all = rest@;
            let mut i: usize = 0;
            let n = rest.len();
            while rest.len() > 0
                invariant
                    d == node_doc(node),
                    d is List,
                    docs == d->List_0,
                    docs.len() == all.len() == n,
                    forall|j: int| 0 <= j < all.len() ==> docs[j] == node_doc(#[trigger] all[j]),
                    i + rest@.len() == n,
                    rest@ == all.skip(i as int),
                    out@.len() == i,
                    list_trees(docs, i as int) == Some(Seq::new(i as nat, |j: int| out@[j]@)),
                decreases rest@.len(),
            {
                let item = rest.remove(0);
                proof {
                    assert(item == all[i as int]);
                    assert(rest@ == all.skip(i + 1));
                    assert(decreases_to!(d => d->List_0[i as int]));
                }
                match node_value(item) {
                    Some(v) => {
                        let ghost before = out@;
                        out.push(v);
                        proof {
                            assert(Seq::new((i + 1) as nat, |j: int| out@[j]@) =~= Seq::new(
                                i as nat,
                                |j: int| before[j]@,
                            ).push(v@));
                        }
                    },
                    None => {
                        proof {
                            lemma_list_trees_none(docs, i + 1, n as int);
                        }
                        return None;
                    },
                }
                i += 1;
            }
            let r = Value::List(out);
            assert(r@->List_0 =~= list_trees(docs, n as int)->0);
            Some(r)
        },
        Shape::Object(members) => {
            let ghost docs = d->Object_0;
            assert(docs =~= Seq::new(
                members@.len(),
                |i: int| (members@[i].0@, node_doc(members@[i].1)),
            ));
            let mut rest = members;
            let mut out = Table::new();
            let ghost all = rest@;
            let mut i: usize = 0;
            let n = rest.len();
            while rest.len() > 0
                invariant
                    d == node_doc(node),
                    d is Object,
                    docs == d->Object_0,
                    docs.len() == all.len() == n,
                    forall|j: int|
                        0 <= j < all.len() ==> docs[j] == ((#[trigger] all[j]).0@, node_doc(all[j].1)),
                    i + rest@.len() == n,
                    rest@ == all.skip(i as int),
                    object_trees(docs, i as int) == Some(out@),
                decreases rest@.len(),
            {
                let member = rest.remove(0);
                proof {
                    assert(member == all[i as int]);
                    assert(rest@ == all.skip(i + 1));
                    assert(decreases_to!(d => d->Object_0[i as int].1));
                }
                let (key, item) = member;
                match node_value(item) {
                    Some(v) => {
                        out.insert(key, v);
                    },
                    None => {
                        proof {
                            lemma_object_trees_none(docs, i + 1, n as int);
                        }
                        return None;
                    },
                }
                i += 1;
            }
            Some(Value::Object(out))
        },
        Shape::Mapping(members) => {
            let ghost docs = d->Mapping_0;
            assert(docs =~= Seq::new(
                members@.len(),
                |i: int| (node_doc(members@[i].0), node_doc(members@[i].1)),
            ));
            let mut rest = members;
            let mut out = Table::new();
            let ghost all = rest@;
            let mut i: usize = 0;
            let n = rest.len();
            while rest.len() > 0
                invariant
                    d == node_doc(node),
                    d is Mapping,
                    docs == d->Mapping_0,
                    docs.len() == all.len() == n,
                    forall|j: int|
                        0 <= j < all.len() ==> docs[j] == (
                            node_doc((#[trigger] all[j]).0),
                            node_doc(all[j].1),
                        ),
                    i + rest@.len() == n,
                    rest@ == all.skip(i as int),
                    mapping_trees(docs, i as int) == Some(out@),
                decreases rest@.len(),
            {
                let member = rest.remove(0);
                proof {
                    assert(member == all[i as int]);
                    assert(rest@ == all.skip(i + 1));
                    assert(decreases_to!(d => d->Mapping_0[i as int].1));
                }
                let (key_node, item) = member;
                let key = node_key(key_node);
                let value = node_value(item);
                if key.is_some() && value.is_some() {
                    out.insert(key.unwrap(), value.unwrap());
                } else {
                    proof {
                        lemma_mapping_trees_none(docs, i + 1, n as int);
                    }
                    return None;
                }
                i += 1;
            }
            Some(Value::Object(out))
        },
        Shape::Tagged(inner) => {
            proof {
                assert(decreases_to!(d => *d->Tagged_0));
            }
            node_value(inner)
        },
    }
}

/// What reading `text` in the format that it is taken to be in gives.
pub open spec fn read_document(text: Seq<char>) -> Option<Doc> {
    match detected_kind(text) {
        Kind::Json => json_read(text),
        Kind::Toml => toml_read(text),
        Kind::Yaml => yaml_read(text),
    }
}

/// The tree of the document `text`; nothing where the text is malformed or
/// has no tree.
pub open spec fn document_of(text: Seq<char>) -> Option<Tree> {
    match read_document(text) {
        Some(d) => doc_tree(d),
        None => None,
    }
}

/// The failure of a document of the format `kind`, with `message`.
pub fn parse_failure(kind: Kind, message: String) -> (e: Error)
    ensures
        failed_as(e, kind),
{
    match kind {
        Kind::Json => Error::Json(message),
        Kind::Toml => Error::Toml(message),
        Kind::Yaml => Error::Yaml(message),
    }
}

/// Whether `e` is the failure of a document of the format `kind`.
pub open spec fn failed_as(e: Error, kind: Kind) -> bool {
    match kind {
        Kind::Json => e is Json,
        Kind::Toml => e is Toml,
        Kind::Yaml => e is Yaml,
    }
}

/// Reads `text` in the format `kind`.
pub fn parse_as(kind: Kind, text: &str) -> (r: Result<Node, String>)
    ensures
        match r {
            Ok(node) => (match kind {
                Kind::Json => json_read(text@),
                Kind::Toml => toml_read(text@),
                Kind::Yaml => yaml_read(text@),
            }) == Some(node_doc(node)),
            Err(_) => (match kind {
                Kind::Json => json_read(text@),
                Kind::Toml => toml_read(text@),
                Kind::Yaml => yaml_read(text@),
            }) is None,
        },
{
    match kind {
        Kind::Json => match json_parse(text) {
            Ok(n) => Ok(Node::Json(n)),
            Err(m) => Err(m),
        },
        Kind::Toml => match toml_parse(text) {
            Ok(n) => Ok(Node::Toml(n)),
            Err(m) => Err(m),
        },
        Kind::Yaml => match yaml_parse(text) {
            Ok(n) => Ok(Node::Yaml(n)),
            Err(m) => Err(m),
        },
    }
}

impl Value {
    /// The value of a document that was read in the format `kind`. A
    /// document without a tree fails as a document of its format.
    pub fn from_node(node: Node, kind: Kind) -> (r: Result<Value, Error>)
        ensures
            match r {
                Ok(v) => doc_tree(node_doc(node)) == Some(v@),
                Err(e) => doc_tree(node_doc(node)) is None && failed_as(e, kind),
            },
    {
        match node_value(node) {
            Some(v) => Ok(v),
            None => Err(
                parse_failure(kind, "a key is neither a string nor a whole number".to_owned()),
            ),
        }
    }

    /// Reads the document `string`: its format is told from its first
    /// lines, and it is parsed in that format. A malformed document fails
    /// as a document of its format. String leaves are left as they are
    /// written; they are expanded when they are handed out.
    pub fn from_src(string: &str) -> (r: Result<Value, Error>)
        ensures
            match r {
                Ok(v) => document_of(string@) == Some(v@),
                Err(e) => document_of(string@) is None && failed_as(e, detected_kind(string@)),
            },
    {
        let kind = detect_config_type(string);
        match parse_as(kind, string) {
            Ok(node) => Value::from_node(node, kind),
            Err(message) => Err(parse_failure(kind, message)),
        }
    }
}

} // verus!
