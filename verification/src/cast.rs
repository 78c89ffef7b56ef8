//! Reading a value as a plain type, and making values from plain types.

use vstd::prelude::*;
use vstd::std_specs::convert::FromSpecImpl;
use crate::schema::{Declared, IntoDefault, TypeTag, Typed};
use crate::tree::Tree;
use crate::value::{Sealed, Table, Value};

verus! {

/// The whole number that `t` stores, where it lies between `lo` and `hi`.
pub open spec fn integer_within(t: Tree, lo: int, hi: int) -> Option<int> {
    match t {
        Tree::Integer(n) => if lo <= n <= hi {
            Some(n)
        } else {
            None
        },
        _ => None,
    }
}

/// The only way to read a secret: a view of what it holds that lasts as long
/// as the borrow it was made from.
pub struct SecretGuard<'a> {
    held: &'a Value,
}

impl<'a> SecretGuard<'a> {
    /// The tree of the value that the guard gives access to.
    pub closed spec fn view(&self) -> Tree {
        self.held@
    }

    /// The value that the secret holds.
    pub fn value(&self) -> (r: &'a Value)
        ensures
            r@ == self@,
    {
        self.held
    }
}

impl Value {
    /// The whole number that is stored, where it lies between `lo` and `hi`.
    fn integer_between(&self, lo: i128, hi: i128) -> (r: Option<i128>)
        ensures
            match r {
                Some(n) => integer_within(self@, lo as int, hi as int) == Some(n as int),
                None => integer_within(self@, lo as int, hi as int) is None,
            },
    {
        match self {
            Value::Integer(n) => if lo <= *n && *n <= hi {
                Some(*n)
            } else {
                None
            },
            _ => None,
        }
    }

    pub fn as_str(&self) -> (r: Option<&str>)
        ensures
            match r {
                Some(s) => self@ == Tree::Text(s@),
                None => !(self@ is Text),
            },
    {
        match self {
            Value::String(s) => Some(s.as_str()),
            _ => None,
        }
    }

    pub fn as_u8(&self) -> (r: Option<u8>)
        ensures
            match r {
                Some(n) => self@ == Tree::Integer(n as int),
                None => integer_within(self@, u8::MIN as int, u8::MAX as int) is None,
            },
    {
        match self.integer_between(u8::MIN as i128, u8::MAX as i128) {
            Some(n) => Some(n as u8),
            None => None,
        }
    }

    pub fn as_u16(&self) -> (r: Option<u16>)
        ensures
            match r {
                Some(n) => self@ == Tree::Integer(n as int),
                None => integer_within(self@, u16::MIN as int, u16::MAX as int) is None,
            },
    {
        match self.integer_between(u16::MIN as i128, u16::MAX as i128) {
            Some(n) => Some(n as u16),
            None => None,
        }
    }

    pub fn as_u32(&self) -> (r: Option<u32>)
        ensures
            match r {
                Some(n) => self@ == Tree::Integer(n as int),
                None => integer_within(self@, u32::MIN as int, u32::MAX as int) is None,
            },
    {
        match self.integer_between(u32::MIN as i128, u32::MAX as i128) {
            Some(n) => Some(n as u32),
            None => None,
        }
    }

    pub fn as_u64(&self) -> (r: Option<u64>)
        ensures
            match r {
                Some(n) => self@ == Tree::Integer(n as int),
                None => integer_within(self@, u64::MIN as int, u64::MAX as int) is None,
            },
    {
        match self.integer_between(u64::MIN as i128, u64::MAX as i128) {
            Some(n) => Some(n as u64),
            None => None,
        }
    }

    pub fn as_i8(&self) -> (r: Option<i8>)
        ensures
            match r {
                Some(n) => self@ == Tree::Integer(n as int),
                None => integer_within(self@, i8::MIN as int, i8::MAX as int) is None,
            },
    {
        match self.integer_between(i8::MIN as i128, i8::MAX as i128) {
            Some(n) => Some(n as i8),
            None => None,
        }
    }

    pub fn as_i16(&self) -> (r: Option<i16>)
        ensures
            match r {
                Some(n) => self@ == Tree::Integer(n as int),
                None => integer_within(self@, i16::MIN as int, i16::MAX as int) is None,
            },
    {
        match self.integer_between(i16::MIN as i128, i16::MAX as i128) {
            Some(n) => Some(n as i16),
            None => None,
        }
    }

    pub fn as_i32(&self) -> (r: Option<i32>)
        ensures
            match r {
                Some(n) => self@ == Tree::Integer(n as int),
                None => integer_within(self@, i32::MIN as int, i32::MAX as int) is None,
            },
    {
        match self.integer_between(i32::MIN as i128, i32::MAX as i128) {
            Some(n) => Some(n as i32),
            None => None,
        }
    }

    pub fn as_i64(&self) -> (r: Option<i64>)
        ensures
            match r {
                Some(n) => self@ == Tree::Integer(n as int),
                None => integer_within(self@, i64::MIN as int, i64::MAX as int) is None,
            },
    {
        match self.integer_between(i64::MIN as i128, i64::MAX as i128) {
            Some(n) => Some(n as i64),
            None => None,
        }
    }

    /// The bit pattern of the double that is stored.
    pub fn as_f64(&self) -> (r: Option<u64>)
        ensures
            match r {
                Some(bits) => self@ == Tree::Float(bits),
                None => !(self@ is Float),
            },
    {
        match self {
            Value::Float(bits) => Some(*bits),
            _ => None,
        }
    }

    pub fn as_bool(&self) -> (r: Option<bool>)
        ensures
            match r {
                Some(b) => self@ == Tree::Bool(b),
                None => !(self@ is Bool),
            },
    {
        match self {
            Value::Bool(b) => Some(*b),
            _ => None,
        }
    }

    pub fn as_hash_map(&self) -> (r: Option<&Table>)
        ensures
            match r {
                Some(t) => self@ == Tree::Object(t@),
                None => !(self@ is Object),
            },
    {
        match self {
            Value::Object(t) => Some(t),
            _ => None,
        }
    }

    /// A guard on what this secret holds; nothing where this is no secret.
    pub fn as_secret(&self) -> (r: Option<SecretGuard<'_>>)
        ensures
            match r {
                Some(g) => self@ == Tree::Secret(Box::new(g@)),
                None => !(self@ is Secret),
            },
    {
        match self {
            Value::Secret(s) => Some(SecretGuard { held: s.expose() }),
            _ => None,
        }
    }

    pub fn is_str(&self) -> (r: bool)
        ensures
            r == (self@ is Text),
    {
        self.as_str().is_some()
    }

    pub fn is_u8(&self) -> (r: bool)
        ensures
            r == integer_within(self@, u8::MIN as int, u8::MAX as int) is Some,
    {
        self.as_u8().is_some()
    }

    pub fn is_u16(&self) -> (r: bool)
        ensures
            r == integer_within(self@, u16::MIN as int, u16::MAX as int) is Some,
    {
        self.as_u16().is_some()
    }

    pub fn is_u32(&self) -> (r: bool)
        ensures
            r == integer_within(self@, u32::MIN as int, u32::MAX as int) is Some,
    {
        self.as_u32().is_some()
    }

    pub fn is_u64(&self) -> (r: bool)
        ensures
            r == integer_within(self@, u64::MIN as int, u64::MAX as int) is Some,
    {
        self.as_u64().is_some()
    }

    pub fn is_i8(&self) -> (r: bool)
        ensures
            r == integer_within(self@, i8::MIN as int, i8::MAX as int) is Some,
    {
        self.as_i8().is_some()
    }

    pub fn is_i16(&self) -> (r: bool)
        ensures
            r == integer_within(self@, i16::MIN as int, i16::MAX as int) is Some,
    {
        self.as_i16().is_some()
    }

    pub fn is_i32(&self) -> (r: bool)
        ensures
            r == integer_within(self@, i32::MIN as int, i32::MAX as int) is Some,
    {
        self.as_i32().is_some()
    }

    pub fn is_i64(&self) -> (r: bool)
        ensures
            r == integer_within(self@, i64::MIN as int, i64::MAX as int) is Some,
    {
        self.as_i64().is_some()
    }

    /// Whether a number with a fraction is stored.
    pub fn is_f32(&self) -> (r: bool)
        ensures
            r == (self@ is Float),
    {
        self.as_f64().is_some()
    }

    /// Whether a number with a fraction is stored.
    pub fn is_f64(&self) -> (r: bool)
        ensures
            r == (self@ is Float),
    {
        self.as_f64().is_some()
    }

    pub fn is_bool(&self) -> (r: bool)
        ensures
            r == (self@ is Bool),
    {
        self.as_bool().is_some()
    }

    pub fn is_hash_map(&self) -> (r: bool)
        ensures
            r == (self@ is Object),
    {
        self.as_hash_map().is_some()
    }

    /// Whether this is the absent value.
    pub fn is_none(&self) -> (r: bool)
        ensures
            r == (self@ is Absent),
    {
        match self {
            Value::Absent => true,
            _ => false,
        }
    }

    pub fn is_secret(&self) -> (r: bool)
        ensures
            r == (self@ is Secret),
    {
        self.as_secret().is_some()
    }

    /// Wraps `inner` in a secret. A secret cannot be wrapped again: `inner`
    /// is handed back.
    pub fn secret(inner: Value) -> (r: Result<Value, Value>)
        ensures
            match r {
                Ok(v) => !(inner@ is Secret) && v@ == Tree::Secret(Box::new(inner@)),
                Err(v) => inner@ is Secret && v == inner,
            },
    {
        match Sealed::new(inner) {
            Ok(s) => Ok(Value::Secret(s)),
            Err(v) => Err(v),
        }
    }
}

impl From<i32> for Value {
    fn from(n: i32) -> (v: Value) {
        Value::Integer(n as i128)
    }
}

impl FromSpecImpl<i32> for Value {
    open spec fn obeys_from_spec() -> bool {
        true
    }

    open spec fn from_spec(n: i32) -> Value {
        Value::Integer(n as i128)
    }
}

impl From<i64> for Value {
    fn from(n: i64) -> (v: Value) {
        Value::Integer(n as i128)
    }
}

impl FromSpecImpl<i64> for Value {
    open spec fn obeys_from_spec() -> bool {
        true
    }

    open spec fn from_spec(n: i64) -> Value {
        Value::Integer(n as i128)
    }
}

impl From<u64> for Value {
    fn from(n: u64) -> (v: Value) {
        Value::Integer(n as i128)
    }
}

impl FromSpecImpl<u64> for Value {
    open spec fn obeys_from_spec() -> bool {
        true
    }

    open spec fn from_spec(n: u64) -> Value {
        Value::Integer(n as i128)
    }
}

impl From<bool> for Value {
    fn from(boolean: bool) -> (v: Value) {
        Value::Bool(boolean)
    }
}

impl FromSpecImpl<bool> for Value {
    open spec fn obeys_from_spec() -> bool {
        true
    }

    open spec fn from_spec(boolean: bool) -> Value {
        Value::Bool(boolean)
    }
}

impl From<()> for Value {
    fn from(unit: ()) -> (v: Value) {
        Value::Null
    }
}

impl FromSpecImpl<()> for Value {
    open spec fn obeys_from_spec() -> bool {
        true
    }

    open spec fn from_spec(unit: ()) -> Value {
        Value::Null
    }
}

impl From<Vec<Value>> for Value {
    fn from(vec: Vec<Value>) -> (v: Value) {
        Value::List(vec)
    }
}

impl FromSpecImpl<Vec<Value>> for Value {
    open spec fn obeys_from_spec() -> bool {
        true
    }

    open spec fn from_spec(vec: Vec<Value>) -> Value {
        Value::List(vec)
    }
}

impl From<Table> for Value {
    fn from(table: Table) -> (v: Value) {
        Value::Object(table)
    }
}

impl FromSpecImpl<Table> for Value {
    open spec fn obeys_from_spec() -> bool {
        true
    }

    open spec fn from_spec(table: Table) -> Value {
        Value::Object(table)
    }
}

impl IntoDefault for bool {
    open spec fn declared() -> Declared {
        Declared::One(TypeTag::Bool)
    }

    open spec fn tree(&self) -> Tree {
        Tree::Bool(*self)
    }

    fn declared_as() -> (d: Declared) {
        Declared::One(TypeTag::Bool)
    }

    fn into_value(self) -> (v: Value) {
        Value::Bool(self)
    }
}

impl Typed for bool {
    open spec fn accepts(t: Tree) -> bool {
        t is Bool
    }

    fn from_value(v: &Value) -> (r: Option<bool>) {
        v.as_bool()
    }
}

impl IntoDefault for String {
    open spec fn declared() -> Declared {
        Declared::One(TypeTag::String)
    }

    open spec fn tree(&self) -> Tree {
        Tree::Text(self@)
    }

    fn declared_as() -> (d: Declared) {
        Declared::One(TypeTag::String)
    }

    fn into_value(self) -> (v: Value) {
        Value::String(self)
    }
}

impl Typed for String {
    open spec fn accepts(t: Tree) -> bool {
        t is Text
    }

    fn from_value(v: &Value) -> (r: Option<String>) {
        match v.as_str() {
            Some(s) => Some(s.to_owned()),
            None => None,
        }
    }
}

impl<'a> IntoDefault for &'a str {
    open spec fn declared() -> Declared {
        Declared::One(TypeTag::String)
    }

    open spec fn tree(&self) -> Tree {
        Tree::Text(self@)
    }

    fn declared_as() -> (d: Declared) {
        Declared::One(TypeTag::String)
    }

    fn into_value(self) -> (v: Value) {
        Value::String(self.to_owned())
    }
}

impl IntoDefault for u8 {
    open spec fn declared() -> Declared {
        Declared::One(TypeTag::U8)
    }

    open spec fn tree(&self) -> Tree {
        Tree::Integer(*self as int)
    }

    fn declared_as() -> (d: Declared) {
        Declared::One(TypeTag::U8)
    }

    fn into_value(self) -> (v: Value) {
        Value::Integer(self as i128)
    }
}

impl Typed for u8 {
    open spec fn accepts(t: Tree) -> bool {
        integer_within(t, u8::MIN as int, u8::MAX as int) is Some
    }

    fn from_value(v: &Value) -> (r: Option<u8>) {
        v.as_u8()
    }
}

impl IntoDefault for u16 {
    open spec fn declared() -> Declared {
        Declared::One(TypeTag::U16)
    }

    open spec fn tree(&self) -> Tree {
        Tree::Integer(*self as int)
    }

    fn declared_as() -> (d: Declared) {
        Declared::One(TypeTag::U16)
    }

    fn into_value(self) -> (v: Value) {
        Value::Integer(self as i128)
    }
}

impl Typed for u16 {
    open spec fn accepts(t: Tree) -> bool {
        integer_within(t, u16::MIN as int, u16::MAX as int) is Some
    }

    fn from_value(v: &Value) -> (r: Option<u16>) {
        v.as_u16()
    }
}

impl IntoDefault for u32 {
    open spec fn declared() -> Declared {
        Declared::One(TypeTag::U32)
    }

    open spec fn tree(&self) -> Tree {
        Tree::Integer(*self as int)
    }

    fn declared_as() -> (d: Declared) {
        Declared::One(TypeTag::U32)
    }

    fn into_value(self) -> (v: Value) {
        Value::Integer(self as i128)
    }
}

impl Typed for u32 {
    open spec fn accepts(t: Tree) -> bool {
        integer_within(t, u32::MIN as int, u32::MAX as int) is Some
    }

    fn from_value(v: &Value) -> (r: Option<u32>) {
        v.as_u32()
    }
}

impl IntoDefault for u64 {
    open spec fn declared() -> Declared {
        Declared::One(TypeTag::U64)
    }

    open spec fn tree(&self) -> Tree {
        Tree::Integer(*self as int)
    }

    fn declared_as() -> (d: Declared) {
        Declared::One(TypeTag::U64)
    }

    fn into_value(self) -> (v: Value) {
        Value::Integer(self as i128)
    }
}

impl Typed for u64 {
    open spec fn accepts(t: Tree) -> bool {
        integer_within(t, u64::MIN as int, u64::MAX as int) is Some
    }

    fn from_value(v: &Value) -> (r: Option<u64>) {
        v.as_u64()
    }
}

impl IntoDefault for i8 {
    open spec fn declared() -> Declared {
        Declared::One(TypeTag::I8)
    }

    open spec fn tree(&self) -> Tree {
        Tree::Integer(*self as int)
    }

    fn declared_as() -> (d: Declared) {
        Declared::One(TypeTag::I8)
    }

    fn into_value(self) -> (v: Value) {
        Value::Integer(self as i128)
    }
}

impl Typed for i8 {
    open spec fn accepts(t: Tree) -> bool {
        integer_within(t, i8::MIN as int, i8::MAX as int) is Some
    }

    fn from_value(v: &Value) -> (r: Option<i8>) {
        v.as_i8()
    }
}

impl IntoDefault for i16 {
    open spec fn declared() -> Declared {
        Declared::One(TypeTag::I16)
    }

    open spec fn tree(&self) -> Tree {
        Tree::Integer(*self as int)
    }

    fn declared_as() -> (d: Declared) {
        Declared::One(TypeTag::I16)
    }

    fn into_value(self) -> (v: Value) {
        Value::Integer(self as i128)
    }
}

impl Typed for i16 {
    open spec fn accepts(t: Tree) -> bool {
        integer_within(t, i16::MIN as int, i16::MAX as int) is Some
    }

    fn from_value(v: &Value) -> (r: Option<i16>) {
        v.as_i16()
    }
}

impl IntoDefault for i32 {
    open spec fn declared() -> Declared {
        Declared::One(TypeTag::I32)
    }

    open spec fn tree(&self) -> Tree {
        Tree::Integer(*self as int)
    }

    fn declared_as() -> (d: Declared) {
        Declared::One(TypeTag::I32)
    }

    fn into_value(self) -> (v: Value) {
        Value::Integer(self as i128)
    }
}

impl Typed for i32 {
    open spec fn accepts(t: Tree) -> bool {
        integer_within(t, i32::MIN as int, i32::MAX as int) is Some
    }

    fn from_value(v: &Value) -> (r: Option<i32>) {
        v.as_i32()
    }
}

impl IntoDefault for i64 {
    open spec fn declared() -> Declared {
        Declared::One(TypeTag::I64)
    }

    open spec fn tree(&self) -> Tree {
        Tree::Integer(*self as int)
    }

    fn declared_as() -> (d: Declared) {
        Declared::One(TypeTag::I64)
    }

    fn into_value(self) -> (v: Value) {
        Value::Integer(self as i128)
    }
}

impl Typed for i64 {
    open spec fn accepts(t: Tree) -> bool {
        integer_within(t, i64::MIN as int, i64::MAX as int) is Some
    }

    fn from_value(v: &Value) -> (r: Option<i64>) {
        v.as_i64()
    }
}

} // verus!
