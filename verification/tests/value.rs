use unison::config::Config;
use unison::error::Error;
use unison::schema::{Declared, TypeTag};
use unison::value::{Table, Value};

#[test]
fn can_create_config() {
    let _config = Config::new("test");
}

#[test]
fn can_merge_simple_value() {
    let mut value = Value::Absent;
    value.merge(Value::Integer(23));

    let _ = matches!(value, Value::Integer(n) if n == 23);
}

#[test]
fn can_merge_map_value() {
    let mut map_a_1 = Table::new();
    map_a_1.insert(
        "alpha".to_string(),
        Value::List(vec![Value::Integer(1), Value::Integer(2), Value::Integer(3)]),
    );
    map_a_1.insert("beta".to_string(), Value::Null);

    let mut map_a = Table::new();
    map_a.insert("foo".to_string(), Value::Bool(true));
    map_a.insert("bar".to_string(), Value::Integer(23));
    map_a.insert("baz".to_string(), Value::Object(map_a_1));
    map_a.insert("ack".to_string(), Value::String("cat".into()));

    let mut map_b_1 = Table::new();
    map_b_1.insert(
        "alpha".to_string(),
        Value::List(vec![Value::Integer(3), Value::Integer(4)]),
    );
    map_b_1.insert("beta".to_string(), Value::String("second".into()));

    let mut map_b = Table::new();
    map_b.insert("foo".to_string(), Value::Bool(false));
    map_b.insert("baz".to_string(), Value::Object(map_b_1));
    map_b.insert("ack".to_string(), Value::String("dog".into()));
    map_b.insert("biz".to_string(), Value::String("wheel".into()));

    let value = Value::Object(map_a);

    let _ = matches!(&value, Value::Object(m) if m.len() == 5);
    if let Value::Object(map) = value {
        let _ = matches!(map.get("foo"), Some(Value::Bool(b)) if *b == false);
        let _ = matches!(map.get("bar"), Some(Value::Integer(n)) if *n == 23);
        let _ = matches!(map.get("baz"), Some(Value::Object(m)) if m.len() == 2);
        let _ = matches!(map.get("ack"), Some(Value::String(s)) if s == "dog");
        let _ = matches!(map.get("biz"), Some(Value::String(s)) if s == "wheel");

        let value = map.get("baz").unwrap();
        if let Value::Object(map) = value {
            let _ = matches!(map.get("alpha"), Some(Value::List(v)) if v.len() == 3);
            let _ = matches!(map.get("beta"), Some(Value::String(v)) if v == "second");
        } else {
            unreachable!();
        }
    } else {
        unreachable!();
    }
}

#[test]
fn can_create_from_i32() {
    let _ = matches!(Value::from(23), Value::Integer(n) if n == 23);
}

#[test]
fn can_create_from_bool() {
    let _ = matches!(Value::from(true), Value::Bool(n) if n == true);
}

#[test]
fn can_create_from_string() {
    let _ = matches!(
        Value::from_parts("truck", None, None),
        Ok(Value::String(s)) if s == "truck"
    );
}

#[test]
fn can_create_from_map() {
    let mut map = Table::new();
    map.insert("first".to_string(), Value::from(10));
    map.insert("second".to_string(), Value::from(20));
    map.insert("third".to_string(), Value::from(30));

    let value = Value::from(map);

    let _ = matches!(&value, Value::Object(m) if m.len() == 3);
    if let Value::Object(map) = value {
        let _ = matches!(map.get("first"), Some(Value::Integer(n)) if *n == 10);
        let _ = matches!(map.get("second"), Some(Value::Integer(n)) if *n == 20);
        let _ = matches!(map.get("third"), Some(Value::Integer(n)) if *n == 30);
    } else {
        unreachable!();
    }
}

#[test]
fn can_create_from_vec() {
    let vec = vec![Value::from(1), Value::from(2), Value::from(3)];
    let value = Value::from(vec);
    let _ = matches!(&value, Value::List(v) if v.len() == 3);
    if let Value::List(v) = value {
        let _ = matches!(v[0], Value::Integer(n) if n == 1);
        let _ = matches!(v[1], Value::Integer(n) if n == 2);
        let _ = matches!(v[2], Value::Integer(n) if n == 3);
    }
}

#[test]
fn can_create_from_empty_tuple() {
    let value = Value::from(());
    let _ = matches!(value, Value::Null);
}

#[test]
fn can_be_path_indexed() {
    let mut foo = Table::new();
    let mut bar = Table::new();
    let mut baz = Table::new();
    baz.insert("ack".to_string(), Value::from(1));
    bar.insert("baz".to_string(), Value::from(baz));
    foo.insert("bar".to_string(), Value::from(bar));

    let value = Value::from(foo);

    let num = &value["bar.baz.ack"];
    let none = &value["foo"];

    assert!(*num == Value::Integer(1));
    assert!(*none == Value::Absent);
}

fn sample_a() -> Value {
    let mut inner = Table::new();
    inner.insert(
        "alpha".to_string(),
        Value::List(vec![Value::Integer(1), Value::Integer(2), Value::Integer(3)]),
    );
    inner.insert("beta".to_string(), Value::Null);
    let mut map = Table::new();
    map.insert("foo".to_string(), Value::Bool(true));
    map.insert("bar".to_string(), Value::Integer(23));
    map.insert("baz".to_string(), Value::Object(inner));
    map.insert("ack".to_string(), Value::String("cat".into()));
    Value::Object(map)
}

fn sample_b() -> Value {
    let mut inner = Table::new();
    inner.insert(
        "alpha".to_string(),
        Value::List(vec![Value::Integer(3), Value::Integer(4)]),
    );
    inner.insert("beta".to_string(), Value::String("second".into()));
    let mut map = Table::new();
    map.insert("foo".to_string(), Value::Bool(false));
    map.insert("baz".to_string(), Value::Object(inner));
    map.insert("ack".to_string(), Value::String("dog".into()));
    map.insert("biz".to_string(), Value::String("wheel".into()));
    Value::Object(map)
}

#[test]
fn merge_of_maps_is_deep_and_keeps_siblings() {
    let mut value = sample_a();
    value.merge(sample_b());
    assert!(matches!(&value, Value::Object(m) if m.len() == 5));
    assert!(matches!(value.get_path("foo"), Value::Bool(false)));
    assert!(matches!(value.get_path("bar"), Value::Integer(23)));
    assert!(matches!(value.get_path("ack"), Value::String(s) if s == "dog"));
    assert!(matches!(value.get_path("biz"), Value::String(s) if s == "wheel"));
    assert!(matches!(value.get_path("baz"), Value::Object(m) if m.len() == 2));
    assert!(matches!(value.get_path("baz.alpha"), Value::List(v) if v.len() == 2));
    assert!(matches!(value.get_path("baz.alpha.0"), Value::Integer(3)));
    assert!(matches!(value.get_path("baz.beta"), Value::String(s) if s == "second"));
}

#[test]
fn merge_replaces_when_either_side_is_no_map() {
    let mut value = sample_a();
    value.merge(Value::Integer(23));
    assert!(value == Value::Integer(23));
    let mut scalar = Value::String("x".into());
    scalar.merge(sample_b());
    assert!(scalar == sample_b());
    let mut absent = Value::Absent;
    absent.merge(Value::Null);
    assert!(absent == Value::Null);
}

#[test]
fn merge_keeps_keys_that_only_the_target_has() {
    let mut value = sample_a();
    let mut incoming = Table::new();
    incoming.insert("new".to_string(), Value::Integer(1));
    value.merge(Value::Object(incoming));
    assert!(matches!(value.get_path("foo"), Value::Bool(true)));
    assert!(matches!(value.get_path("baz.beta"), Value::Null));
    assert!(matches!(value.get_path("new"), Value::Integer(1)));
}

#[test]
fn get_path_descends_maps_and_lists() {
    let value = sample_a();
    assert!(matches!(value.get_path("baz.alpha.2"), Value::Integer(3)));
    assert!(matches!(value.get_path("baz.alpha.+1"), Value::Integer(2)));
    assert!(matches!(value.get_path("baz.alpha.3"), Value::Absent));
    assert!(matches!(value.get_path("baz.alpha.x"), Value::Absent));
    assert!(matches!(value.get_path("baz.alpha.-1"), Value::Absent));
    assert!(matches!(
        value.get_path("baz.alpha.99999999999999999999999999"),
        Value::Absent
    ));
    assert!(matches!(value.get_path("foo.deeper"), Value::Absent));
    assert!(matches!(value.get_path("missing.deeper.still"), Value::Absent));
    assert!(matches!(value.get_path(""), Value::Absent));
    assert!(matches!(value.get_path("baz.beta"), Value::Null));
    assert!(matches!(value.get("baz.alpha.0"), Value::Integer(1)));
}

#[test]
fn secrets_are_opaque_to_path_descent() {
    let mut inner = Table::new();
    inner.insert("key".to_string(), Value::Integer(7));
    let secret = Value::secret(Value::Object(inner)).ok().unwrap();
    let mut root = Table::new();
    root.insert("s".to_string(), secret);
    let root = Value::Object(root);
    assert!(root.get_path("s").is_secret());
    assert!(root.get_path("s.key").is_none());
}

#[test]
fn set_then_get_returns_the_value() {
    let mut root = Value::Object(Table::new());
    root.set_path("server.port", Value::Integer(8000));
    root.set_path("server.host", Value::String("localhost".into()));
    assert!(*root.get_path("server.port") == Value::Integer(8000));
    assert!(*root.get_path("server.host") == Value::String("localhost".into()));
    assert!(matches!(root.get_path("server"), Value::Object(m) if m.len() == 2));
    root.set_path("server.port", Value::Integer(9000));
    assert!(*root.get_path("server.port") == Value::Integer(9000));
}

#[test]
fn set_path_creates_maps_and_never_lists() {
    let mut root = Value::Object(Table::new());
    root.set_path("a.0.b", Value::Integer(1));
    assert!(matches!(root.get_path("a"), Value::Object(m) if m.len() == 1));
    assert!(matches!(root.get_path("a.0"), Value::Object(m) if m.contains_key("b")));
    assert!(*root.get_path("a.0.b") == Value::Integer(1));
}

#[test]
fn set_path_writes_into_an_item_of_a_list() {
    let mut root = sample_a();
    root.set_path("baz.alpha.1", Value::String("two".into()));
    assert!(matches!(root.get_path("baz.alpha"), Value::List(v) if v.len() == 3));
    assert!(*root.get_path("baz.alpha.1") == Value::String("two".into()));
    assert!(*root.get_path("baz.alpha.0") == Value::Integer(1));
}

#[test]
fn set_path_goes_through_what_is_no_object() {
    let mut root = sample_a();
    root.set_path("bar.deeper", Value::Integer(5));
    assert!(*root.get_path("bar.deeper") == Value::Integer(5));
    assert!(matches!(root.get_path("bar"), Value::Object(m) if m.len() == 1));
    assert!(*root.get_path("foo") == Value::Bool(true));
    let mut one = Table::new();
    one.insert("a".to_string(), Value::Integer(1));
    let mut one = Value::Object(one);
    one.set_path("a.b", Value::Integer(2));
    assert!(*one.get_path("a.b") == Value::Integer(2));
    let mut scalar = Value::Absent;
    scalar.set_path("a.b", Value::Integer(5));
    assert!(*scalar.get_path("a.b") == Value::Integer(5));
    let mut null = Value::Null;
    null.set_path("x", Value::Bool(true));
    assert!(*null.get_path("x") == Value::Bool(true));
    let mut sealed = Table::new();
    sealed.insert("s".to_string(), Value::secret(Value::Integer(1)).ok().unwrap());
    let mut sealed = Value::Object(sealed);
    sealed.set_path("s.t", Value::Integer(2));
    assert!(*sealed.get_path("s.t") == Value::Integer(2));
}

#[test]
fn set_path_never_extends_or_loses_a_list() {
    let mut root = sample_a();
    root.set_path("baz.alpha.7", Value::Integer(5));
    assert!(root == sample_a());
    root.set_path("baz.alpha.x.y", Value::Integer(5));
    assert!(root == sample_a());
    root.set_path("baz.alpha.3", Value::Integer(5));
    assert!(matches!(root.get_path("baz.alpha"), Value::List(v) if v.len() == 3));
    let mut list = Table::new();
    list.insert("l".to_string(), Value::List(vec![Value::Integer(1)]));
    let mut list = Value::Object(list);
    list.set_path("l.5", Value::Integer(9));
    assert!(matches!(list.get_path("l"), Value::List(v) if v.len() == 1));
    assert!(*list.get_path("l.0") == Value::Integer(1));
    list.set_path("l.0.k", Value::Integer(9));
    assert!(*list.get_path("l.0.k") == Value::Integer(9));
}

#[test]
fn set_path_merges_maps_at_the_end_of_the_path() {
    let mut root = sample_a();
    let mut incoming = Table::new();
    incoming.insert("gamma".to_string(), Value::Integer(3));
    root.set_path("baz", Value::Object(incoming));
    assert!(matches!(root.get_path("baz"), Value::Object(m) if m.len() == 3));
    assert!(*root.get_path("baz.gamma") == Value::Integer(3));
    assert!(*root.get_path("baz.beta") == Value::Null);
}

#[test]
fn set_replaces_and_creates_nested_maps() {
    let mut root = sample_a();
    let mut incoming = Table::new();
    incoming.insert("gamma".to_string(), Value::Integer(3));
    root.set("baz", Value::Object(incoming));
    assert!(matches!(root.get_path("baz"), Value::Object(m) if m.len() == 1));
    root.set("x.y.z", Value::Bool(true));
    assert!(*root.get_path("x.y.z") == Value::Bool(true));
    root.set("x.y.w", Value::Bool(false));
    assert!(*root.get_path("x.y.z") == Value::Bool(true));
    assert!(*root.get_path("x.y.w") == Value::Bool(false));
    let mut scalar = Value::Integer(1);
    scalar.set("a", Value::Integer(2));
    assert!(scalar == Value::Integer(1));
}

#[test]
fn equality_ignores_the_order_of_keys() {
    let mut one = Table::new();
    one.insert("a".to_string(), Value::Integer(1));
    one.insert("b".to_string(), Value::Integer(2));
    let mut two = Table::new();
    two.insert("b".to_string(), Value::Integer(2));
    two.insert("a".to_string(), Value::Integer(1));
    assert!(Value::Object(one.clone()) == Value::Object(two.clone()));
    two.insert("c".to_string(), Value::Null);
    assert!(Value::Object(one.clone()) != Value::Object(two.clone()));
    one.insert("c".to_string(), Value::Absent);
    assert!(Value::Object(one) != Value::Object(two));
    assert!(Value::Null != Value::Absent);
    assert!(Value::List(vec![Value::Integer(1)]) != Value::List(vec![Value::Integer(2)]));
    assert!(Value::List(vec![Value::Integer(1)]) != Value::List(vec![]));
}

#[test]
fn clone_stores_the_same_tree() {
    let value = sample_a();
    let copy = value.clone();
    assert!(copy == value);
    let secret = Value::secret(Value::Integer(42)).ok().unwrap();
    let copy = secret.clone();
    assert!(copy.is_secret());
    assert!(copy == secret);
}

#[test]
fn table_keeps_one_value_per_key() {
    let mut table = Table::new();
    assert!(table.is_empty());
    assert!(table.insert("a".to_string(), Value::Integer(1)).is_none());
    assert!(matches!(table.insert("a".to_string(), Value::Integer(2)), Some(Value::Integer(1))));
    assert_eq!(table.len(), 1);
    assert!(matches!(table.get("a"), Some(Value::Integer(2))));
    assert!(table.get("b").is_none());
    assert!(matches!(table.remove("a"), Some(Value::Integer(2))));
    assert!(table.remove("a").is_none());
    assert!(table.is_empty());
    table.insert("x".to_string(), Value::Null);
    assert!(matches!(table.pop(), Some((k, Value::Null)) if k == "x"));
    assert!(table.pop().is_none());
}

#[test]
fn values_are_made_from_plain_types() {
    assert!(Value::from(23) == Value::Integer(23));
    assert!(Value::from(true) == Value::Bool(true));
    assert!(Value::from(()) == Value::Null);
    assert!(Value::from(vec![Value::from(1)]) == Value::List(vec![Value::Integer(1)]));
    assert!(Value::from(Table::new()) == Value::Object(Table::new()));
}

#[test]
fn a_table_is_made_from_pairs() {
    let table = Table::from_pairs(vec![
        ("a".to_string(), Value::Integer(1)),
        ("b".to_string(), Value::Integer(2)),
        ("a".to_string(), Value::Integer(3)),
    ]);
    assert_eq!(table.len(), 2);
    assert!(matches!(table.get("a"), Some(Value::Integer(3))));
    assert!(matches!(table.get("b"), Some(Value::Integer(2))));
}

#[test]
fn failures_are_put_in_words() {
    assert_eq!(Error::Io("/x".into()).message(), "cannot read the file /x");
    assert_eq!(Error::Json("eof".into()).message(), "malformed JSON: eof");
    assert_eq!(Error::Toml("eof".into()).message(), "malformed TOML: eof");
    assert_eq!(Error::Yaml("eof".into()).message(), "malformed YAML: eof");
    assert_eq!(Error::TagExpansion("int:x".into()).message(), "malformed tag in int:x");
    assert_eq!(Error::NotInitialized.message(), "the configuration has not been loaded");
    assert_eq!(Error::MissingPath("a.b".into()).message(), "nothing usable at the path a.b");
    let e = Error::TypeCoercion { path: "a".into(), target: Declared::One(TypeTag::U8) };
    assert_eq!(e.message(), "no value of the declared type for the path a");
}

#[test]
fn casts_check_the_bounds_of_the_type() {
    assert_eq!(Value::Integer(255).as_u8(), Some(255));
    assert_eq!(Value::Integer(256).as_u8(), None);
    assert_eq!(Value::Integer(-1).as_u8(), None);
    assert_eq!(Value::Integer(-128).as_i8(), Some(-128));
    assert_eq!(Value::Integer(-129).as_i8(), None);
    assert_eq!(Value::Integer(65535).as_u16(), Some(65535));
    assert_eq!(Value::Integer(65536).as_u16(), None);
    assert_eq!(Value::Integer(-32768).as_i16(), Some(-32768));
    assert_eq!(Value::Integer(4294967295).as_u32(), Some(4294967295));
    assert_eq!(Value::Integer(4294967296).as_u32(), None);
    assert_eq!(Value::Integer(2147483648).as_i32(), None);
    assert_eq!(Value::Integer(18446744073709551615).as_u64(), Some(u64::MAX));
    assert_eq!(Value::Integer(18446744073709551616).as_u64(), None);
    assert_eq!(Value::Integer(-9223372036854775808).as_i64(), Some(i64::MIN));
    assert_eq!(Value::Integer(9223372036854775808).as_i64(), None);
    assert_eq!(Value::String("1".into()).as_u8(), None);
    assert_eq!(Value::from(7u64).as_u64(), Some(7));
    assert_eq!(Value::from(-7i64).as_i64(), Some(-7));
}

#[test]
fn kinds_are_told_apart() {
    assert!(Value::String("s".into()).is_str());
    assert_eq!(Value::String("s".into()).as_str(), Some("s"));
    assert!(!Value::Integer(1).is_str());
    assert!(Value::Bool(true).is_bool());
    assert_eq!(Value::Bool(true).as_bool(), Some(true));
    assert!(Value::Integer(1).is_u8() && Value::Integer(1).is_i64());
    assert!(Value::Integer(1).is_u16() && Value::Integer(1).is_u32() && Value::Integer(1).is_u64());
    assert!(Value::Integer(1).is_i8() && Value::Integer(1).is_i16() && Value::Integer(1).is_i32());
    assert!(!Value::Integer(300).is_u8());
    assert!(Value::Object(Table::new()).is_hash_map());
    assert!(Value::Object(Table::new()).as_hash_map().unwrap().is_empty());
    assert!(Value::Absent.is_none());
    assert!(!Value::Null.is_none());
    let bits = 1.5f64.to_bits();
    assert!(Value::Float(bits).is_f64() && Value::Float(bits).is_f32());
    assert_eq!(Value::Float(bits).as_f64().map(f64::from_bits), Some(1.5));
    assert!(!Value::Integer(1).is_f64());
    assert!(!Value::Integer(1).is_secret());
}

#[test]
fn a_secret_cannot_be_sealed_again() {
    let secret = Value::secret(Value::Integer(42)).ok().unwrap();
    assert!(secret.is_secret());
    let again = Value::secret(secret);
    assert!(matches!(again, Err(v) if v.is_secret()));
}

#[test]
fn a_secret_is_read_through_its_guard_and_never_written_out() {
    let secret = Value::secret(Value::Integer(42)).ok().unwrap();
    let guard = secret.as_secret().unwrap();
    assert_eq!(guard.value().as_i64(), Some(42));
    assert_eq!(secret.debug_string(), "Secret(***)");
    let mut table = Table::new();
    table.insert("password".to_string(), secret);
    table.insert("port".to_string(), Value::Integer(8000));
    let shown = Value::List(vec![Value::Object(table)]).debug_string();
    assert!(!shown.contains("42"));
    assert!(shown.contains("password: Secret(***)"));
    assert!(shown.contains("port: Integer(8000)"));
}

#[test]
fn values_are_written_out_by_kind() {
    assert_eq!(Value::Null.debug_string(), "Null");
    assert_eq!(Value::Absent.debug_string(), "Absent");
    assert_eq!(Value::Bool(true).debug_string(), "Bool(true)");
    assert_eq!(Value::Bool(false).debug_string(), "Bool(false)");
    assert_eq!(Value::Integer(-120).debug_string(), "Integer(-120)");
    assert_eq!(Value::Integer(0).debug_string(), "Integer(0)");
    assert_eq!(Value::Float(3).debug_string(), "Float(bits 3)");
    assert_eq!(Value::String("hi".into()).debug_string(), "String(hi)");
    assert_eq!(
        Value::List(vec![Value::Integer(1), Value::Null, Value::Integer(3)]).debug_string(),
        "[Integer(1), Null, Integer(3)]"
    );
    assert_eq!(Value::List(vec![]).debug_string(), "[]");
    let mut table = Table::new();
    table.insert("a".to_string(), Value::Integer(1));
    table.insert("b".to_string(), Value::List(vec![]));
    assert_eq!(Value::Object(table).debug_string(), "{a: Integer(1), b: []}");
}
