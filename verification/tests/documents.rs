use unison::document::{detect_config_type, Kind};
use unison::error::Error;
use unison::value::Value;

#[test]
fn the_format_is_told_from_the_first_character() {
    assert!(detect_config_type("{\"a\": 1}") == Kind::Json);
    assert!(detect_config_type("[server]\nport = 1\n") == Kind::Toml);
    assert!(detect_config_type("server:\n  port: 1\n") == Kind::Yaml);
    assert!(detect_config_type("") == Kind::Yaml);
    assert!(detect_config_type(" {") == Kind::Yaml);
    assert!(detect_config_type("port = 1") == Kind::Yaml);
}

#[test]
fn a_json_document_becomes_a_tree() {
    let text = "{\"server\": {\"port\": 8000, \"hosts\": [\"a\", \"b\"], \"ratio\": 0.5, \
                \"debug\": true, \"none\": null, \"offset\": -3}}";
    let value = Value::from_src(text).ok().unwrap();
    assert_eq!(value.get_path("server.port").as_u32(), Some(8000));
    assert_eq!(value.get_path("server.hosts.1").as_str(), Some("b"));
    assert!(matches!(value.get_path("server.hosts"), Value::List(v) if v.len() == 2));
    assert_eq!(value.get_path("server.ratio").as_f64().map(f64::from_bits), Some(0.5));
    assert_eq!(value.get_path("server.debug").as_bool(), Some(true));
    assert!(matches!(value.get_path("server.none"), Value::Null));
    assert_eq!(value.get_path("server.offset").as_i64(), Some(-3));
    assert!(value.get_path("server.missing").is_none());
}

#[test]
fn large_json_numbers_keep_their_value() {
    let value = Value::from_src("{\"n\": 18446744073709551615}").ok().unwrap();
    assert_eq!(value.get_path("n").as_u64(), Some(u64::MAX));
}

#[test]
fn a_toml_document_becomes_a_tree() {
    let text = "[server]\nport = 8000\nhosts = [\"a\", \"b\"]\nratio = 0.5\ndebug = true\n\
                started = 1979-05-27T07:32:00Z\n";
    let value = Value::from_src(text).ok().unwrap();
    assert_eq!(value.get_path("server.port").as_i64(), Some(8000));
    assert_eq!(value.get_path("server.hosts.0").as_str(), Some("a"));
    assert_eq!(value.get_path("server.ratio").as_f64().map(f64::from_bits), Some(0.5));
    assert_eq!(value.get_path("server.debug").as_bool(), Some(true));
    assert_eq!(value.get_path("server.started").as_str(), Some("1979-05-27T07:32:00Z"));
}

#[test]
fn a_yaml_document_becomes_a_tree() {
    let text = "server:\n  port: 8000\n  hosts:\n    - a\n    - b\n  ratio: 0.5\n  1: one\n  \
                none: ~\n";
    let value = Value::from_src(text).ok().unwrap();
    assert_eq!(value.get_path("server.port").as_u32(), Some(8000));
    assert_eq!(value.get_path("server.hosts.1").as_str(), Some("b"));
    assert_eq!(value.get_path("server.ratio").as_f64().map(f64::from_bits), Some(0.5));
    assert_eq!(value.get_path("server.1").as_str(), Some("one"));
    assert!(matches!(value.get_path("server.none"), Value::Null));
}

#[test]
fn a_yaml_tag_is_dropped() {
    let value = Value::from_src("thing: !custom 5\n").ok().unwrap();
    assert_eq!(value.get_path("thing").as_u8(), Some(5));
}

#[test]
fn a_yaml_key_must_be_a_string_or_a_whole_number() {
    let r = Value::from_src("? [a, b]\n: 1\n");
    assert!(matches!(r, Err(Error::Yaml(_))));
}

#[test]
fn string_leaves_of_a_document_are_left_as_written() {
    let value = Value::from_src("{\"home\": \"${HOME}/x\", \"e\": \"\\\\${HOME}\"}").ok().unwrap();
    assert_eq!(value.get_path("home").as_str(), Some("${HOME}/x"));
    assert_eq!(value.get_path("e").as_str(), Some("\\${HOME}"));
}

#[test]
fn a_malformed_document_fails_as_its_format() {
    assert!(matches!(Value::from_src("{\"a\": "), Err(Error::Json(_))));
    assert!(matches!(Value::from_src("[server\nport = "), Err(Error::Toml(_))));
    assert!(matches!(Value::from_src("a: [1, 2"), Err(Error::Yaml(_))));
}
