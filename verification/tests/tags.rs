use unison::error::Error;
use unison::tags::{document_payload, float_payload};
use unison::value::Value;

fn no_document() -> Option<Result<Value, Error>> {
    None
}

#[test]
fn a_literal_without_a_tag_is_a_string() {
    let v = Value::from_parts("hello", None, no_document()).ok().unwrap();
    assert_eq!(v.as_str(), Some("hello"));
    let v = Value::from_parts("", None, no_document()).ok().unwrap();
    assert_eq!(v.as_str(), Some(""));
    let v = Value::from_parts("integer:5", None, no_document()).ok().unwrap();
    assert_eq!(v.as_str(), Some("integer:5"));
}

#[test]
fn secret_int_tag_round_trip() {
    let v = Value::from_parts("secret:int:42", None, no_document()).ok().unwrap();
    assert!(v.is_secret());
    let guard = v.as_secret().unwrap();
    assert!(*guard.value() == Value::Integer(42));
    assert_eq!(guard.value().as_i64(), Some(42));
    assert!(!v.debug_string().contains("42"));
}

#[test]
fn int_tag_forces_a_whole_number() {
    let v = Value::from_parts("int:42", None, no_document()).ok().unwrap();
    assert!(v == Value::Integer(42));
    let v = Value::from_parts("int:-7", None, no_document()).ok().unwrap();
    assert!(v == Value::Integer(-7));
    let v = Value::from_parts("int:+7", None, no_document()).ok().unwrap();
    assert!(v == Value::Integer(7));
    let v = Value::from_parts("int:9223372036854775807", None, no_document()).ok().unwrap();
    assert!(v == Value::Integer(i64::MAX as i128));
    let v = Value::from_parts("int:-9223372036854775808", None, no_document()).ok().unwrap();
    assert!(v == Value::Integer(i64::MIN as i128));
}

#[test]
fn a_malformed_int_tag_fails() {
    for text in ["int:", "int:x", "int:1.5", "int:9223372036854775808", "int: 1", "int:-", "int:1_000"] {
        let r = Value::from_parts(text, None, no_document());
        assert!(matches!(r, Err(Error::TagExpansion(t)) if t == text));
    }
}

#[test]
fn bool_tag_forces_a_truth_value() {
    let v = Value::from_parts("bool:true", None, no_document()).ok().unwrap();
    assert!(v == Value::Bool(true));
    let v = Value::from_parts("bool:false", None, no_document()).ok().unwrap();
    assert!(v == Value::Bool(false));
    for text in ["bool:", "bool:yes", "bool:TRUE", "bool:true "] {
        let r = Value::from_parts(text, None, no_document());
        assert!(matches!(r, Err(Error::TagExpansion(t)) if t == text));
    }
}

#[test]
fn float_tag_takes_the_reading_it_is_given() {
    assert_eq!(float_payload("float:1.5"), "1.5");
    assert_eq!(float_payload("secret:float:1.5"), "1.5");
    assert_eq!(float_payload("1.5"), "1.5");
    assert_eq!(float_payload("secret:2"), "2");
    let bits = 1.5f64.to_bits();
    let v = Value::from_parts("float:1.5", Some(bits), no_document()).ok().unwrap();
    assert!(v == Value::Float(bits));
    let r = Value::from_parts("float:abc", None, no_document());
    assert!(matches!(r, Err(Error::TagExpansion(t)) if t == "float:abc"));
    let v = Value::from_parts("secret:float:1.5", Some(bits), no_document()).ok().unwrap();
    assert!(*v.as_secret().unwrap().value() == Value::Float(bits));
}

#[test]
fn a_repeated_secret_tag_fails() {
    let r = Value::from_parts("secret:secret:x", None, no_document());
    assert!(matches!(r, Err(Error::TagExpansion(t)) if t == "secret:secret:x"));
    let v = Value::from_parts("secret:", None, no_document()).ok().unwrap();
    assert_eq!(v.as_secret().unwrap().value().as_str(), Some(""));
}

#[test]
fn map_tag_takes_the_document_it_is_given() {
    assert_eq!(document_payload("map:{\"a\": 1}"), Some("{\"a\": 1}".to_string()));
    assert_eq!(document_payload("secret:map:x"), Some("x".to_string()));
    assert_eq!(document_payload("x map:"), None);
    let v = Value::from_parts("map:{}", None, Some(Ok(Value::Integer(5)))).ok().unwrap();
    assert!(v == Value::Integer(5));
    let r = Value::from_parts("map:{", None, Some(Err(Error::Json("bad".to_string()))));
    assert!(matches!(r, Err(Error::Json(m)) if m == "bad"));
    let v = Value::from_parts("secret:map:{}", None, Some(Ok(Value::Integer(5)))).ok().unwrap();
    assert!(*v.as_secret().unwrap().value() == Value::Integer(5));
    let sealed = Value::secret(Value::Null).ok().unwrap();
    let r = Value::from_parts("secret:map:{}", None, Some(Ok(sealed)));
    assert!(matches!(r, Err(Error::TagExpansion(t)) if t == "secret:map:{}"));
    let r = Value::from_parts("map:{}", None, None);
    assert!(matches!(r, Err(Error::TagExpansion(t)) if t == "map:{}"));
}
