use unison::schema::{Declared, Schema, TypeTag};

#[test]
fn can_create_schema() {
    let _: Schema = Schema::new()
        .path("server.port", 3000)
        .path("server.url", "http://test.url")
        .build();
}

#[test]
fn can_get_schema_path_default_value() {
    let schema = Schema::new().path::<u32>("server.port", 3000).build();

    let default_value = schema.path_default::<u32>("server.port").unwrap();

    assert_eq!(default_value, 3000);
}

#[test]
fn can_check_schema_path_type() {
    let schema = Schema::new().path::<u32>("server.port", 3000).build();

    assert!(schema.path_is_type::<u32>("server.port"));
}

#[test]
fn schema_knows_its_paths() {
    let schema = Schema::new()
        .path("server.port", 3000)
        .path("server.url", "http://test.url")
        .build();
    assert!(schema.has_path("server.port"));
    assert!(schema.has_path("server.url"));
    assert!(!schema.has_path("server"));
    assert!(!schema.has_path("server.host"));
    assert!(schema.declared("server.port") == Some(Declared::One(TypeTag::I32)));
    assert!(schema.declared("server.url") == Some(Declared::One(TypeTag::String)));
    assert!(schema.declared("nothing").is_none());
}

#[test]
fn schema_type_check_tells_types_apart() {
    let schema = Schema::new().path::<u32>("server.port", 3000).build();
    assert!(!schema.path_is_type::<i32>("server.port"));
    assert!(!schema.path_is_type::<String>("server.port"));
    assert!(!schema.path_is_type::<u32>("server.host"));
    assert!(schema.path_default::<i32>("server.port").is_none());
    assert!(schema.path_default::<u32>("server.host").is_none());
}

#[test]
fn later_declaration_replaces_earlier() {
    let schema = Schema::new()
        .path::<u32>("server.port", 3000)
        .path::<u16>("server.port", 4000)
        .build();
    assert!(schema.path_is_type::<u16>("server.port"));
    assert_eq!(schema.path_default::<u16>("server.port"), Some(4000));
    assert!(schema.path_default::<u32>("server.port").is_none());
    let defaults = schema.defaults_tree();
    assert_eq!(defaults.get_path("server.port").as_u16(), Some(4000));
}

#[test]
fn defaults_tree_holds_every_default() {
    let schema = Schema::new()
        .path("server.port", 8000u32)
        .path("server.url", "http://test.url")
        .path("debug", false)
        .build();
    let defaults = schema.defaults_tree();
    assert_eq!(defaults.get_path("server.port").as_u32(), Some(8000));
    assert_eq!(defaults.get_path("server.url").as_str(), Some("http://test.url"));
    assert_eq!(defaults.get_path("debug").as_bool(), Some(false));
    assert!(defaults.get_path("server.host").is_none());
}
