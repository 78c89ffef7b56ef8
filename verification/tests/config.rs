use unison::coerce::{read_declared, read_scalar, reading_candidates, Snapshot};
use unison::tags::float_payload;
use unison::config::{candidate_paths, resolve, unison, Config, DiskLoader, Inner, Layer};
use unison::error::Error;
use unison::loaders::{
    belongs, read_env, read_flag, read_flags, variable_entry, CliLoader, DiskLoaderError,
    EnvLoader, EnvLoaderError, Loader,
};
use unison::schema::{Declared, Schema, TypeTag};
use unison::template::Sources;
use unison::value::{Table, Value};

fn snapshot(args: &[&str], env: &[(&str, &str)], files: &[(&str, &str)]) -> Snapshot {
    Snapshot {
        args: args.iter().map(|a| a.to_string()).collect(),
        sources: Sources {
            env: env.iter().map(|(k, v)| (k.to_string(), v.to_string())).collect(),
            files: files.iter().map(|(k, v)| (k.to_string(), v.to_string())).collect(),
        },
        floats: vec![("1.5".to_string(), 1.5f64.to_bits()), ("2".to_string(), 2f64.to_bits())],
        home: Some("/home/me".to_string()),
        cwd: "/work/project".to_string(),
    }
}

fn layer(source: &str, path: &str, value: Value) -> Layer {
    let mut tree = Value::Object(Table::new());
    tree.set_path(path, value);
    Layer { source: source.to_string(), tree }
}

#[test]
fn the_layer_of_the_highest_precedence_decides() {
    let layers = vec![
        layer("cli", "x", Value::Integer(1)),
        layer("env", "x", Value::Integer(2)),
        layer("file", "x", Value::Integer(3)),
    ];
    assert!(*resolve(&layers, "x") == Value::Integer(1));
}

#[test]
fn a_lower_layer_decides_where_the_higher_ones_have_nothing() {
    let layers = vec![
        layer("cli", "a", Value::Integer(1)),
        layer("env", "x.y", Value::Integer(2)),
        layer("file", "x.z", Value::Integer(3)),
    ];
    assert!(*resolve(&layers, "x.z") == Value::Integer(3));
    assert!(*resolve(&layers, "x.y") == Value::Integer(2));
    assert!(matches!(resolve(&layers, "x"), Value::Object(t) if t.contains_key("y") && t.len() == 1));
    let layers = vec![
        layer("cli", "a", Value::Integer(1)),
        layer("env", "b", Value::Absent),
        layer("file", "b", Value::Null),
    ];
    assert!(*resolve(&layers, "b") == Value::Null);
}

#[test]
fn a_path_in_no_layer_is_absent() {
    let layers = vec![
        layer("cli", "a", Value::Integer(1)),
        layer("env", "b", Value::Integer(2)),
    ];
    assert!(resolve(&layers, "c").is_none());
    assert!(resolve(&layers, "a.b.c").is_none());
    assert!(resolve(&Vec::new(), "a").is_none());
}

#[test]
fn end_to_end_flag_overrides_default() {
    let schema = Schema::new().path("server.port", 8000u32).build();
    let config = Config::load("basic", schema, &snapshot(&["--server--port=9090"], &[], &[]))
        .ok()
        .unwrap();
    assert_eq!(config.get::<u32>("server.port").ok(), Some(9090));
}

#[test]
fn end_to_end_default_when_nothing_overrides() {
    let schema = Schema::new().path("server.port", 8000u32).build();
    let config = Config::load("basic", schema, &snapshot(&[], &[], &[])).ok().unwrap();
    assert_eq!(config.get::<u32>("server.port").ok(), Some(8000));
}

#[test]
fn end_to_end_environment_variable_without_schema_entry() {
    let schema = Schema::new().path("server.port", 8000u32).build();
    let config = Config::load(
        "basic",
        schema,
        &snapshot(&[], &[("BASIC__TEST__MY_KEY", "hello"), ("OTHER__X", "1")], &[]),
    )
    .ok()
    .unwrap();
    assert_eq!(config.try_get::<String>("test.my_key"), Some("hello".to_string()));
    assert_eq!(config.try_get::<String>("x"), None);
}

#[test]
fn the_prefix_of_a_variable_matches_whatever_the_case() {
    let vars = vec![
        ("basic__Test__My_Key".to_string(), "a".to_string()),
        ("BASIC_X".to_string(), "b".to_string()),
        ("BASIC__".to_string(), "c".to_string()),
        ("XBASIC__Y".to_string(), "d".to_string()),
    ];
    let entries = read_env("Basic", &vars);
    assert_eq!(entries.len(), 2);
    assert_eq!(entries[0].path, "test.my_key");
    assert_eq!(entries[0].raw, Some("a".to_string()));
    assert_eq!(entries[1].path, "");
    assert_eq!(entries[1].raw, Some("c".to_string()));
}

#[test]
fn flags_name_paths() {
    let args: Vec<String> = ["--server--port=9090", "--log-level--max-size=1=2", "--verbose", "-x", "plain", "--a---b"]
        .iter()
        .map(|a| a.to_string())
        .collect();
    let entries = read_flags(&args, &None, false);
    assert_eq!(entries.len(), 4);
    assert_eq!(entries[0].path, "server.port");
    assert_eq!(entries[0].raw, Some("9090".to_string()));
    assert_eq!(entries[1].path, "log_level.max_size");
    assert_eq!(entries[1].raw, Some("1=2".to_string()));
    assert_eq!(entries[2].path, "verbose");
    assert_eq!(entries[2].raw, None);
    assert_eq!(entries[3].path, "a._b");
    let valued = read_flags(&args, &None, true);
    assert_eq!(valued.len(), 2);
}

#[test]
fn a_filter_restricts_the_flags() {
    let schema = Schema::new()
        .path("App.port", 1u16)
        .path("port", 2u16)
        .build();
    let snap = snapshot(&["--App--port=10", "--port=20"], &[], &[]);
    let filtered = CliLoader::with_suffix("--APP").read(&schema, &snap).ok().unwrap();
    assert_eq!(filtered.get_path("App.port").as_u16(), Some(10));
    assert!(filtered.get_path("port").is_none());
    let all = CliLoader::new().read(&schema, &snap).ok().unwrap();
    assert_eq!(all.get_path("App.port").as_u16(), Some(10));
    assert_eq!(all.get_path("port").as_u16(), Some(20));
    let entry = read_flag("--App--port=10", "--app--port=10", &Some("--app".to_string()), false);
    assert!(matches!(entry, Some(e) if e.path == "App.port" && e.raw == Some("10".to_string())));
    assert!(read_flag("--App--port=10", "--App--port=10", &Some("--app".to_string()), false).is_none());
    assert!(belongs("BASIC__", &Some("BASIC__".to_string())));
    assert!(!belongs("BASIC__", &Some("basic__".to_string())));
    assert!(!belongs("BASIC__", &None));
    let entry = variable_entry(&vec!["test".to_string(), "my_key".to_string()], "hello");
    assert!(entry.path == "test.my_key" && entry.raw == Some("hello".to_string()));
}

#[test]
fn flags_for_undeclared_paths_are_accepted_as_they_are() {
    let schema = Schema::new().path("port", 2u16).build();
    let snap = snapshot(&["--foo--bar=baz", "--port=3", "--n=int:7"], &[], &[]);
    let mut loader = CliLoader::new();
    let tree = loader.collect("basic", &schema, &snap).ok().unwrap();
    assert_eq!(tree.get_path("foo.bar").as_str(), Some("baz"));
    assert_eq!(tree.get_path("port").as_u16(), Some(3));
    assert!(*tree.get_path("n") == Value::Integer(7));
    let empty = Schema::new().build();
    let tree = CliLoader::new().read(&empty, &snap).ok().unwrap();
    assert_eq!(tree.get_path("foo.bar").as_str(), Some("baz"));
    assert_eq!(tree.get_path("port").as_str(), Some("3"));
    let bad = CliLoader::new().read(&empty, &snapshot(&["--other=int:x"], &[], &[]));
    assert!(matches!(bad, Err(Error::TagExpansion(t)) if t == "int:x"));
}

#[test]
fn a_token_of_the_wrong_type_fails_with_its_path_and_type() {
    let schema = Schema::new().path("server.port", 8000u32).build();
    let snap = snapshot(&["--server--port=abc"], &[], &[]);
    let r = CliLoader::new().collect("basic", &schema, &snap);
    assert!(matches!(r, Err(Error::TypeCoercion { path, target })
        if path == "server.port" && target == Declared::One(TypeTag::U32)));
    let schema = Schema::new().path("server.port", 8000u32).build();
    let r = Config::load("basic", schema, &snap);
    assert!(matches!(r, Err(Error::TypeCoercion { path, target })
        if path == "server.port" && target == Declared::One(TypeTag::U32)));
}

#[test]
fn escapes_in_a_file_are_read_once() {
    let schema = Schema::new().build();
    let files = [("/etc/basicrc", "{\"a\": \"\\\\${HOME}\", \"b\": \"${HOME}\"}")];
    let snap = snapshot(&[], &[("HOME", "/h")], &files);
    let config = Config::load("basic", schema, &snap).ok().unwrap();
    assert_eq!(config.try_get::<String>("a"), Some("${HOME}".to_string()));
    assert_eq!(config.try_get::<String>("b"), Some("/h".to_string()));
}

#[test]
fn no_place_is_looked_at_twice() {
    let paths = candidate_paths("app", &Some("/h".to_string()), "/h");
    assert_eq!(
        paths,
        vec![
            "/h/.apprc",
            "/h/.app/config",
            "/h/.config/app",
            "/h/.config/app/config",
            "/etc/apprc",
            "/etc/app/config",
            "/usr/local/etc/apprc",
            "/usr/local/etc/app/config",
            "/.apprc",
        ]
    );
    let paths = candidate_paths("app", &Some("/h".to_string()), "/h/work");
    assert_eq!(paths.len(), 10);
    assert_eq!(paths[8], "/h/work/.apprc");
    assert_eq!(paths[9], "/.apprc");
    let files = [("/h/.basicrc", "{\"a\": 1}")];
    let mut snap = snapshot(&[], &[], &files);
    snap.home = Some("/h".to_string());
    snap.cwd = "/h".to_string();
    let inner = Inner::load("basic", &snap).ok().unwrap();
    assert_eq!(inner.config_files.len(), 1);
}

#[test]
fn a_flag_without_a_value_is_true_on_a_boolean_path() {
    let schema = Schema::new().path("verbose", false).path("name", "x").build();
    let snap = snapshot(&["--verbose", "--name"], &[], &[]);
    let tree = CliLoader::new().read(&schema, &snap).ok().unwrap();
    assert_eq!(tree.get_path("verbose").as_bool(), Some(true));
    assert_eq!(tree.get_path("name").as_str(), Some(""));
    let schema = Schema::new().path("port", 1u8).build();
    let r = CliLoader::new().read(&schema, &snapshot(&["--port"], &[], &[]));
    assert!(matches!(r, Err(Error::TypeCoercion { path, target })
        if path == "port" && target == Declared::One(TypeTag::U8)));
}

#[test]
fn tokens_are_read_as_the_declared_type() {
    let schema = Schema::new()
        .path("port", 1u8)
        .path("offset", 1i16)
        .path("flag", true)
        .path("name", "n")
        .build();
    let snap = snapshot(&[], &[], &[]);
    let read = |raw: &str, path: &str| {
        Value::from_raw_with_schema_and_path(Some(raw.to_string()), path, &schema, &snap)
    };
    assert!(read("255", "port").ok().unwrap() == Value::Integer(255));
    assert!(read("+5", "port").ok().unwrap() == Value::Integer(5));
    assert!(matches!(read("256", "port"), Err(Error::TypeCoercion { path, target })
        if path == "port" && target == Declared::One(TypeTag::U8)));
    assert!(matches!(read("-0", "port"), Err(Error::TypeCoercion { .. })));
    assert!(matches!(read("abc", "port"), Err(Error::TypeCoercion { .. })));
    assert!(read("-32768", "offset").ok().unwrap() == Value::Integer(-32768));
    assert!(matches!(read("-32769", "offset"), Err(Error::TypeCoercion { .. })));
    assert!(read("false", "flag").ok().unwrap() == Value::Bool(false));
    assert!(matches!(read("no", "flag"), Err(Error::TypeCoercion { .. })));
    assert!(read("8000", "name").ok().unwrap() == Value::String("8000".into()));
    assert!(read("anything", "undeclared").ok().unwrap() == Value::String("anything".into()));
}

#[test]
fn an_underscore_unsets_whatever_is_declared() {
    let schema = Schema::new().path("port", 1u8).build();
    let snap = snapshot(&[], &[], &[]);
    let v = Value::from_raw_with_schema_and_path(Some("_".to_string()), "port", &schema, &snap);
    assert!(v.ok().unwrap().is_none());
    let v = Value::from_raw_with_schema_and_path(Some("_".to_string()), "other", &schema, &snap);
    assert!(v.ok().unwrap().is_none());
}

#[test]
fn a_tag_overrides_the_declared_type() {
    let schema = Schema::new().path("port", 1u8).path("name", "n").build();
    let snap = snapshot(&[], &[], &[]);
    let read = |raw: &str, path: &str| {
        Value::from_raw_with_schema_and_path(Some(raw.to_string()), path, &schema, &snap)
    };
    assert!(read("int:70000", "port").ok().unwrap() == Value::Integer(70000));
    assert!(read("bool:true", "name").ok().unwrap() == Value::Bool(true));
    assert!(matches!(read("int:x", "port"), Err(Error::TagExpansion(t)) if t == "int:x"));
    let sealed = read("secret:7", "port").ok().unwrap();
    assert!(*sealed.as_secret().unwrap().value() == Value::Integer(7));
    assert!(matches!(read("secret:x", "port"), Err(Error::TypeCoercion { .. })));
    assert!(matches!(read("secret:secret:7", "port"), Err(Error::TagExpansion(_))));
    let doc = read("map:{\"a\": [1, 2]}", "name").ok().unwrap();
    assert_eq!(doc.get_path("a.1").as_u8(), Some(2));
    assert!(matches!(read("map:{\"a\": ", "name"), Err(Error::Json(_))));
    assert!(read("float:1.5", "name").ok().unwrap() == Value::Float(1.5f64.to_bits()));
    assert!(matches!(read("float:1.25", "name"), Err(Error::TagExpansion(_))));
}

#[test]
fn scalars_and_collections_are_read() {
    assert_eq!(float_payload("float:x"), "x");
    assert_eq!(
        reading_candidates("secret:a=1.5,2"),
        vec!["a=1.5,2", "a=1.5", "2", "1.5", ""]
    );
    assert!(read_scalar("12", TypeTag::U64, None).unwrap() == Value::Integer(12));
    assert!(read_scalar("x", TypeTag::Double, Some(3)).unwrap() == Value::Float(3));
    assert!(read_scalar("x", TypeTag::Single, None).is_none());
    let floats = vec![("1.5".to_string(), 1.5f64.to_bits())];
    let list = read_declared("1,2,3", Declared::ListOf(TypeTag::U8), &floats).unwrap();
    assert!(list == Value::List(vec![Value::Integer(1), Value::Integer(2), Value::Integer(3)]));
    assert!(read_declared("", Declared::ListOf(TypeTag::U8), &floats).unwrap() == Value::List(vec![]));
    assert!(read_declared("1,,3", Declared::ListOf(TypeTag::U8), &floats).is_none());
    assert!(read_declared("1,,3", Declared::ListOf(TypeTag::String), &floats).is_some());
    let doubles = read_declared("1.5,1.5", Declared::ListOf(TypeTag::Double), &floats).unwrap();
    assert!(matches!(doubles, Value::List(v) if v.len() == 2));
    assert!(read_declared("1.5,2.5", Declared::ListOf(TypeTag::Double), &floats).is_none());
    let map = read_declared("a=1,b=2,a=3", Declared::MapOf(TypeTag::I32), &floats).unwrap();
    assert_eq!(map.get_path("a").as_i32(), Some(3));
    assert_eq!(map.get_path("b").as_i32(), Some(2));
    assert!(matches!(&map, Value::Object(t) if t.len() == 2));
    assert!(read_declared("a=1,b", Declared::MapOf(TypeTag::I32), &floats).is_none());
    assert!(read_declared("a=x", Declared::MapOf(TypeTag::I32), &floats).is_none());
    let texts = read_declared("k=v=w", Declared::MapOf(TypeTag::String), &floats).unwrap();
    assert_eq!(texts.get_path("k").as_str(), Some("v=w"));
    assert!(read_declared("", Declared::MapOf(TypeTag::I32), &floats).unwrap() == Value::Object(Table::new()));
    assert!(read_declared("1.5", Declared::One(TypeTag::Double), &floats).unwrap()
        == Value::Float(1.5f64.to_bits()));
}

#[test]
fn files_are_looked_for_in_the_order_of_their_places() {
    let paths = candidate_paths("app", &Some("/home/me".to_string()), "/work/project");
    assert_eq!(
        paths,
        vec![
            "/home/me/.apprc",
            "/home/me/.app/config",
            "/home/me/.config/app",
            "/home/me/.config/app/config",
            "/etc/apprc",
            "/etc/app/config",
            "/usr/local/etc/apprc",
            "/usr/local/etc/app/config",
            "/work/project/.apprc",
            "/work/.apprc",
            "/.apprc",
        ]
    );
    let paths = candidate_paths("app", &None, "/");
    assert_eq!(paths.len(), 5);
    assert_eq!(paths[4], "/.apprc");
    let paths = candidate_paths("app", &Some("/root/".to_string()), "/a/");
    assert_eq!(paths[0], "/root/.apprc");
    assert_eq!(paths[8..], ["/a/.apprc".to_string(), "/.apprc".to_string()]);
}

#[test]
fn files_are_layers_below_the_environment() {
    let schema = Schema::new().path("server.port", 8000u32).path("server.host", "h").build();
    let files = [
        ("/home/me/.config/basic", "{\"server\": {\"port\": 1, \"name\": \"home\"}}"),
        ("/work/.basicrc", "[server]\nport = 2\nname = \"work\"\nextra = true\n"),
        ("/elsewhere/.basicrc", "{\"server\": {\"port\": 3}}"),
    ];
    let snap = snapshot(&[], &[("BASIC__SERVER__HOST", "envhost")], &files);
    let config = Config::load("basic", schema, &snap).ok().unwrap();
    assert_eq!(config.get::<u32>("server.port").ok(), Some(1));
    assert_eq!(config.get::<String>("server.host").ok(), Some("envhost".to_string()));
    assert_eq!(config.get_from_config("server.port").as_u8(), Some(1));
    assert_eq!(config.get_from_config("server.extra").as_bool(), Some(true));
    assert!(config.get_from_config("server.host").is_none());
    assert_eq!(config.get_from_config_at_path("/work/.basicrc", "server.port").as_u8(), Some(2));
    assert!(config.get_from_config_at_path("/elsewhere/.basicrc", "server.port").is_none());
    assert_eq!(config.get_from_env("server.host").as_str(), Some("envhost"));
    assert!(config.get_from_flag("server.host").is_none());
    assert_eq!(config.lookup("server.name").as_str(), Some("home"));
    assert!(matches!(config.lookup("server"), Value::Object(_)));
}

#[test]
fn a_malformed_file_fails_the_whole_load() {
    let schema = Schema::new().path("server.port", 8000u32).build();
    let snap = snapshot(&[], &[], &[("/etc/basicrc", "{\"server\": ")]);
    assert!(matches!(Config::load("basic", schema, &snap), Err(Error::Json(_))));
    let schema = Schema::new().path("server.port", 8000u32).build();
    let snap = snapshot(&["--server--port=x"], &[], &[]);
    assert!(matches!(Config::load("basic", schema, &snap), Err(Error::TypeCoercion { .. })));
}

#[test]
fn set_needs_a_loaded_configuration() {
    let mut config = Config::new("basic");
    assert!(matches!(config.set("a", 1u8), Err(Error::NotInitialized)));
    assert!(matches!(config.get::<u8>("a"), Err(Error::NotInitialized)));
    assert_eq!(config.try_get::<u8>("a"), None);
    assert!(config.lookup("a").is_none());
    assert!(config.get_from_flag("a").is_none());
    assert!(config.get_from_env("a").is_none());
    assert!(config.get_from_config("a").is_none());
    let mut other = unison("basic");
    assert!(matches!(other.set("a", 1u8), Err(Error::NotInitialized)));
}

#[test]
fn set_overrides_everything_but_the_flags() {
    let schema = Schema::new().path("a", 1u8).path("b", 1u8).build();
    let snap = snapshot(&["--a=2"], &[("BASIC__B", "3")], &[]);
    let mut config = Config::load("basic", schema, &snap).ok().unwrap();
    assert_eq!(config.get::<u8>("b").ok(), Some(3));
    assert!(config.set("a", 9u8).is_ok());
    assert!(config.set("b", 9u8).is_ok());
    assert!(config.set("c.d", "text").is_ok());
    assert_eq!(config.get::<u8>("a").ok(), Some(2));
    assert_eq!(config.get::<u8>("b").ok(), Some(9));
    assert_eq!(config.get::<String>("c.d").ok(), Some("text".to_string()));
    assert_eq!(config.get_from_env("b").as_u8(), Some(3));
    assert!(config.reload(&snap).is_ok());
    assert_eq!(config.get::<u8>("b").ok(), Some(3));
    assert!(matches!(config.get::<String>("c.d"), Err(Error::MissingPath(p)) if p == "c.d"));
}

#[test]
fn a_failed_reload_leaves_the_configuration_as_it_was() {
    let schema = Schema::new().path("a", 1u8).build();
    let mut config = Config::load("basic", schema, &snapshot(&["--a=2"], &[], &[])).ok().unwrap();
    assert!(config.set("z", 5u8).is_ok());
    let r = config.reload(&snapshot(&["--a=x"], &[], &[]));
    assert!(matches!(r, Err(Error::TypeCoercion { .. })));
    assert_eq!(config.get::<u8>("a").ok(), Some(2));
    assert_eq!(config.get::<u8>("z").ok(), Some(5));
}

#[test]
fn get_fails_on_what_is_missing_or_of_another_type() {
    let schema = Schema::new().path("a", 1u8).path("s", "${BASIC__NAME}!").build();
    let snap = snapshot(&["--a=200"], &[("BASIC__NAME", "n")], &[]);
    let config = Config::load("basic", schema, &snap).ok().unwrap();
    assert!(matches!(config.get::<i8>("a"), Err(Error::MissingPath(p)) if p == "a"));
    assert!(matches!(config.get::<u8>("nothing"), Err(Error::MissingPath(p)) if p == "nothing"));
    assert_eq!(config.get::<u8>("a").ok(), Some(200));
    assert_eq!(config.try_get::<String>("a"), None);
    assert_eq!(config.try_get::<String>("s"), Some("n!".to_string()));
    assert_eq!(config.lookup("s").as_str(), Some("${BASIC__NAME}!"));
}

#[test]
fn gathering_without_a_schema_reads_by_tags() {
    let snap = snapshot(
        &["--server--port=int:9090", "--name=x", "--flag"],
        &[("BASIC__A__B", "bool:true"), ("BASIC__A", "plain")],
        &[("/etc/basic/config", "a: 1\n")],
    );
    let inner = Inner::load("basic", &snap).ok().unwrap();
    assert!(*inner.cli_flags.get("server.port") == Value::Integer(9090));
    assert_eq!(inner.cli_flags.get("name").as_str(), Some("x"));
    assert!(inner.cli_flags.get("flag").is_none());
    assert_eq!(inner.env_vars.get("a").as_str(), Some("plain"));
    assert_eq!(inner.config_files.len(), 1);
    assert_eq!(inner.config_files[0].0, "/etc/basic/config");
    assert_eq!(inner.config_files[0].1.get("a").as_u8(), Some(1));
    let flags = Inner::gather_cli_flags("basic", &snapshot(&["--a=int:"], &[], &[]));
    assert!(matches!(flags, Err(Error::TagExpansion(_))));
    let env = Inner::gather_env_vars("basic", &snapshot(&[], &[("BASIC__X", "secret:secret:")], &[]));
    assert!(matches!(env, Err(Error::TagExpansion(_))));
    let files = Inner::gather_config_files("basic", &snapshot(&[], &[], &[("/.basicrc", "[x")]));
    assert!(matches!(files, Err(Error::Toml(_))));
}

#[test]
fn the_loaders_collect_their_layers() {
    let schema = Schema::new().path("a", 1u8).build();
    let snap = snapshot(
        &[],
        &[("BASIC__A", "7"), ("BASIC__FREE", "text")],
        &[
            ("/etc/basicrc", "{\"a\": 1, \"only\": {\"etc\": true}}"),
            ("/work/project/.basicrc", "{\"a\": 2, \"only\": {\"cwd\": true}}"),
        ],
    );
    let env = EnvLoader::new().collect("basic", &schema, &snap).ok().unwrap();
    assert!(*env.get_path("a") == Value::Integer(7));
    assert_eq!(env.get_path("free").as_str(), Some("text"));
    let disk = DiskLoader::new().collect("basic", &schema, &snap).ok().unwrap();
    assert_eq!(disk.get_path("a").as_u8(), Some(1));
    assert_eq!(disk.get_path("only.etc").as_bool(), Some(true));
    assert_eq!(disk.get_path("only.cwd").as_bool(), Some(true));
    let bad = EnvLoader::new().read("basic", &schema, &snapshot(&[], &[("BASIC__A", "x")], &[]));
    assert!(matches!(bad, Err(Error::TypeCoercion { .. })));
    assert_eq!(EnvLoaderError::Unknown.message(), "Unknown error");
    assert_eq!(DiskLoaderError::Unknown.message(), "Unknown error");
}
