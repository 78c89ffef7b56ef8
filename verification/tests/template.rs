use unison::template::{expand_pass, expand_text, referenced_files, Sources, CEILING};
use unison::value::{Table, Value};

fn sources(env: &[(&str, &str)], files: &[(&str, &str)]) -> Sources {
    Sources {
        env: env.iter().map(|(k, v)| (k.to_string(), v.to_string())).collect(),
        files: files.iter().map(|(k, v)| (k.to_string(), v.to_string())).collect(),
    }
}

#[test]
fn plain_text_is_left_alone() {
    let s = sources(&[], &[]);
    assert_eq!(expand_text("", &s), "");
    assert_eq!(expand_text("hello world", &s), "hello world");
    assert_eq!(expand_text("a{b}(c)", &s), "a{b}(c)");
}

#[test]
fn environment_variables_are_substituted() {
    let s = sources(&[("HOME", "/home/me"), ("USER", "me")], &[]);
    assert_eq!(expand_text("${HOME}/bin", &s), "/home/me/bin");
    assert_eq!(expand_text("${USER}@${HOME}", &s), "me@/home/me");
    assert_eq!(expand_text("x${USER}", &s), "xme");
}

#[test]
fn an_unresolved_name_gives_the_empty_string() {
    let s = sources(&[("A", "1")], &[]);
    assert_eq!(expand_text("a${MISSING}b", &s), "ab");
    assert_eq!(expand_text("a${}b", &s), "ab");
    assert_eq!(expand_text("a$(/no/such/file)b", &s), "ab");
}

#[test]
fn the_first_entry_for_a_name_counts() {
    let s = sources(&[("A", "first"), ("A", "second")], &[]);
    assert_eq!(expand_text("${A}", &s), "first");
}

#[test]
fn files_are_substituted_verbatim() {
    let s = sources(&[], &[("/etc/motd", "line one\nline two\n")]);
    assert_eq!(expand_text("[$(/etc/motd)]", &s), "[line one\nline two\n]");
}

#[test]
fn a_backslash_escapes() {
    let s = sources(&[("A", "1")], &[]);
    assert_eq!(expand_text("\\${A}", &s), "${A}");
    assert_eq!(expand_text("a\\\\b", &s), "a\\b");
    assert_eq!(expand_text("cost: \\$5", &s), "cost: $5");
    assert_eq!(expand_text("a\\nb", &s), "ab");
    assert_eq!(expand_text("trailing\\", &s), "trailing");
}

#[test]
fn a_dollar_without_a_bracket_is_plain_text() {
    let s = sources(&[("A", "1")], &[]);
    assert_eq!(expand_text("$", &s), "$");
    assert_eq!(expand_text("$5", &s), "$5");
    assert_eq!(expand_text("a$", &s), "a$");
    assert_eq!(expand_text("$$", &s), "$$");
    assert_eq!(expand_text("$${A}", &s), "$1");
    assert_eq!(expand_text("$\\$", &s), "$$");
}

#[test]
fn an_unterminated_variable_is_emitted_as_written() {
    let s = sources(&[("A", "1")], &[]);
    assert_eq!(expand_text("${A", &s), "${A");
    assert_eq!(expand_text("x$(path", &s), "x$(path");
    assert_eq!(expand_text("${", &s), "${");
}

#[test]
fn a_replacement_is_expanded_again() {
    let s = sources(&[("A", "${B}/a"), ("B", "$(f)"), ("C", "no more")], &[("f", "${C}")]);
    assert_eq!(expand_text("${A}", &s), "no more/a");
}

#[test]
fn one_pass_reports_whether_it_substituted() {
    let s = sources(&[("A", "${B}")], &[]);
    let text: Vec<char> = "x${A}".chars().collect();
    let (out, used) = expand_pass(&text, &s);
    assert_eq!(out.iter().collect::<String>(), "x${B}");
    assert!(used);
    let (out, used) = expand_pass(&"plain \\$".chars().collect(), &s);
    assert_eq!(out.iter().collect::<String>(), "plain $");
    assert!(!used);
}

#[test]
fn self_referential_expansion_stops_at_the_ceiling() {
    let s = sources(&[("A", "${A}")], &[]);
    assert_eq!(CEILING, 10000);
    assert_eq!(expand_text("${A}", &s), "${A}");
    let s = sources(&[("A", "${B}"), ("B", "${A}")], &[]);
    assert_eq!(expand_text("<${A}>", &s), "<${A}>");
}

#[test]
fn eval_expands_string_leaves_through_maps_and_lists() {
    let s = sources(&[("PORT", "8000")], &[]);
    let mut server = Table::new();
    server.insert("port".to_string(), Value::String("${PORT}".into()));
    server.insert("n".to_string(), Value::Integer(1));
    let mut root = Table::new();
    root.insert("server".to_string(), Value::Object(server));
    root.insert(
        "list".to_string(),
        Value::List(vec![Value::String("a${PORT}".into()), Value::Null]),
    );
    root.insert(
        "secret".to_string(),
        Value::secret(Value::String("${PORT}".into())).ok().unwrap(),
    );
    let mut value = Value::Object(root);
    value.eval(&s);
    assert_eq!(value.get_path("server.port").as_str(), Some("8000"));
    assert_eq!(value.get_path("server.n").as_i64(), Some(1));
    assert_eq!(value.get_path("list.0").as_str(), Some("a8000"));
    assert!(matches!(value.get_path("list.1"), Value::Null));
    let held = value.get_path("secret").as_secret().unwrap();
    assert_eq!(held.value().as_str(), Some("${PORT}"));
}

#[test]
fn referenced_files_lists_what_a_pass_reads() {
    assert_eq!(referenced_files("$(a) ${b} $(c/d)"), vec!["a".to_string(), "c/d".to_string()]);
    assert!(referenced_files("\\$(a) $(open").is_empty());
    assert_eq!(referenced_files("$()"), vec![String::new()]);
}
