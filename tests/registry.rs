use superv::args::split_args;
use superv::config::{decls_from_document, load_registry};
use superv::process::{ConfigError, Field, FieldValue, ProcessDecl, StreamTarget};
use superv::registry::{build_registry, lookup_field, process_from_decl, target_of_text, text_eq};

fn text(s: &str) -> FieldValue {
    FieldValue::Text(s.to_string())
}

fn decl(name: &str, fields: Vec<(&str, FieldValue)>) -> ProcessDecl {
    ProcessDecl {
        name: name.to_string(),
        fields: fields.into_iter().map(|(k, v)| (k.to_string(), v)).collect(),
    }
}

fn strings(v: &[&str]) -> Vec<String> {
    v.iter().map(|s| s.to_string()).collect()
}

#[test]
fn echo_entry_gives_split_args_and_delay() {
    let d = decl(
        "echo",
        vec![("path", text("/bin/echo")), ("args", text("hello world")), ("restart_delay", FieldValue::Integer(500))],
    );
    let p = process_from_decl(&d).unwrap();
    assert_eq!(p.name, "echo");
    assert_eq!(p.path, "/bin/echo");
    assert_eq!(p.args, strings(&["hello", "world"]));
    assert_eq!(p.restart_delay, 500);
    assert_eq!(p.cwd, None);
    assert_eq!(p.stdout_target, StreamTarget::Discard);
    assert_eq!(p.stderr_target, StreamTarget::Discard);
}

#[test]
fn defaults_apply_when_fields_are_absent() {
    let p = process_from_decl(&decl("a", vec![("path", text("/bin/true"))])).unwrap();
    assert!(p.args.is_empty());
    assert_eq!(p.restart_delay, 0);
    assert_eq!(p.cwd, None);
    assert_eq!(p.stdout_target, StreamTarget::Discard);
    assert_eq!(p.stderr_target, StreamTarget::Discard);
}

#[test]
fn declared_cwd_and_targets_are_kept() {
    let d = decl(
        "svc",
        vec![
            ("path", text("/usr/bin/svc")),
            ("cwd", text("/srv")),
            ("stdout", text("/var/log/svc.out")),
            ("stderr", text("/dev/null")),
        ],
    );
    let p = process_from_decl(&d).unwrap();
    assert_eq!(p.cwd, Some("/srv".to_string()));
    assert_eq!(p.stdout_target, StreamTarget::Append("/var/log/svc.out".to_string()));
    assert_eq!(p.stderr_target, StreamTarget::Discard);
}

#[test]
fn registry_has_one_record_per_declaration_in_order() {
    let ds = vec![
        decl("b", vec![("path", text("/bin/b"))]),
        decl("a", vec![("path", text("/bin/a")), ("restart_delay", FieldValue::Integer(7))]),
        decl("c", vec![("path", text("/bin/c")), ("args", text("-x"))]),
    ];
    let ps = build_registry(&ds).unwrap();
    assert_eq!(ps.len(), 3);
    assert_eq!(ps[0].name, "b");
    assert_eq!(ps[1].name, "a");
    assert_eq!(ps[1].restart_delay, 7);
    assert_eq!(ps[2].args, strings(&["-x"]));
}

#[test]
fn empty_registry_is_valid() {
    assert_eq!(build_registry(&Vec::new()).unwrap().len(), 0);
}

#[test]
fn missing_path_is_reported_whatever_else_is_there() {
    let d = decl(
        "nopath",
        vec![("args", text("x y")), ("restart_delay", text("soon")), ("cwd", FieldValue::Other)],
    );
    assert_eq!(
        process_from_decl(&d),
        Err(ConfigError::MissingRequiredField { process: "nopath".to_string(), field: Field::Path })
    );
}

#[test]
fn missing_path_wins_over_other_errors_in_the_registry() {
    let ds = vec![
        decl("bad", vec![("path", text("/bin/x")), ("restart_delay", text("later"))]),
        decl("dup", vec![("path", text("/bin/x"))]),
        decl("dup", vec![("path", text("/bin/y"))]),
        decl("nopath", vec![("stdout", text("out.log"))]),
    ];
    assert_eq!(
        build_registry(&ds),
        Err(ConfigError::MissingRequiredField { process: "nopath".to_string(), field: Field::Path })
    );
}

#[test]
fn restart_delay_of_wrong_shape_is_malformed() {
    let d = decl("a", vec![("path", text("/bin/a")), ("restart_delay", text("500"))]);
    assert_eq!(
        process_from_decl(&d),
        Err(ConfigError::MalformedField { process: "a".to_string(), field: Field::RestartDelay })
    );
}

#[test]
fn negative_restart_delay_is_malformed() {
    let d = decl("a", vec![("path", text("/bin/a")), ("restart_delay", FieldValue::Integer(-1))]);
    assert_eq!(
        process_from_decl(&d),
        Err(ConfigError::MalformedField { process: "a".to_string(), field: Field::RestartDelay })
    );
}

#[test]
fn path_of_wrong_shape_or_empty_is_malformed() {
    let d = decl("a", vec![("path", FieldValue::Integer(3))]);
    assert_eq!(
        process_from_decl(&d),
        Err(ConfigError::MalformedField { process: "a".to_string(), field: Field::Path })
    );
    let d = decl("a", vec![("path", text(""))]);
    assert_eq!(
        process_from_decl(&d),
        Err(ConfigError::MalformedField { process: "a".to_string(), field: Field::Path })
    );
}

#[test]
fn other_fields_of_wrong_shape_are_malformed() {
    for (key, field) in [("args", Field::Args), ("cwd", Field::Cwd), ("stdout", Field::Stdout), ("stderr", Field::Stderr)] {
        let d = decl("a", vec![("path", text("/bin/a")), (key, FieldValue::Integer(1))]);
        assert_eq!(
            process_from_decl(&d),
            Err(ConfigError::MalformedField { process: "a".to_string(), field })
        );
    }
}

#[test]
fn empty_name_is_malformed() {
    let d = decl("", vec![("path", text("/bin/a"))]);
    assert_eq!(
        process_from_decl(&d),
        Err(ConfigError::MalformedField { process: String::new(), field: Field::Name })
    );
}

#[test]
fn repeated_name_is_refused() {
    let ds = vec![
        decl("a", vec![("path", text("/bin/a"))]),
        decl("b", vec![("path", text("/bin/b"))]),
        decl("a", vec![("path", text("/bin/c"))]),
    ];
    assert_eq!(build_registry(&ds), Err(ConfigError::DuplicateName { process: "a".to_string() }));
}

#[test]
fn first_invalid_declaration_is_reported() {
    let ds = vec![
        decl("a", vec![("path", text("/bin/a"))]),
        decl("b", vec![("path", text("/bin/b")), ("args", FieldValue::Other)]),
        decl("c", vec![("path", text("/bin/c")), ("cwd", FieldValue::Other)]),
    ];
    assert_eq!(
        build_registry(&ds),
        Err(ConfigError::MalformedField { process: "b".to_string(), field: Field::Args })
    );
}

#[test]
fn first_field_of_a_name_counts() {
    let fields = vec![("k".to_string(), FieldValue::Integer(1)), ("k".to_string(), FieldValue::Integer(2))];
    assert_eq!(lookup_field(&fields, "k"), Some(&FieldValue::Integer(1)));
    assert_eq!(lookup_field(&fields, "j"), None);
}

#[test]
fn split_three_tokens() {
    assert_eq!(split_args("a b c"), strings(&["a", "b", "c"]));
}

#[test]
fn split_empty_text_gives_no_argument() {
    assert!(split_args("").is_empty());
}

#[test]
fn split_keeps_empty_pieces_between_double_spaces() {
    assert_eq!(split_args("a  b"), strings(&["a", "", "b"]));
    assert_eq!(split_args(" "), strings(&["", ""]));
    assert_eq!(split_args("single"), strings(&["single"]));
}

#[test]
fn split_of_joined_tokens_is_the_tokens() {
    let ts = strings(&["-v", "--level=3", "x"]);
    assert_eq!(split_args(&ts.join(" ")), ts);
}

#[test]
fn texts_compare_by_characters() {
    assert!(text_eq("abc", "abc"));
    assert!(!text_eq("abc", "abd"));
    assert!(!text_eq("ab", "abc"));
    assert!(text_eq("", ""));
}

#[test]
fn null_device_is_the_discard_sentinel() {
    assert_eq!(target_of_text("/dev/null"), StreamTarget::Discard);
    assert_eq!(target_of_text("log.txt"), StreamTarget::Append("log.txt".to_string()));
}

#[test]
fn document_gives_the_literal_record() {
    let text = "[process.echo]\npath = \"/bin/echo\"\nargs = \"hello world\"\nrestart_delay = 500\n";
    let ps = load_registry(text).unwrap();
    assert_eq!(ps.len(), 1);
    assert_eq!(ps[0].name, "echo");
    assert_eq!(ps[0].path, "/bin/echo");
    assert_eq!(ps[0].args, strings(&["hello", "world"]));
    assert_eq!(ps[0].restart_delay, 500);
}

#[test]
fn document_with_several_processes() {
    let text = "[process.one]\npath = \"/bin/one\"\n\n[process.two]\npath = \"/bin/two\"\nstdout = \"two.log\"\ncwd = \"/tmp\"\n";
    let mut ps = load_registry(text).unwrap();
    ps.sort_by(|a, b| a.name.cmp(&b.name));
    assert_eq!(ps.len(), 2);
    assert_eq!(ps[0].name, "one");
    assert_eq!(ps[1].name, "two");
    assert_eq!(ps[1].stdout_target, StreamTarget::Append("two.log".to_string()));
    assert_eq!(ps[1].cwd, Some("/tmp".to_string()));
}

#[test]
fn document_field_shapes_are_read() {
    let text = "[process.p]\npath = \"/bin/p\"\nrestart_delay = \"late\"\n";
    assert_eq!(
        load_registry(text),
        Err(ConfigError::MalformedField { process: "p".to_string(), field: Field::RestartDelay })
    );
    let text = "[process.p]\nargs = \"x\"\n";
    assert_eq!(
        load_registry(text),
        Err(ConfigError::MissingRequiredField { process: "p".to_string(), field: Field::Path })
    );
}

#[test]
fn invalid_document_is_malformed() {
    assert_eq!(load_registry("[process.p\npath ="), Err(ConfigError::ConfigMalformed));
}

#[test]
fn document_without_process_table_is_malformed() {
    assert_eq!(load_registry("[other]\nx = 1\n"), Err(ConfigError::ConfigMalformed));
    assert_eq!(load_registry("process = 3\n"), Err(ConfigError::ConfigMalformed));
}

#[test]
fn process_entry_that_is_not_a_table_is_malformed() {
    assert_eq!(load_registry("[process]\np = \"/bin/p\"\n"), Err(ConfigError::ConfigMalformed));
}

#[test]
fn declarations_read_from_a_parsed_table() {
    let doc: toml::Table = "[process.p]\npath = \"/bin/p\"\nrestart_delay = 9\nflag = true\n".parse().unwrap();
    let ds = decls_from_document(&doc).unwrap();
    assert_eq!(ds.len(), 1);
    assert_eq!(ds[0].name, "p");
    assert_eq!(lookup_field(&ds[0].fields, "path"), Some(&text("/bin/p")));
    assert_eq!(lookup_field(&ds[0].fields, "restart_delay"), Some(&FieldValue::Integer(9)));
    assert_eq!(lookup_field(&ds[0].fields, "flag"), Some(&FieldValue::Other));
}

#[test]
fn empty_process_table_gives_empty_registry() {
    assert_eq!(load_registry("[process]\n").unwrap().len(), 0);
}

#[test]
fn every_configured_process_gets_a_record() {
    let text = "[process.z]\npath = \"/bin/z\"\n[process.a]\npath = \"/bin/a\"\nargs = \"1 2\"\n[process.m]\npath = \"/bin/m\"\nratio = 0.5\n";
    let ps = load_registry(text).unwrap();
    let mut names: Vec<&str> = ps.iter().map(|p| p.name.as_str()).collect();
    names.sort();
    assert_eq!(names, vec!["a", "m", "z"]);
    let a = ps.iter().find(|p| p.name == "a").unwrap();
    assert_eq!(a.args, strings(&["1", "2"]));
}
