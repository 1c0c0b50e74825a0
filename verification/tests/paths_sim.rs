use std::collections::HashMap;

use layeredconf::loader::{Action, Event, Loader};
use layeredconf::{
    Builder, Error, FieldDesc, FieldKind, Format, Partial, Shape, Slot, Source, Value,
};

/// `config` names a further file to load; `name` must end up set.
fn paths_shape() -> Shape {
    Shape {
        fields: vec![
            FieldDesc {
                name: "config".to_string(),
                kind: FieldKind::Optional,
                load_config: true,
                default: None,
            },
            FieldDesc {
                name: "name".to_string(),
                kind: FieldKind::Required,
                load_config: false,
                default: None,
            },
        ],
    }
}

fn from_yaml(v: &serde_yaml::Value) -> Value {
    match v {
        serde_yaml::Value::Null => Value::Null,
        serde_yaml::Value::Bool(b) => Value::Bool(*b),
        serde_yaml::Value::Number(n) => Value::Int(n.as_i64().expect("integer")),
        serde_yaml::Value::String(s) => Value::Str(s.clone()),
        serde_yaml::Value::Sequence(a) => Value::List(a.iter().map(from_yaml).collect()),
        serde_yaml::Value::Mapping(m) => Value::Obj(
            m.iter()
                .map(|(k, v)| {
                    (
                        k.as_str().expect("string key").to_string(),
                        from_yaml(v),
                    )
                })
                .collect(),
        ),
        serde_yaml::Value::Tagged(_) => panic!("tags are outside the test model"),
    }
}

fn from_json(v: &serde_json::Value) -> Value {
    match v {
        serde_json::Value::Null => Value::Null,
        serde_json::Value::Bool(b) => Value::Bool(*b),
        serde_json::Value::Number(n) => Value::Int(n.as_i64().expect("integer")),
        serde_json::Value::String(s) => Value::Str(s.clone()),
        serde_json::Value::Array(a) => Value::List(a.iter().map(from_json).collect()),
        serde_json::Value::Object(m) => {
            Value::Obj(m.iter().map(|(k, v)| (k.clone(), from_json(v))).collect())
        }
    }
}

fn parse_args_with_clap(shape: &Shape, args: &[String]) -> Partial {
    let mut cmd = clap::Command::new("layeredconf").no_binary_name(false);
    for f in &shape.fields {
        if let FieldKind::Sub(_) = f.kind {
            continue;
        }
        let flag: &'static str = Box::leak(f.name.clone().into_boxed_str());
        cmd = cmd.arg(
            clap::Arg::new(flag)
                .long(flag)
                .action(clap::ArgAction::Set)
                .required(false),
        );
    }
    let matches = cmd.get_matches_from(args.iter());
    let mut p = shape.skeleton();
    for (i, f) in shape.fields.iter().enumerate() {
        if let FieldKind::Sub(_) = f.kind {
            continue;
        }
        if let Some(val) = matches.get_one::<String>(&f.name) {
            p.slots[i] = Slot::Scalar(Value::Str(val.clone()));
        }
    }
    p
}

/// A canonical path in the simulated filesystem: `.` segments collapsed.
fn normalize(p: &str) -> String {
    p.replace("/./", "/")
}

/// Drives a pass against a simulated filesystem mapping canonical paths to
/// file contents.
fn run_fs_pass(
    builder: Builder,
    shape: &Shape,
    cwd: &str,
    fs: &HashMap<String, String>,
) -> (Builder, Result<(), Error>) {
    let mut loader = Loader::new(builder, cwd.to_string());
    loop {
        match loader.next_action() {
            Action::Done => return loader.finish(),
            Action::Canonicalize { path } => {
                let norm = normalize(&path);
                if fs.contains_key(&norm) {
                    loader.step(Event::Canonicalized { path: norm });
                } else {
                    loader.step(Event::CanonicalizeNotFound);
                }
            }
            Action::ReadFile { path } => match fs.get(&path) {
                Some(text) => loader.step(Event::FileRead { text: text.clone() }),
                None => loader.step(Event::FileReadNotFound),
            },
            Action::Parse { format, text } => match format {
                Format::Yaml => match serde_yaml::from_str::<serde_yaml::Value>(&text) {
                    Ok(v) => loader.step(Event::Parsed { tree: from_yaml(&v) }),
                    Err(e) => loader.step(Event::ParseFailed { message: e.to_string() }),
                },
                Format::Json => match serde_json::from_str::<serde_json::Value>(&text) {
                    Ok(v) => loader.step(Event::Parsed { tree: from_json(&v) }),
                    Err(e) => loader.step(Event::ParseFailed { message: e.to_string() }),
                },
                _ => panic!("unexpected parse format"),
            },
            Action::ParseArguments => panic!("process arguments are not used here"),
            Action::ParseArgumentsFrom { args } => {
                let p = parse_args_with_clap(shape, &args);
                loader.step(Event::ArgumentsParsed { layer: p });
            }
        }
    }
}

fn name_of(solid: &Partial) -> String {
    match &solid.slots[1] {
        Slot::Scalar(Value::Str(s)) => s.clone(),
        other => panic!("expected name to be a string: {:?}", other),
    }
}

#[test]
fn paths_test() {
    let mut fs = HashMap::new();
    fs.insert(
        "/proj/tests/paths/config.yaml".to_string(),
        "name: base\n".to_string(),
    );
    fs.insert(
        "/proj/tests/paths/arg/config.yaml".to_string(),
        "name: paths/arg/config.yaml\n".to_string(),
    );

    let args: Vec<String> = vec!["paths", "--config", "/proj/tests/paths/arg/config.yaml"]
        .iter()
        .map(|s| s.to_string())
        .collect();

    let shape = paths_shape();
    let mut builder = Builder::new(paths_shape());
    builder.new_layer(Source::File {
        path: "./tests/paths/config.yaml".to_string(),
        format: Format::Auto,
    });
    builder.new_layer(Source::ArgumentsFrom(args));

    let (builder, outcome) = run_fs_pass(builder, &shape, "/proj", &fs);
    outcome.unwrap();
    let solid = builder.solidify().unwrap();

    assert_eq!(name_of(&solid), "paths/arg/config.yaml");
}

#[test]
fn test_loop() {
    let mut fs = HashMap::new();
    fs.insert(
        "/proj/tests/paths/loop/config.yaml".to_string(),
        "config: other_config.yaml\nname: looping\n".to_string(),
    );
    fs.insert(
        "/proj/tests/paths/loop/other_config.yaml".to_string(),
        "config: config.yaml\n".to_string(),
    );

    let source = Source::File {
        path: "./tests/paths/loop/config.yaml".to_string(),
        format: Format::Auto,
    };

    let shape = paths_shape();
    let mut builder = Builder::new(paths_shape());
    builder.new_layer(source);

    let (_, outcome) = run_fs_pass(builder, &shape, "/proj", &fs);

    assert!(matches!(outcome, Err(Error::LoopingLoadConfig { .. })));
    if let Err(Error::LoopingLoadConfig { path, parents }) = outcome {
        assert_eq!(path, "/proj/tests/paths/loop/config.yaml");
        assert_eq!(
            parents,
            vec![
                Source::File {
                    path: "other_config.yaml".to_string(),
                    format: Format::Auto,
                },
                Source::File {
                    path: "./tests/paths/loop/config.yaml".to_string(),
                    format: Format::Auto,
                },
            ],
        );
    }
}

#[test]
fn same_path_under_two_top_layers_is_no_cycle() {
    let mut fs = HashMap::new();
    fs.insert("/proj/a.yaml".to_string(), "name: A\n".to_string());

    let shape = paths_shape();
    let mut builder = Builder::new(paths_shape());
    builder.new_layer(Source::File { path: "/proj/a.yaml".to_string(), format: Format::Auto });
    builder.new_layer(Source::File { path: "/proj/a.yaml".to_string(), format: Format::Auto });

    let (builder, outcome) = run_fs_pass(builder, &shape, "/proj", &fs);
    outcome.unwrap();
    let solid = builder.solidify().unwrap();
    assert_eq!(name_of(&solid), "A");
}

#[test]
fn optional_file_missing_contributes_nothing() {
    let fs = HashMap::new();

    let shape = paths_shape();
    let mut builder = Builder::new(paths_shape());
    builder.new_layer(Source::FileOptional {
        path: "/proj/nope.yaml".to_string(),
        format: Format::Auto,
    });
    builder.new_layer(Source::StringLiteral {
        content: r#"{"name": "fallback"}"#.to_string(),
        format: Format::Json,
    });

    let (builder, outcome) = run_fs_pass(builder, &shape, "/proj", &fs);
    outcome.unwrap();
    let solid = builder.solidify().unwrap();
    assert_eq!(name_of(&solid), "fallback");
}

#[test]
fn required_file_missing_fails() {
    let fs = HashMap::new();

    let shape = paths_shape();
    let mut builder = Builder::new(paths_shape());
    builder.new_layer(Source::File {
        path: "/proj/nope.yaml".to_string(),
        format: Format::Auto,
    });

    let (_, outcome) = run_fs_pass(builder, &shape, "/proj", &fs);
    assert_eq!(
        outcome,
        Err(Error::FileNotFound { path: "/proj/nope.yaml".to_string() })
    );
}

#[test]
fn include_resolves_against_including_file() {
    let mut fs = HashMap::new();
    fs.insert(
        "/proj/conf/root.yaml".to_string(),
        "config: sub/inner.yaml\n".to_string(),
    );
    fs.insert(
        "/proj/conf/sub/inner.yaml".to_string(),
        "name: inner\n".to_string(),
    );

    let shape = paths_shape();
    let mut builder = Builder::new(paths_shape());
    builder.new_layer(Source::File {
        path: "conf/root.yaml".to_string(),
        format: Format::Auto,
    });

    let (builder, outcome) = run_fs_pass(builder, &shape, "/proj", &fs);
    outcome.unwrap();
    let solid = builder.solidify().unwrap();
    assert_eq!(name_of(&solid), "inner");
}

#[test]
fn discovered_include_outranks_including_file() {
    let mut fs = HashMap::new();
    fs.insert(
        "/proj/p.yaml".to_string(),
        "name: parent\nconfig: child.yaml\n".to_string(),
    );
    fs.insert("/proj/child.yaml".to_string(), "name: child\n".to_string());

    let shape = paths_shape();
    let mut builder = Builder::new(paths_shape());
    builder.new_layer(Source::File { path: "/proj/p.yaml".to_string(), format: Format::Auto });

    let (builder, outcome) = run_fs_pass(builder, &shape, "/proj", &fs);
    outcome.unwrap();
    let solid = builder.solidify().unwrap();
    assert_eq!(name_of(&solid), "child");
}

#[test]
fn unknown_extension_fails() {
    let mut fs = HashMap::new();
    fs.insert("/proj/a.txt".to_string(), "name: A\n".to_string());

    let shape = paths_shape();
    let mut builder = Builder::new(paths_shape());
    builder.new_layer(Source::File { path: "/proj/a.txt".to_string(), format: Format::Auto });

    let (_, outcome) = run_fs_pass(builder, &shape, "/proj", &fs);
    assert_eq!(
        outcome,
        Err(Error::UnknownExtension { extension: Some("txt".to_string()) })
    );
}

#[test]
fn auto_format_fails_for_string_sources() {
    let shape = paths_shape();
    let mut builder = Builder::new(paths_shape());
    builder.new_layer(Source::StringLiteral {
        content: r#"{"name": "n"}"#.to_string(),
        format: Format::Auto,
    });

    let (_, outcome) = run_fs_pass(builder, &shape, "/proj", &HashMap::new());
    assert_eq!(outcome, Err(Error::AutoFormatFailed));
}
