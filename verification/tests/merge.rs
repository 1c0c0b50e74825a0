use layeredconf::loader::{Action, Event, Loader};
use layeredconf::{
    Builder, Error, FieldDesc, FieldKind, Format, LayeredConfMerge, LayeredConfSolidify, Partial,
    Shape, Slot, Source, Value,
};

fn req(name: &str) -> FieldDesc {
    FieldDesc {
        name: name.to_string(),
        kind: FieldKind::Required,
        load_config: false,
        default: None,
    }
}

fn opt(name: &str) -> FieldDesc {
    FieldDesc {
        name: name.to_string(),
        kind: FieldKind::Optional,
        load_config: false,
        default: None,
    }
}

fn sub(name: &str, shape: Shape) -> FieldDesc {
    FieldDesc {
        name: name.to_string(),
        kind: FieldKind::Sub(shape),
        load_config: false,
        default: None,
    }
}

/// The shape of the test configuration: `config`, `name`, `data_path`,
/// optional `optional`, and a `subconfig` with `flibble` and `duration`.
fn config_shape() -> Shape {
    Shape {
        fields: vec![
            req("config"),
            req("name"),
            req("data_path"),
            opt("optional"),
            sub(
                "subconfig",
                Shape { fields: vec![req("flibble"), req("duration")] },
            ),
        ],
    }
}

fn from_json(v: &serde_json::Value) -> Value {
    match v {
        serde_json::Value::Null => Value::Null,
        serde_json::Value::Bool(b) => Value::Bool(*b),
        serde_json::Value::Number(n) => Value::Int(n.as_i64().expect("integer")),
        serde_json::Value::String(s) => Value::Str(s.clone()),
        serde_json::Value::Array(a) => Value::List(a.iter().map(from_json).collect()),
        serde_json::Value::Object(m) => {
            Value::Obj(m.iter().map(|(k, v)| (k.clone(), from_json(v))).collect())
        }
    }
}

fn from_toml_table(t: &toml::Table) -> Value {
    Value::Obj(t.iter().map(|(k, v)| (k.clone(), from_toml(v))).collect())
}

fn from_toml(v: &toml::Value) -> Value {
    match v {
        toml::Value::String(s) => Value::Str(s.clone()),
        toml::Value::Integer(i) => Value::Int(*i),
        toml::Value::Float(_) => panic!("floats are outside the test model"),
        toml::Value::Boolean(b) => Value::Bool(*b),
        toml::Value::Datetime(d) => Value::Str(d.to_string()),
        toml::Value::Array(a) => Value::List(a.iter().map(from_toml).collect()),
        toml::Value::Table(t) => {
            Value::Obj(t.iter().map(|(k, v)| (k.clone(), from_toml(v))).collect())
        }
    }
}

fn json_layer(shape: &Shape, text: &str) -> Partial {
    let v: serde_json::Value = serde_json::from_str(text).expect("valid json");
    Partial::from_tree(shape, &from_json(&v)).expect("fits the shape")
}

fn parse_args_with_clap(shape: &Shape, args: &[String]) -> Partial {
    let mut cmd = clap::Command::new("layeredconf").no_binary_name(false);
    for f in &shape.fields {
        if let FieldKind::Sub(_) = f.kind {
            continue;
        }
        let flag: &'static str = Box::leak(f.name.clone().into_boxed_str());
        cmd = cmd.arg(
            clap::Arg::new(flag)
                .long(flag)
                .action(clap::ArgAction::Set)
                .required(false),
        );
    }
    let matches = cmd.get_matches_from(args.iter());
    let mut p = shape.skeleton();
    for (i, f) in shape.fields.iter().enumerate() {
        if let FieldKind::Sub(_) = f.kind {
            continue;
        }
        if let Some(val) = matches.get_one::<String>(&f.name) {
            p.slots[i] = Slot::Scalar(Value::Str(val.clone()));
        }
    }
    p
}

/// Drives a pass whose layers are in-memory strings or argument lists;
/// file actions are answered as absent.
fn run_string_pass(builder: Builder, shape: &Shape) -> (Builder, Result<(), Error>) {
    let mut loader = Loader::new(builder, "/work".to_string());
    loop {
        match loader.next_action() {
            Action::Done => return loader.finish(),
            Action::Canonicalize { .. } => loader.step(Event::CanonicalizeNotFound),
            Action::ReadFile { .. } => loader.step(Event::FileReadNotFound),
            Action::Parse { format, text } => match format {
                Format::Json => match serde_json::from_str::<serde_json::Value>(&text) {
                    Ok(v) => loader.step(Event::Parsed { tree: from_json(&v) }),
                    Err(e) => loader.step(Event::ParseFailed { message: e.to_string() }),
                },
                Format::Toml => match text.parse::<toml::Table>() {
                    Ok(t) => loader.step(Event::Parsed { tree: from_toml_table(&t) }),
                    Err(e) => loader.step(Event::ParseFailed { message: e.to_string() }),
                },
                _ => panic!("unexpected parse format"),
            },
            Action::ParseArguments => panic!("process arguments are not used here"),
            Action::ParseArgumentsFrom { args } => {
                let p = parse_args_with_clap(shape, &args);
                loader.step(Event::ArgumentsParsed { layer: p });
            }
        }
    }
}

fn string_source(text: &str, format: Format) -> Source {
    Source::StringLiteral { content: text.to_string(), format }
}

static INTERMED_JSON: &str = r#"{ "config": "string", "data_path": "/tmp/path", "subconfig": { "duration": { "secs": 50, "nanos": 99 } } }"#;
static TOP_JSON: &str = r#"{ "name": "yes", "subconfig": { "flibble": 10 } }"#;

fn scalar_str(p: &Partial, i: usize) -> String {
    match &p.slots[i] {
        Slot::Scalar(Value::Str(s)) => s.clone(),
        other => panic!("expected a string at field {}: {:?}", i, other),
    }
}

fn sub_partial<'a>(p: &'a Partial, i: usize) -> &'a Partial {
    match &p.slots[i] {
        Slot::Sub(q) => q,
        other => panic!("expected a sub-configuration at field {}: {:?}", i, other),
    }
}

#[test]
fn test_deser() {
    let input = r#"
config = "Hello"
name = "World"
data_path = "/tmp/rar"
subconfig = { flibble = 1997,  duration = { secs = 10, nanos = 0 } }
"#;
    let shape = config_shape();
    let t: toml::Table = input.parse().expect("valid toml");
    let layer = Partial::from_tree(&shape, &from_toml_table(&t)).expect("fits the shape");
    let solid = layer.solidify(&shape).expect("complete");
    assert_eq!(scalar_str(&solid, 0), "Hello");
    assert_eq!(scalar_str(&solid, 1), "World");
    assert_eq!(scalar_str(&solid, 2), "/tmp/rar");
}

#[test]
fn test_merge() {
    let shape = config_shape();
    let mut base_layer = shape.skeleton();

    let mut intermediate_layer = json_layer(&shape, INTERMED_JSON);
    let top_layer = json_layer(&shape, TOP_JSON);

    intermediate_layer.merge_from(&top_layer);
    base_layer.merge_from(&intermediate_layer);

    let solid = base_layer.solidify(&shape).unwrap();
    assert_eq!(scalar_str(&solid, 0), "string");
    assert_eq!(scalar_str(&solid, 1), "yes");
    assert_eq!(scalar_str(&solid, 2), "/tmp/path");
    let sc = sub_partial(&solid, 4);
    assert_eq!(sc.slots[0], Slot::Scalar(Value::Int(10)));
    assert_eq!(
        sc.slots[1],
        Slot::Scalar(Value::Obj(vec![
            ("nanos".to_string(), Value::Int(99)),
            ("secs".to_string(), Value::Int(50)),
        ]))
    );
}

#[test]
fn test_layers() {
    let shape = config_shape();
    let mut builder = Builder::new(config_shape());
    builder.new_layer(string_source("{}", Format::Json));
    builder.new_layer(string_source(INTERMED_JSON, Format::Json));
    builder.new_layer(string_source(TOP_JSON, Format::Json));

    let (builder, outcome) = run_string_pass(builder, &shape);
    outcome.unwrap();

    let solid = builder.solidify().unwrap();
    assert_eq!(scalar_str(&solid, 0), "string");
    assert_eq!(scalar_str(&solid, 1), "yes");
    assert_eq!(scalar_str(&solid, 2), "/tmp/path");
    assert_eq!(solid.slots[3], Slot::Absent);
    let sc = sub_partial(&solid, 4);
    assert_eq!(sc.slots[0], Slot::Scalar(Value::Int(10)));
    assert_eq!(
        sc.slots[1],
        Slot::Scalar(Value::Obj(vec![
            ("nanos".to_string(), Value::Int(99)),
            ("secs".to_string(), Value::Int(50)),
        ]))
    );
}

#[test]
fn test_clap() {
    let shape = config_shape();
    let mut builder = Builder::new(config_shape());
    builder.new_layer(string_source("{}", Format::Json));
    builder.new_layer(string_source(INTERMED_JSON, Format::Json));
    builder.new_layer(string_source(TOP_JSON, Format::Json));
    let args: Vec<String> = vec!["test_clap", "--name", "NAME_ARG"]
        .iter()
        .map(|v| v.to_string())
        .collect();
    builder.new_layer(Source::ArgumentsFrom(args));

    let (builder, outcome) = run_string_pass(builder, &shape);
    outcome.unwrap();

    let solid = builder.solidify().unwrap();
    assert_eq!(scalar_str(&solid, 0), "string");
    assert_eq!(scalar_str(&solid, 1), "NAME_ARG");
    assert_eq!(scalar_str(&solid, 2), "/tmp/path");
    let sc = sub_partial(&solid, 4);
    assert_eq!(sc.slots[0], Slot::Scalar(Value::Int(10)));
    assert_eq!(
        sc.slots[1],
        Slot::Scalar(Value::Obj(vec![
            ("nanos".to_string(), Value::Int(99)),
            ("secs".to_string(), Value::Int(50)),
        ]))
    );
}

/// A two-field shape whose `config` field carries a built-in default.
fn defaulted_shape(config_default: &str, name_default: Option<&str>) -> Shape {
    Shape {
        fields: vec![
            FieldDesc {
                name: "config".to_string(),
                kind: FieldKind::Required,
                load_config: false,
                default: Some(Value::Str(config_default.to_string())),
            },
            FieldDesc {
                name: "name".to_string(),
                kind: FieldKind::Required,
                load_config: false,
                default: name_default.map(|d| Value::Str(d.to_string())),
            },
        ],
    }
}

fn solidify_one_json_layer(config_default: &str, name_default: Option<&str>, text: &str) -> Partial {
    let shape = defaulted_shape(config_default, name_default);
    let mut builder = Builder::new(defaulted_shape(config_default, name_default));
    builder.new_layer(string_source(text, Format::Json));
    let (builder, outcome) = run_string_pass(builder, &shape);
    outcome.unwrap();
    builder.solidify().unwrap()
}

#[test]
fn test_field_level_default() {
    let solid = solidify_one_json_layer(
        "DEFAULT_CONFIG",
        None,
        r#"{"config": "layer_config", "name": "layer_name"}"#,
    );
    assert_eq!(scalar_str(&solid, 0), "layer_config");
    assert_eq!(scalar_str(&solid, 1), "layer_name");

    let solid = solidify_one_json_layer("DEFAULT_CONFIG", None, r#"{"name": "layer_name"}"#);
    assert_eq!(scalar_str(&solid, 0), "DEFAULT_CONFIG");
    assert_eq!(scalar_str(&solid, 1), "layer_name");
}

#[test]
fn test_field_level_default_path() {
    let solid = solidify_one_json_layer(
        "CONFIG_DEFAULT_PATH",
        None,
        r#"{"config": "layer_config", "name": "layer_name"}"#,
    );
    assert_eq!(scalar_str(&solid, 0), "layer_config");
    assert_eq!(scalar_str(&solid, 1), "layer_name");

    let solid = solidify_one_json_layer("CONFIG_DEFAULT_PATH", None, r#"{"name": "layer_name"}"#);
    assert_eq!(scalar_str(&solid, 0), "CONFIG_DEFAULT_PATH");
    assert_eq!(scalar_str(&solid, 1), "layer_name");
}

#[test]
fn test_struct_level_default() {
    let solid = solidify_one_json_layer(
        "DEFAULT_CONFIG",
        Some("DEFAULT_NAME"),
        r#"{"config": "layer_config", "name": "layer_name"}"#,
    );
    assert_eq!(scalar_str(&solid, 0), "layer_config");
    assert_eq!(scalar_str(&solid, 1), "layer_name");

    let solid = solidify_one_json_layer(
        "DEFAULT_CONFIG",
        Some("DEFAULT_NAME"),
        r#"{"name": "layer_name"}"#,
    );
    assert_eq!(scalar_str(&solid, 0), "DEFAULT_CONFIG");
    assert_eq!(scalar_str(&solid, 1), "layer_name");
}

#[test]
fn default_layer_is_lowest_priority() {
    let solid = solidify_one_json_layer("DEFAULT_CONFIG", Some("DEFAULT_NAME"), r#"{}"#);
    assert_eq!(scalar_str(&solid, 0), "DEFAULT_CONFIG");
    assert_eq!(scalar_str(&solid, 1), "DEFAULT_NAME");
}

#[test]
fn empty_partial_is_empty() {
    let shape = config_shape();
    let p = shape.skeleton();
    assert!(p.is_empty());
    let q = json_layer(&shape, TOP_JSON);
    assert!(!q.is_empty());
}
