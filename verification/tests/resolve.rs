use layeredconf::format::resolve_format;
use layeredconf::loader::{Action, Event, Loader};
use layeredconf::{
    Builder, Error, FieldDesc, FieldKind, Format, LayeredConfMerge, Partial, Shape, Slot, Source,
    Value,
};

fn req(name: &str) -> FieldDesc {
    FieldDesc {
        name: name.to_string(),
        kind: FieldKind::Required,
        load_config: false,
        default: None,
    }
}

fn opt(name: &str) -> FieldDesc {
    FieldDesc {
        name: name.to_string(),
        kind: FieldKind::Optional,
        load_config: false,
        default: None,
    }
}

fn from_json(v: &serde_json::Value) -> Value {
    match v {
        serde_json::Value::Null => Value::Null,
        serde_json::Value::Bool(b) => Value::Bool(*b),
        serde_json::Value::Number(n) => Value::Int(n.as_i64().expect("integer")),
        serde_json::Value::String(s) => Value::Str(s.clone()),
        serde_json::Value::Array(a) => Value::List(a.iter().map(from_json).collect()),
        serde_json::Value::Object(m) => {
            Value::Obj(m.iter().map(|(k, v)| (k.clone(), from_json(v))).collect())
        }
    }
}

fn run_json_pass(builder: Builder) -> (Builder, Result<(), Error>) {
    let mut loader = Loader::new(builder, "/work".to_string());
    loop {
        match loader.next_action() {
            Action::Done => return loader.finish(),
            Action::Canonicalize { .. } => loader.step(Event::CanonicalizeNotFound),
            Action::ReadFile { .. } => loader.step(Event::FileReadNotFound),
            Action::Parse { format, text } => match format {
                Format::Json => match serde_json::from_str::<serde_json::Value>(&text) {
                    Ok(v) => loader.step(Event::Parsed { tree: from_json(&v) }),
                    Err(e) => loader.step(Event::ParseFailed { message: e.to_string() }),
                },
                _ => panic!("unexpected parse format"),
            },
            _ => panic!("unexpected action"),
        }
    }
}

#[test]
fn resolver_selects_format_by_extension() {
    let auto = Format::Auto;
    assert_eq!(resolve_format(&auto, &"conf.yaml".to_string()), Ok(Format::Yaml));
    assert_eq!(resolve_format(&auto, &"conf.toml".to_string()), Ok(Format::Toml));
    assert_eq!(resolve_format(&auto, &"conf.json".to_string()), Ok(Format::Json));
    assert_eq!(
        resolve_format(&auto, &"/etc/app/deep/conf.yaml".to_string()),
        Ok(Format::Yaml)
    );
}

#[test]
fn resolver_refuses_unknown_extensions() {
    let auto = Format::Auto;
    assert_eq!(
        resolve_format(&auto, &"conf.txt".to_string()),
        Err(Error::UnknownExtension { extension: Some("txt".to_string()) })
    );
    assert_eq!(
        resolve_format(&auto, &"conf".to_string()),
        Err(Error::UnknownExtension { extension: None })
    );
    // A dot in a directory name is no extension.
    assert_eq!(
        resolve_format(&auto, &"dir.d/conf".to_string()),
        Err(Error::UnknownExtension { extension: None })
    );
    // A leading dot hides a file; it does not begin an extension.
    assert_eq!(
        resolve_format(&auto, &".hidden".to_string()),
        Err(Error::UnknownExtension { extension: None })
    );
}

#[test]
fn resolver_keeps_concrete_formats() {
    assert_eq!(resolve_format(&Format::Json, &"conf.toml".to_string()), Ok(Format::Json));
    assert_eq!(resolve_format(&Format::Toml, &"anything".to_string()), Ok(Format::Toml));
    assert_eq!(resolve_format(&Format::Yaml, &"".to_string()), Ok(Format::Yaml));
}

#[test]
fn solidify_without_layers_fails() {
    let builder = Builder::new(Shape { fields: vec![req("name")] });
    let r = builder.solidify();
    assert_eq!(r, Err(Error::SolidifyFailedNoLayers));
}

#[test]
fn solidify_reports_every_missing_field() {
    let mut builder = Builder::new(Shape { fields: vec![opt("config"), req("name")] });
    builder.new_layer(Source::StringLiteral {
        content: "{}".to_string(),
        format: Format::Json,
    });
    builder.new_layer(Source::StringLiteral {
        content: r#"{"config": "string"}"#.to_string(),
        format: Format::Json,
    });
    let (builder, outcome) = run_json_pass(builder);
    outcome.unwrap();
    let r = builder.solidify();
    assert_eq!(
        r,
        Err(Error::SolidifyFailedMissing { missing: vec!["name".to_string()] })
    );
}

#[test]
fn highest_layer_wins_overlapping_fields() {
    let mut builder = Builder::new(Shape { fields: vec![req("name")] });
    for text in [r#"{"name": "low"}"#, r#"{"name": "mid"}"#, r#"{"name": "high"}"#] {
        builder.new_layer(Source::StringLiteral {
            content: text.to_string(),
            format: Format::Json,
        });
    }
    let (builder, outcome) = run_json_pass(builder);
    outcome.unwrap();
    let solid = builder.solidify().unwrap();
    assert_eq!(solid.slots[0], Slot::Scalar(Value::Str("high".to_string())));
}

#[test]
fn disjoint_layers_union_fields() {
    let shape = Shape { fields: vec![opt("a"), opt("b"), opt("c")] };
    let ja: serde_json::Value = serde_json::from_str(r#"{"a": 1}"#).unwrap();
    let jb: serde_json::Value = serde_json::from_str(r#"{"b": 2}"#).unwrap();
    let mut hi = Partial::from_tree(&shape, &from_json(&jb)).unwrap();
    let lo = Partial::from_tree(&shape, &from_json(&ja)).unwrap();
    hi.merge_from(&lo);
    assert_eq!(hi.slots[0], Slot::Scalar(Value::Int(1)));
    assert_eq!(hi.slots[1], Slot::Scalar(Value::Int(2)));
    assert_eq!(hi.slots[2], Slot::Absent);
}

#[test]
fn from_tree_refuses_non_string_load_config() {
    let shape = Shape {
        fields: vec![
            FieldDesc {
                name: "config".to_string(),
                kind: FieldKind::Optional,
                load_config: true,
                default: None,
            },
        ],
    };
    let tree: serde_json::Value = serde_json::from_str(r#"{"config": 5}"#).unwrap();
    let r = Partial::from_tree(&shape, &from_json(&tree));
    assert_eq!(r, Err("config".to_string()));
}

#[test]
fn from_tree_refuses_scalar_for_nested_field() {
    let shape = Shape {
        fields: vec![
            FieldDesc {
                name: "database".to_string(),
                kind: FieldKind::Sub(Shape { fields: vec![opt("uri")] }),
                load_config: false,
                default: None,
            },
        ],
    };
    let tree: serde_json::Value = serde_json::from_str(r#"{"database": "nope"}"#).unwrap();
    let r = Partial::from_tree(&shape, &from_json(&tree));
    assert_eq!(r, Err("database".to_string()));
}

#[test]
fn nested_fields_merge_fieldwise() {
    let shape = Shape {
        fields: vec![
            FieldDesc {
                name: "database".to_string(),
                kind: FieldKind::Sub(Shape { fields: vec![opt("uri"), opt("password")] }),
                load_config: false,
                default: None,
            },
        ],
    };
    let lo: serde_json::Value =
        serde_json::from_str(r#"{"database": {"uri": "db://x"}}"#).unwrap();
    let hi: serde_json::Value =
        serde_json::from_str(r#"{"database": {"password": "s"}}"#).unwrap();
    let mut top = Partial::from_tree(&shape, &from_json(&hi)).unwrap();
    let low = Partial::from_tree(&shape, &from_json(&lo)).unwrap();
    top.merge_from(&low);
    match &top.slots[0] {
        Slot::Sub(db) => {
            assert_eq!(db.slots[0], Slot::Scalar(Value::Str("db://x".to_string())));
            assert_eq!(db.slots[1], Slot::Scalar(Value::Str("s".to_string())));
        }
        other => panic!("expected a sub-configuration: {:?}", other),
    }
}

#[test]
fn matches_shape_checks_structure() {
    let shape = Shape {
        fields: vec![
            FieldDesc {
                name: "config".to_string(),
                kind: FieldKind::Optional,
                load_config: true,
                default: None,
            },
            FieldDesc {
                name: "database".to_string(),
                kind: FieldKind::Sub(Shape { fields: vec![opt("uri")] }),
                load_config: false,
                default: None,
            },
        ],
    };
    let good = shape.skeleton();
    assert!(good.matches_shape(&shape));

    let mut wrong_arity = shape.skeleton();
    wrong_arity.slots.pop();
    assert!(!wrong_arity.matches_shape(&shape));

    let mut lc_not_string = shape.skeleton();
    lc_not_string.slots[0] = Slot::Scalar(Value::Int(3));
    assert!(!lc_not_string.matches_shape(&shape));

    let mut scalar_for_sub = shape.skeleton();
    scalar_for_sub.slots[1] = Slot::Scalar(Value::Str("x".to_string()));
    assert!(!scalar_for_sub.matches_shape(&shape));
}
