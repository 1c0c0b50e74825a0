use layeredconf::loader::{Action, Event, Loader};
use layeredconf::{Builder, Error, FieldDesc, FieldKind, Format, Shape, Source, Value};

fn name_shape() -> Shape {
    Shape {
        fields: vec![FieldDesc {
            name: "name".to_string(),
            kind: FieldKind::Required,
            load_config: false,
            default: None,
        }],
    }
}

fn one_file_loader(path: &str) -> Loader {
    let mut builder = Builder::new(name_shape());
    builder.new_layer(Source::File { path: path.to_string(), format: Format::Auto });
    Loader::new(builder, "/work".to_string())
}

#[test]
fn canonicalize_failure_is_path_canonicalization() {
    let mut loader = one_file_loader("/locked/a.yaml");
    assert!(matches!(loader.next_action(), Action::Canonicalize { .. }));
    loader.step(Event::CanonicalizeFailed { message: "permission denied".to_string() });
    assert!(matches!(loader.next_action(), Action::Done));
    let (_, outcome) = loader.finish();
    assert_eq!(
        outcome,
        Err(Error::PathCanonicalization {
            path: "/locked/a.yaml".to_string(),
            message: "permission denied".to_string(),
        })
    );
}

#[test]
fn read_failure_is_io_error() {
    let mut loader = one_file_loader("/locked/a.yaml");
    loader.step(Event::Canonicalized { path: "/locked/a.yaml".to_string() });
    match loader.next_action() {
        Action::ReadFile { path } => assert_eq!(path, "/locked/a.yaml"),
        other => panic!("expected a read: {:?}", other),
    }
    loader.step(Event::FileReadFailed { message: "disk error".to_string() });
    let (_, outcome) = loader.finish();
    assert_eq!(
        outcome,
        Err(Error::IoError {
            path: "/locked/a.yaml".to_string(),
            message: "disk error".to_string(),
        })
    );
}

fn parse_failure(path: &str, text: &str) -> Error {
    let mut loader = one_file_loader(path);
    loader.step(Event::Canonicalized { path: path.to_string() });
    loader.step(Event::FileRead { text: text.to_string() });
    let message = match loader.next_action() {
        Action::Parse { format, text } => match format {
            Format::Json => serde_json::from_str::<serde_json::Value>(&text)
                .expect_err("should not parse")
                .to_string(),
            Format::Toml => text.parse::<toml::Table>().expect_err("should not parse").to_string(),
            Format::Yaml => serde_yaml::from_str::<serde_yaml::Value>(&text)
                .expect_err("should not parse")
                .to_string(),
            Format::Auto => panic!("format was not resolved"),
        },
        other => panic!("expected a parse: {:?}", other),
    };
    loader.step(Event::ParseFailed { message });
    let (_, outcome) = loader.finish();
    outcome.expect_err("the pass should fail")
}

#[test]
fn bad_json_is_json_error() {
    let err = parse_failure("/c/a.json", "{ not json");
    assert!(matches!(err, Error::JsonError { .. }), "{:?}", err);
}

#[test]
fn bad_toml_is_toml_error() {
    let err = parse_failure("/c/a.toml", "= broken =");
    assert!(matches!(err, Error::TomlError { .. }), "{:?}", err);
}

#[test]
fn bad_yaml_is_yaml_error() {
    let err = parse_failure("/c/a.yaml", "{ : : }");
    assert!(matches!(err, Error::YamlError { .. }), "{:?}", err);
}

#[test]
fn shape_mismatch_surfaces_as_parse_error() {
    let shape = Shape {
        fields: vec![FieldDesc {
            name: "database".to_string(),
            kind: FieldKind::Sub(Shape { fields: vec![] }),
            load_config: false,
            default: None,
        }],
    };
    let mut builder = Builder::new(shape);
    builder.new_layer(Source::StringLiteral {
        content: r#"{"database": "not an object"}"#.to_string(),
        format: Format::Json,
    });
    let mut loader = Loader::new(builder, "/work".to_string());
    loader.step(Event::Parsed {
        tree: Value::Obj(vec![(
            "database".to_string(),
            Value::Str("not an object".to_string()),
        )]),
    });
    let (_, outcome) = loader.finish();
    assert_eq!(outcome, Err(Error::JsonError { message: "database".to_string() }));
}
