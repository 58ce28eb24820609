use cargo_templated_examples::cargo_toml::{
    get_default_build, load_args, load_build, load_command, load_required_features, Example,
    Manifest, Value,
};
use cargo_templated_examples::commands::{BuildType, CargoCommand};
use cargo_templated_examples::errors::ExampleError;
use cargo_templated_examples::templates::TemplateArgs;

fn text(s: &str) -> Value {
    Value::Text(String::from(s))
}

fn array(items: &[&str]) -> Value {
    Value::Array(items.iter().map(|s| text(s)).collect())
}

fn table(entries: Vec<(&str, Value)>) -> Value {
    Value::Table(
        entries
            .into_iter()
            .map(|(k, v)| (String::from(k), v))
            .collect(),
    )
}

fn with_metadata(metadata: Value) -> Manifest {
    Manifest {
        metadata: Some(metadata),
        examples: vec![],
        workspace: None,
    }
}

fn with_template_table(entries: Vec<(&str, Value)>) -> Manifest {
    with_metadata(table(vec![("templated-examples", table(entries))]))
}

fn with_example_settings(eg: &str, entries: Vec<(&str, Value)>) -> Manifest {
    with_metadata(table(vec![(
        "example",
        table(vec![(eg, table(vec![("templated-examples", table(entries))]))]),
    )]))
}

fn strings(items: &[&str]) -> Vec<String> {
    items.iter().map(|s| String::from(*s)).collect()
}

#[test]
fn value_get() {
    let v = table(vec![("a", text("1")), ("b", array(&["x"])), ("a", text("2"))]);
    assert!(matches!(v.get("a"), Some(Value::Text(s)) if s == "1"));
    assert!(matches!(v.get("b"), Some(Value::Array(_))));
    assert!(v.get("c").is_none());
    assert!(text("a").get("a").is_none());
    assert!(Value::Other.get("a").is_none());
    assert!(array(&["a"]).get("a").is_none());
}

#[test]
fn load_args_from_manifest() {
    let m = with_template_table(vec![
        ("NPROCESSES", array(&["2", "4"])),
        ("build", text("release")),
        ("SIZE", array(&[])),
    ]);
    let mut args = TemplateArgs::new();
    args.insert(String::from("SIZE"), strings(&["old"]));
    args.insert(String::from("OTHER"), strings(&["kept"]));
    assert_eq!(load_args(&mut args, &m), Ok(()));
    assert_eq!(args.len(), 3);
    assert_eq!(args.get("NPROCESSES"), Some(&strings(&["2", "4"])));
    assert_eq!(args.get("SIZE"), Some(&strings(&[])));
    assert_eq!(args.get("OTHER"), Some(&strings(&["kept"])));
    assert_eq!(args.get("build"), None);
}

#[test]
fn load_args_without_table() {
    let mut args = TemplateArgs::new();
    let none = Manifest {
        metadata: None,
        examples: vec![],
        workspace: None,
    };
    assert_eq!(load_args(&mut args, &none), Ok(()));
    assert_eq!(args.len(), 0);
    assert_eq!(load_args(&mut args, &with_metadata(table(vec![]))), Ok(()));
    assert_eq!(load_args(&mut args, &with_metadata(Value::Other)), Ok(()));
    assert_eq!(args.len(), 0);
}

#[test]
fn load_args_errors() {
    let mut args = TemplateArgs::new();
    args.insert(String::from("A"), strings(&["1"]));
    let not_table = with_metadata(table(vec![("templated-examples", text("x"))]));
    assert_eq!(
        load_args(&mut args, &not_table),
        Err(ExampleError::ArgumentsNotTable)
    );
    let not_array = with_template_table(vec![("A", array(&["2"])), ("B", text("x"))]);
    assert_eq!(
        load_args(&mut args, &not_array),
        Err(ExampleError::ArgumentNotStrings(String::from("B")))
    );
    let not_strings = with_template_table(vec![
        ("C", Value::Array(vec![text("x"), Value::Other])),
        ("B", text("x")),
    ]);
    assert_eq!(
        load_args(&mut args, &not_strings),
        Err(ExampleError::ArgumentNotStrings(String::from("C")))
    );
    // nothing was taken from a manifest that was refused
    assert_eq!(args.len(), 1);
    assert_eq!(args.get("A"), Some(&strings(&["1"])));
    // the entry for the build type need be no array
    let build_only = with_template_table(vec![("build", Value::Other)]);
    assert_eq!(load_args(&mut args, &build_only), Ok(()));
}

#[test]
fn default_build() {
    let none = Manifest {
        metadata: None,
        examples: vec![],
        workspace: None,
    };
    assert_eq!(get_default_build(&none), Ok(BuildType::Release));
    assert_eq!(
        get_default_build(&with_template_table(vec![("N", array(&["1"]))])),
        Ok(BuildType::Release)
    );
    assert_eq!(
        get_default_build(&with_template_table(vec![("build", text("debug"))])),
        Ok(BuildType::Debug)
    );
    assert_eq!(
        get_default_build(&with_template_table(vec![("build", text("release"))])),
        Ok(BuildType::Release)
    );
    assert_eq!(
        get_default_build(&with_template_table(vec![("build", text("fast"))])),
        Ok(BuildType::Profile(String::from("fast")))
    );
    assert_eq!(
        get_default_build(&with_template_table(vec![("build", array(&["debug"]))])),
        Err(ExampleError::BuildNotString)
    );
    assert_eq!(
        get_default_build(&with_metadata(table(vec![(
            "templated-examples",
            array(&[])
        )]))),
        Err(ExampleError::ArgumentsNotTable)
    );
}

#[test]
fn required_features() {
    let m = Manifest {
        metadata: None,
        examples: vec![
            Example {
                name: None,
                required_features: strings(&["x"]),
            },
            Example {
                name: Some(String::from("a")),
                required_features: strings(&["one", "two"]),
            },
            Example {
                name: Some(String::from("b")),
                required_features: vec![],
            },
            Example {
                name: Some(String::from("a")),
                required_features: strings(&["three"]),
            },
        ],
        workspace: None,
    };
    assert_eq!(load_required_features(&m, "a"), strings(&["one", "two"]));
    assert_eq!(load_required_features(&m, "b"), strings(&[]));
    assert_eq!(load_required_features(&m, "c"), strings(&[]));
}

#[test]
fn example_build() {
    let m = with_example_settings("eg", vec![("build", text("debug"))]);
    assert_eq!(load_build(&m, "eg"), Ok(Some(BuildType::Debug)));
    assert_eq!(load_build(&m, "other"), Ok(None));
    let m = with_example_settings("eg", vec![("command", text("run"))]);
    assert_eq!(load_build(&m, "eg"), Ok(None));
    let m = with_example_settings("eg", vec![("build", Value::Other)]);
    assert_eq!(load_build(&m, "eg"), Err(ExampleError::BuildNotString));
    let m = with_template_table(vec![("build", text("debug"))]);
    assert_eq!(load_build(&m, "eg"), Ok(None));
}

#[test]
fn example_command() {
    let m = with_example_settings("eg", vec![("command", text("mpirun -n 2"))]);
    assert_eq!(
        load_command(&m, "eg"),
        Ok(Some(CargoCommand::from_str("mpirun -n 2", "eg").unwrap()))
    );
    assert_eq!(load_command(&m, "other"), Ok(None));

    let m = with_example_settings(
        "eg",
        vec![("command", text("mpirun -n 2")), ("build", text("fast"))],
    );
    assert_eq!(
        load_command(&m, "eg"),
        Ok(Some(
            CargoCommand::from_str("mpirun -n 2 --profile fast", "eg").unwrap()
        ))
    );

    let m = with_example_settings(
        "eg",
        vec![("command", text("run --release")), ("build", text("release"))],
    );
    assert_eq!(
        load_command(&m, "eg"),
        Ok(Some(CargoCommand::from_str("run --release", "eg").unwrap()))
    );
}

#[test]
fn example_command_errors() {
    let m = with_example_settings("eg", vec![("command", array(&["run"]))]);
    assert_eq!(load_command(&m, "eg"), Err(ExampleError::CommandNotString));
    let m = with_example_settings("eg", vec![("command", text("run -n"))]);
    assert_eq!(load_command(&m, "eg"), Err(ExampleError::DanglingKey));
    let m = with_example_settings("eg", vec![("command", text(""))]);
    assert_eq!(load_command(&m, "eg"), Err(ExampleError::EmptyCommand));
    let m = with_example_settings(
        "eg",
        vec![("command", text("run")), ("build", Value::Other)],
    );
    assert_eq!(load_command(&m, "eg"), Err(ExampleError::BuildNotString));
    let m = with_example_settings(
        "eg",
        vec![("command", text("run --release")), ("build", text("debug"))],
    );
    assert_eq!(
        load_command(&m, "eg"),
        Err(ExampleError::ConflictingBuildType(String::from("eg")))
    );
    // the command is read before the build type is looked at
    let m = with_example_settings(
        "eg",
        vec![("command", text("run -n")), ("build", Value::Other)],
    );
    assert_eq!(load_command(&m, "eg"), Err(ExampleError::DanglingKey));
}
