use cargo_templated_examples::cargo_toml::{Example, Manifest, Value};
use cargo_templated_examples::commands::{BuildType, CargoCommand};
use cargo_templated_examples::errors::ExampleError;
use cargo_templated_examples::plan::{resolve_example, plan_examples, ExampleFile};
use cargo_templated_examples::resolver::get_example_command;

fn text(s: &str) -> Value {
    Value::Text(String::from(s))
}

fn array(items: &[&str]) -> Value {
    Value::Array(items.iter().map(|s| text(s)).collect())
}

fn table(entries: Vec<(&str, Value)>) -> Value {
    Value::Table(
        entries
            .into_iter()
            .map(|(k, v)| (String::from(k), v))
            .collect(),
    )
}

fn strings(items: &[&str]) -> Vec<String> {
    items.iter().map(|s| String::from(*s)).collect()
}

fn file(name: &str, contents: &str) -> ExampleFile {
    ExampleFile {
        name: String::from(name),
        contents: String::from(contents),
    }
}

fn empty_manifest() -> Manifest {
    Manifest {
        metadata: None,
        examples: vec![],
        workspace: None,
    }
}

#[test]
fn resolver_cases() {
    let a = || CargoCommand::from_str("mpirun -n 2", "eg").unwrap();
    let b = || CargoCommand::from_str("mpirun -n 4", "eg").unwrap();
    assert_eq!(get_example_command(Some(a()), None, "eg"), Ok(a()));
    assert_eq!(get_example_command(None, Some(b()), "eg"), Ok(b()));
    assert_eq!(get_example_command(Some(a()), Some(a()), "eg"), Ok(a()));
    assert_eq!(
        get_example_command(Some(a()), Some(b()), "eg"),
        Err(ExampleError::ConflictingCommandSources(String::from("eg")))
    );
    assert_eq!(
        get_example_command(None, None, "eg"),
        Ok(CargoCommand::new(String::from("eg")))
    );
    // an unset build type differs from a set one
    let released = CargoCommand::from_str("mpirun -n 2 --release", "eg").unwrap();
    assert_eq!(
        get_example_command(Some(a()), Some(released), "eg"),
        Err(ExampleError::ConflictingCommandSources(String::from("eg")))
    );
}

#[test]
fn end_to_end_parallel() {
    let files = vec![file(
        "parallel",
        "//? mpirun -n {{NPROCESSES}}\n\nuse mpi::environment::Universe;\n\nfn main() {}\n",
    )];
    let manifest = Manifest {
        metadata: Some(table(vec![(
            "templated-examples",
            table(vec![
                ("NPROCESSES", array(&["2", "4"])),
                ("build", text("release")),
            ]),
        )])),
        examples: vec![],
        workspace: None,
    };
    let plan = plan_examples(&files, &manifest, &strings(&["templated-examples"])).unwrap();
    assert_eq!(
        plan,
        strings(&[
            "cargo mpirun -n 2 --example parallel --release",
            "cargo mpirun -n 4 --example parallel --release"
        ])
    );
}

#[test]
fn command_line_takes_the_place_of_manifest_values() {
    let files = vec![
        file("parallel", "//? mpirun -n {{NPROCESSES}}\n"),
        file("plain", "fn main() {}\n"),
    ];
    let manifest = Manifest {
        metadata: Some(table(vec![(
            "templated-examples",
            table(vec![("NPROCESSES", array(&["2", "4"]))]),
        )])),
        examples: vec![],
        workspace: None,
    };
    let plan = plan_examples(
        &files,
        &manifest,
        &strings(&["templated-examples", "NPROCESSES", "8", "--features", "f"]),
    )
    .unwrap();
    assert_eq!(
        plan,
        strings(&[
            "cargo mpirun -n 8 --example parallel --release",
            "cargo run --example plain --release"
        ])
    );
}

#[test]
fn build_type_conflict_between_file_and_manifest() {
    let manifest = Manifest {
        metadata: Some(table(vec![(
            "example",
            table(vec![(
                "eg",
                table(vec![("templated-examples", table(vec![("build", text("debug"))]))]),
            )]),
        )])),
        examples: vec![],
        workspace: None,
    };
    assert_eq!(
        resolve_example("//? run --release\n", &manifest, &BuildType::Release, "eg"),
        Err(ExampleError::ConflictingBuildType(String::from("eg")))
    );
    // without a build type in the file the manifest's is taken
    assert_eq!(
        resolve_example("//? run\n", &manifest, &BuildType::Release, "eg"),
        Ok(String::from("cargo run --example eg"))
    );
    assert_eq!(
        resolve_example("", &manifest, &BuildType::Release, "eg"),
        Ok(String::from("cargo run --example eg"))
    );
    // another example is not touched by it
    assert_eq!(
        resolve_example("//? run --release\n", &manifest, &BuildType::Debug, "other"),
        Ok(String::from("cargo run --example other --release"))
    );
}

#[test]
fn missing_required_feature() {
    let manifest = Manifest {
        metadata: None,
        examples: vec![Example {
            name: Some(String::from("eg")),
            required_features: strings(&["one"]),
        }],
        workspace: None,
    };
    assert_eq!(
        resolve_example(
            "//? run --features \"two\"\n",
            &manifest,
            &BuildType::Release,
            "eg"
        ),
        Err(ExampleError::MissingRequiredFeature(
            String::from("one"),
            String::from("eg")
        ))
    );
    assert_eq!(
        resolve_example("", &manifest, &BuildType::Release, "eg"),
        Ok(String::from("cargo run --example eg --features \"one\" --release"))
    );
    assert_eq!(
        resolve_example(
            "//? run --features \"two,one\"\n",
            &manifest,
            &BuildType::Debug,
            "eg"
        ),
        Ok(String::from("cargo run --example eg --features \"two,one\""))
    );
}

#[test]
fn command_sources_conflict() {
    let manifest = Manifest {
        metadata: Some(table(vec![(
            "example",
            table(vec![(
                "eg",
                table(vec![(
                    "templated-examples",
                    table(vec![("command", text("mpirun -n 2"))]),
                )]),
            )]),
        )])),
        examples: vec![],
        workspace: None,
    };
    assert_eq!(
        resolve_example("//? mpirun -n 4\n", &manifest, &BuildType::Release, "eg"),
        Err(ExampleError::ConflictingCommandSources(String::from("eg")))
    );
    assert_eq!(
        resolve_example("//? mpirun -n 2\n", &manifest, &BuildType::Release, "eg"),
        Ok(String::from("cargo mpirun -n 2 --example eg --release"))
    );
    assert_eq!(
        resolve_example("", &manifest, &BuildType::Release, "eg"),
        Ok(String::from("cargo mpirun -n 2 --example eg --release"))
    );
}

#[test]
fn plan_errors() {
    let files = vec![file("a", "//? run\n"), file("b", "//? run -n\n")];
    assert_eq!(
        plan_examples(&files, &empty_manifest(), &strings(&["templated-examples"])),
        Err(ExampleError::DanglingKey)
    );
    let files = vec![file("a", "//? run\n")];
    assert_eq!(
        plan_examples(&files, &empty_manifest(), &strings(&["other"])),
        Err(ExampleError::NotSubcommand)
    );
    assert_eq!(
        resolve_example("", &empty_manifest(), &BuildType::Default, "eg"),
        Err(ExampleError::InvalidDefault)
    );
    let no_files: Vec<ExampleFile> = vec![];
    assert_eq!(
        plan_examples(&no_files, &empty_manifest(), &strings(&["templated-examples"])),
        Ok(vec![])
    );
}
