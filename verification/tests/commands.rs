use cargo_templated_examples::commands::{BuildType, CargoCommand};
use cargo_templated_examples::errors::ExampleError;

#[test]
fn test_from_str_features() {
    let c = CargoCommand::from_str("run --features \"one,two\"", "test").unwrap();
    assert_eq!(c.features().len(), 2);

    let mut c = CargoCommand::from_str("run --features \"one,two\"", "test").unwrap();
    c.set_required_features(&[String::from("one"), String::from("two")])
        .unwrap();
    assert_eq!(c.features().len(), 2);

    let mut c = CargoCommand::from_str("run", "test").unwrap();
    c.set_required_features(&[String::from("one"), String::from("two")])
        .unwrap();
    assert_eq!(c.features().len(), 2);

    let mut c = CargoCommand::from_str("run --features \"one,two\"", "test").unwrap();
    c.set_required_features(&[String::from("one")]).unwrap();
    assert_eq!(c.features().len(), 2);
}

#[test]
#[should_panic]
fn test_from_str_missing_feature() {
    let mut c = CargoCommand::from_str("run --features \"one\"", "test").unwrap();
    c.set_required_features(&[String::from("one"), String::from("two")])
        .unwrap();
}

#[test]
fn test_from_str_build_type() {
    let c = CargoCommand::from_str("run --profile build", "test").unwrap();
    assert_eq!(*c.build(), BuildType::Profile(String::from("build")));

    let mut c = CargoCommand::from_str("run", "test").unwrap();
    c.set_default_build_type(&BuildType::Profile(String::from("build")))
        .unwrap();
    assert_eq!(*c.build(), BuildType::Profile(String::from("build")));

    let mut c = CargoCommand::from_str("run", "test").unwrap();
    c.set_build_type(&BuildType::Profile(String::from("build")))
        .unwrap();
    assert_eq!(*c.build(), BuildType::Profile(String::from("build")));

    let mut c = CargoCommand::from_str("run --profile build", "test").unwrap();
    c.set_default_build_type(&BuildType::Profile(String::from("build")))
        .unwrap();
    assert_eq!(*c.build(), BuildType::Profile(String::from("build")));

    let mut c = CargoCommand::from_str("run --profile build", "test").unwrap();
    c.set_default_build_type(&BuildType::Debug).unwrap();
    assert_eq!(*c.build(), BuildType::Profile(String::from("build")));
}

#[test]
#[should_panic]
fn test_from_str_incompatible_build_type() {
    let mut c = CargoCommand::from_str("run --profile build", "test").unwrap();
    c.set_build_type(&BuildType::Debug).unwrap();
    assert_eq!(*c.build(), BuildType::Profile(String::from("build")));
}

#[test]
fn missing_feature_is_named() {
    let mut c = CargoCommand::from_str("run --features \"two\"", "test").unwrap();
    assert_eq!(
        c.set_required_features(&[String::from("one")]),
        Err(ExampleError::MissingRequiredFeature(
            String::from("one"),
            String::from("test")
        ))
    );
    assert_eq!(c.features(), &vec![String::from("two")]);
}

#[test]
fn render_formats() {
    let mut c = CargoCommand::from_str(
        "mpirun -n 2 --features \"one,two\" --profile fast",
        "parallel",
    )
    .unwrap();
    assert_eq!(
        c.as_string().unwrap(),
        "cargo mpirun -n 2 --example parallel --features \"one,two\" --profile fast"
    );
    c = CargoCommand::from_str("run --release", "a").unwrap();
    assert_eq!(c.as_string().unwrap(), "cargo run --example a --release");
    c = CargoCommand::new(String::from("a"));
    assert_eq!(c.as_string(), Err(ExampleError::UnresolvedBuildType));
    c.set_default_build_type(&BuildType::Debug).unwrap();
    assert_eq!(c.as_string().unwrap(), "cargo run --example a");
}

#[test]
fn parse_errors() {
    assert_eq!(
        CargoCommand::from_str("", "test"),
        Err(ExampleError::EmptyCommand)
    );
    assert_eq!(
        CargoCommand::from_tokens(&vec![], "test"),
        Err(ExampleError::EmptyCommand)
    );
    assert_eq!(
        CargoCommand::from_str("run --release --release", "test"),
        Err(ExampleError::DuplicateBuildType)
    );
    assert_eq!(
        CargoCommand::from_str("run --release --profile fast", "test"),
        Err(ExampleError::DuplicateBuildType)
    );
    assert_eq!(
        CargoCommand::from_str("run --profile fast --release", "test"),
        Err(ExampleError::DuplicateBuildType)
    );
    assert_eq!(
        CargoCommand::from_str("run --release --profile", "test"),
        Err(ExampleError::DuplicateBuildType)
    );
    assert_eq!(
        CargoCommand::from_str("run --profile", "test"),
        Err(ExampleError::MissingProfileName)
    );
    assert_eq!(
        CargoCommand::from_str("run --features", "test"),
        Err(ExampleError::MissingFeatureList)
    );
    assert_eq!(
        CargoCommand::from_str("run --features \"one", "test"),
        Err(ExampleError::FormatError)
    );
    assert_eq!(
        CargoCommand::from_str("run -n", "test"),
        Err(ExampleError::DanglingKey)
    );
    assert_eq!(
        CargoCommand::from_str("run ", "test"),
        Err(ExampleError::DanglingKey)
    );
}

#[test]
fn parse_fields() {
    let c = CargoCommand::from_str("mpirun -n 4 --features a,b -x y --release", "eg").unwrap();
    assert_eq!(c.run(), "mpirun");
    assert_eq!(c.example_name(), "eg");
    assert_eq!(
        c.args(),
        &vec![
            (String::from("-n"), String::from("4")),
            (String::from("-x"), String::from("y"))
        ]
    );
    assert_eq!(c.features(), &vec![String::from("a"), String::from("b")]);
    assert_eq!(*c.build(), BuildType::Release);

    // two spaces in a row give an empty token, which is a key like any other
    let c = CargoCommand::from_str("run  x", "eg").unwrap();
    assert_eq!(c.args(), &vec![(String::new(), String::from("x"))]);

    // the value of a key is taken as it stands, a flag too
    let c = CargoCommand::from_str("run -k --release", "eg").unwrap();
    assert_eq!(
        c.args(),
        &vec![(String::from("-k"), String::from("--release"))]
    );
    assert_eq!(*c.build(), BuildType::Default);

    // a second list of features takes the place of the first
    let c = CargoCommand::from_str("run --features a,b --features 'c'", "eg").unwrap();
    assert_eq!(c.features(), &vec![String::from("c")]);

    // an empty quoted list is one empty feature
    let c = CargoCommand::from_str("run --features \"\"", "eg").unwrap();
    assert_eq!(c.features(), &vec![String::new()]);
}

#[test]
fn new_is_bare() {
    let c = CargoCommand::new(String::from("eg"));
    assert_eq!(c.run(), "run");
    assert_eq!(c.example_name(), "eg");
    assert!(c.args().is_empty());
    assert!(c.features().is_empty());
    assert_eq!(*c.build(), BuildType::Default);
    assert_eq!(c, CargoCommand::from_str("run", "eg").unwrap());
    assert_ne!(c, CargoCommand::from_str("run", "other").unwrap());
    assert_ne!(c, CargoCommand::from_str("run --release", "eg").unwrap());
    assert_ne!(c, CargoCommand::from_str("run -a b", "eg").unwrap());
    assert_ne!(c, CargoCommand::from_str("run --features a", "eg").unwrap());
}

#[test]
fn build_type_from_str() {
    assert_eq!(BuildType::from_str("debug"), BuildType::Debug);
    assert_eq!(BuildType::from_str("release"), BuildType::Release);
    assert_eq!(
        BuildType::from_str("fast"),
        BuildType::Profile(String::from("fast"))
    );
    assert_eq!(
        BuildType::from_str("Release"),
        BuildType::Profile(String::from("Release"))
    );
    assert_eq!(BuildType::from_str(""), BuildType::Profile(String::new()));
    assert_ne!(
        BuildType::Profile(String::from("a")),
        BuildType::Profile(String::from("b"))
    );
    assert!(BuildType::Debug.is_concrete());
    assert!(!BuildType::Default.is_concrete());
    assert_eq!(BuildType::Release.clone(), BuildType::Release);
}

#[test]
fn default_build_never_overrides() {
    for decided in [
        BuildType::Debug,
        BuildType::Release,
        BuildType::Profile(String::from("p")),
    ] {
        for candidate in [
            BuildType::Debug,
            BuildType::Release,
            BuildType::Profile(String::from("q")),
        ] {
            let mut c = CargoCommand::new(String::from("eg"));
            c.set_build_type(&decided).unwrap();
            assert_eq!(c.set_default_build_type(&candidate), Ok(()));
            assert_eq!(*c.build(), decided);
        }
    }
}

#[test]
fn default_build_must_be_decided() {
    let mut c = CargoCommand::new(String::from("eg"));
    assert_eq!(
        c.set_default_build_type(&BuildType::Default),
        Err(ExampleError::InvalidDefault)
    );
    assert_eq!(
        c.set_build_type(&BuildType::Default),
        Err(ExampleError::InvalidDefault)
    );
    assert_eq!(*c.build(), BuildType::Default);
    let mut c = CargoCommand::from_str("run --release", "eg").unwrap();
    assert_eq!(
        c.set_default_build_type(&BuildType::Default),
        Err(ExampleError::InvalidDefault)
    );
    assert_eq!(*c.build(), BuildType::Release);
}

#[test]
fn set_build_type_cases() {
    // undecided: takes it
    let mut c = CargoCommand::new(String::from("eg"));
    assert_eq!(c.set_build_type(&BuildType::Debug), Ok(()));
    assert_eq!(*c.build(), BuildType::Debug);
    // the same: stays
    assert_eq!(c.set_build_type(&BuildType::Debug), Ok(()));
    assert_eq!(*c.build(), BuildType::Debug);
    // another: refused, and the command stays as it was
    assert_eq!(
        c.set_build_type(&BuildType::Release),
        Err(ExampleError::ConflictingBuildType(String::from("eg")))
    );
    assert_eq!(*c.build(), BuildType::Debug);
    let mut c = CargoCommand::from_str("run --profile a", "eg").unwrap();
    assert_eq!(
        c.set_build_type(&BuildType::Profile(String::from("b"))),
        Err(ExampleError::ConflictingBuildType(String::from("eg")))
    );
    assert_eq!(c.set_build_type(&BuildType::Profile(String::from("a"))), Ok(()));
}

#[test]
fn no_required_features_is_no_op() {
    let mut c = CargoCommand::from_str("run --features a,b --release", "eg").unwrap();
    let before = CargoCommand::from_str("run --features a,b --release", "eg").unwrap();
    assert_eq!(c.set_required_features(&[]), Ok(()));
    assert_eq!(c, before);
    let mut c = CargoCommand::new(String::from("eg"));
    assert_eq!(c.set_required_features(&[]), Ok(()));
    assert_eq!(c, CargoCommand::new(String::from("eg")));
}

#[test]
fn required_features_first_missing() {
    let mut c = CargoCommand::from_str("run --features b", "eg").unwrap();
    assert_eq!(
        c.set_required_features(&[
            String::from("b"),
            String::from("x"),
            String::from("y")
        ]),
        Err(ExampleError::MissingRequiredFeature(
            String::from("x"),
            String::from("eg")
        ))
    );
    // adopted as they are, in their order
    let mut c = CargoCommand::new(String::from("eg"));
    c.set_required_features(&[String::from("z"), String::from("a")])
        .unwrap();
    assert_eq!(c.features(), &vec![String::from("z"), String::from("a")]);
    c.set_default_build_type(&BuildType::Debug).unwrap();
    assert_eq!(
        c.as_string().unwrap(),
        "cargo run --example eg --features \"z,a\""
    );
}

#[test]
fn directive_round_trip() {
    let name = "eg";
    for text in [
        "mpirun -n 2 --features \"one,two\" --release",
        "run --profile fast -x y",
        "run --features a --release --flag value",
        "run --features 'it''s' --release",
        "run  x --release",
    ] {
        let first = CargoCommand::from_str(text, name).unwrap();
        let line = first.as_string().unwrap();
        let rest = line.strip_prefix("cargo ").unwrap();
        let directive = rest.replacen(&format!(" --example {name}"), "", 1);
        let second = CargoCommand::from_str(&directive, name).unwrap();
        assert_eq!(first, second);
        assert_eq!(second.as_string().unwrap(), line);
    }
}

#[test]
fn command_line_is_no_directive() {
    // read as a directive, a command line has `cargo` for its run verb and
    // the example's name among its arguments
    let first = CargoCommand::from_str("run --release", "x").unwrap();
    let line = first.as_string().unwrap();
    assert_eq!(line, "cargo run --example x --release");
    let second = CargoCommand::from_str(&line, "x").unwrap();
    assert_eq!(second.run(), "cargo");
    assert_eq!(
        second.args(),
        &vec![
            (String::from("run"), String::from("--example")),
            (String::from("x"), String::from("--release"))
        ]
    );
    assert_eq!(*second.build(), BuildType::Default);
    assert_ne!(first, second);
}

#[test]
fn escaped_features_do_not_round_trip() {
    let first = CargoCommand::from_str("run --features \"a\\\\b\" --release", "x").unwrap();
    assert_eq!(first.features(), &vec![String::from("a\\b")]);
    assert_eq!(
        first.as_string().unwrap(),
        "cargo run --example x --features \"a\\b\" --release"
    );
    let second = CargoCommand::from_str("run --features \"a\\b\" --release", "x").unwrap();
    assert_eq!(second.features(), &vec![String::from("ab")]);
}
