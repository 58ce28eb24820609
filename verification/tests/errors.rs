use cargo_templated_examples::errors::ExampleError;

#[test]
fn messages() {
    assert_eq!(
        ExampleError::EmptyCommand.message(),
        "Command cannot be empty"
    );
    assert_eq!(
        ExampleError::DuplicateBuildType.message(),
        "Cannot set build type twice"
    );
    assert_eq!(
        ExampleError::MissingProfileName.message(),
        "Profile cannot be blank"
    );
    assert_eq!(
        ExampleError::MissingFeatureList.message(),
        "Features cannot be blank"
    );
    assert_eq!(
        ExampleError::DanglingKey.message(),
        "Keys and values must come in pairs"
    );
    assert_eq!(
        ExampleError::UnresolvedBuildType.message(),
        "Cannot use default as run mode."
    );
    assert_eq!(
        ExampleError::InvalidDefault.message(),
        "Cannot set default build type to BuildType::Default"
    );
    assert_eq!(
        ExampleError::ConflictingBuildType(String::from("eg")).message(),
        "Inconsistent build types set for example \"eg\""
    );
    assert_eq!(
        ExampleError::MissingRequiredFeature(String::from("one"), String::from("eg")).message(),
        "Required feature \"one\" is missing from list of features in command for example \"eg\""
    );
    assert_eq!(
        ExampleError::ConflictingCommandSources(String::from("eg")).message(),
        "Commands set in file and Cargo.toml do not match for example \"eg\""
    );
    assert_eq!(
        ExampleError::ArgumentsNotTable.message(),
        "Could not parse package.metadata.templated-examples"
    );
    assert_eq!(
        ExampleError::ArgumentNotStrings(String::from("N")).message(),
        "Value of \"N\" in package.metadata.templated-examples must be an array of strings"
    );
    assert_eq!(
        ExampleError::BuildNotString.message(),
        "Build type must be a string"
    );
    assert_eq!(
        ExampleError::CommandNotString.message(),
        "Command must be a string"
    );
    assert_eq!(
        ExampleError::NotSubcommand.message(),
        "The first argument must be \"templated-examples\""
    );
    assert_eq!(
        ExampleError::FormatError.message(),
        "Quoted string must end with its quote and not with a backslash"
    );
}
