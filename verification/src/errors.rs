//! The ways in which resolving an example's command can fail.

use vstd::prelude::*;

verus! {

/// Why a command, a manifest or the arguments were rejected.
#[derive(Debug, PartialEq, Eq)]
pub enum ExampleError {
    /// A quoted token lacks its closing quote, or ends in a lone backslash.
    FormatError,
    /// The command has no run verb.
    EmptyCommand,
    /// The build type is set twice within one command.
    DuplicateBuildType,
    /// `--profile` is the last token.
    MissingProfileName,
    /// `--features` is the last token.
    MissingFeatureList,
    /// A key is the last token and has no value.
    DanglingKey,
    /// A command whose build type is still unset was to be rendered.
    UnresolvedBuildType,
    /// The unset build type was given as a default.
    InvalidDefault,
    /// Two sources set different build types for the named example.
    ConflictingBuildType(String),
    /// The feature (first) is required by the named example (second) but
    /// missing from its command's features.
    MissingRequiredFeature(String, String),
    /// The example's file and the manifest give different commands for the
    /// named example.
    ConflictingCommandSources(String),
    /// The manifest's table of template arguments is not a table.
    ArgumentsNotTable,
    /// The named template argument is not an array of strings.
    ArgumentNotStrings(String),
    /// A build type in the manifest is not a string.
    BuildNotString,
    /// A command in the manifest is not a string.
    CommandNotString,
    /// The arguments do not start with the subcommand's name.
    NotSubcommand,
}

/// What an `ExampleError` says, with texts in place of strings.
pub enum ErrorModel {
    FormatError,
    EmptyCommand,
    DuplicateBuildType,
    MissingProfileName,
    MissingFeatureList,
    DanglingKey,
    UnresolvedBuildType,
    InvalidDefault,
    ConflictingBuildType(Seq<char>),
    MissingRequiredFeature(Seq<char>, Seq<char>),
    ConflictingCommandSources(Seq<char>),
    ArgumentsNotTable,
    ArgumentNotStrings(Seq<char>),
    BuildNotString,
    CommandNotString,
    NotSubcommand,
}

impl View for ExampleError {
    type V = ErrorModel;

    open spec fn view(&self) -> ErrorModel {
        match self {
            ExampleError::FormatError => ErrorModel::FormatError,
            ExampleError::EmptyCommand => ErrorModel::EmptyCommand,
            ExampleError::DuplicateBuildType => ErrorModel::DuplicateBuildType,
            ExampleError::MissingProfileName => ErrorModel::MissingProfileName,
            ExampleError::MissingFeatureList => ErrorModel::MissingFeatureList,
            ExampleError::DanglingKey => ErrorModel::DanglingKey,
            ExampleError::UnresolvedBuildType => ErrorModel::UnresolvedBuildType,
            ExampleError::InvalidDefault => ErrorModel::InvalidDefault,
            ExampleError::ConflictingBuildType(e) => ErrorModel::ConflictingBuildType(e@),
            ExampleError::MissingRequiredFeature(f, e) => ErrorModel::MissingRequiredFeature(
                f@,
                e@,
            ),
            ExampleError::ConflictingCommandSources(e) => ErrorModel::ConflictingCommandSources(
                e@,
            ),
            ExampleError::ArgumentsNotTable => ErrorModel::ArgumentsNotTable,
            ExampleError::ArgumentNotStrings(k) => ErrorModel::ArgumentNotStrings(k@),
            ExampleError::BuildNotString => ErrorModel::BuildNotString,
            ExampleError::CommandNotString => ErrorModel::CommandNotString,
            ExampleError::NotSubcommand => ErrorModel::NotSubcommand,
        }
    }
}

/// A result with both sides taken by their views.
pub open spec fn outcome<T: View, E: View>(r: Result<T, E>) -> Result<T::V, E::V> {
    match r {
        Ok(t) => Ok(t@),
        Err(e) => Err(e@),
    }
}

impl ErrorModel {
    /// What is told to the user of an error.
    pub open spec fn message(self) -> Seq<char> {
        match self {
            ErrorModel::FormatError => "Quoted string must end with its quote and not with a backslash"@,
            ErrorModel::EmptyCommand => "Command cannot be empty"@,
            ErrorModel::DuplicateBuildType => "Cannot set build type twice"@,
            ErrorModel::MissingProfileName => "Profile cannot be blank"@,
            ErrorModel::MissingFeatureList => "Features cannot be blank"@,
            ErrorModel::DanglingKey => "Keys and values must come in pairs"@,
            ErrorModel::UnresolvedBuildType => "Cannot use default as run mode."@,
            ErrorModel::InvalidDefault => "Cannot set default build type to BuildType::Default"@,
            ErrorModel::ConflictingBuildType(example) => "Inconsistent build types set for example \""@
                + example + "\""@,
            ErrorModel::MissingRequiredFeature(feature, example) => "Required feature \""@ + feature
                + "\" is missing from list of features in command for example \""@ + example
                + "\""@,
            ErrorModel::ConflictingCommandSources(example) => "Commands set in file and Cargo.toml do not match for example \""@
                + example + "\""@,
            ErrorModel::ArgumentsNotTable => "Could not parse package.metadata.templated-examples"@,
            ErrorModel::ArgumentNotStrings(key) => "Value of \""@ + key
                + "\" in package.metadata.templated-examples must be an array of strings"@,
            ErrorModel::BuildNotString => "Build type must be a string"@,
            ErrorModel::CommandNotString => "Command must be a string"@,
            ErrorModel::NotSubcommand => "The first argument must be \"templated-examples\""@,
        }
    }
}

impl ExampleError {
    /// What is told to the user of the error.
    pub fn message(&self) -> (text: String)
        ensures
            text@ == self@.message(),
    {
        match self {
            ExampleError::FormatError => "Quoted string must end with its quote and not with a backslash".to_owned(),
            ExampleError::EmptyCommand => "Command cannot be empty".to_owned(),
            ExampleError::DuplicateBuildType => "Cannot set build type twice".to_owned(),
            ExampleError::MissingProfileName => "Profile cannot be blank".to_owned(),
            ExampleError::MissingFeatureList => "Features cannot be blank".to_owned(),
            ExampleError::DanglingKey => "Keys and values must come in pairs".to_owned(),
            ExampleError::UnresolvedBuildType => "Cannot use default as run mode.".to_owned(),
            ExampleError::InvalidDefault => "Cannot set default build type to BuildType::Default".to_owned(),
            ExampleError::ConflictingBuildType(example) => {
                let mut text = "Inconsistent build types set for example \"".to_owned();
                text.append(example.as_str());
                text.append("\"");
                text
            },
            ExampleError::MissingRequiredFeature(feature, example) => {
                let mut text = "Required feature \"".to_owned();
                text.append(feature.as_str());
                text.append("\" is missing from list of features in command for example \"");
                text.append(example.as_str());
                text.append("\"");
                text
            },
            ExampleError::ConflictingCommandSources(example) => {
                let mut text = "Commands set in file and Cargo.toml do not match for example \"".to_owned();
                text.append(example.as_str());
                text.append("\"");
                text
            },
            ExampleError::ArgumentsNotTable => "Could not parse package.metadata.templated-examples".to_owned(),
            ExampleError::ArgumentNotStrings(key) => {
                let mut text = "Value of \"".to_owned();
                text.append(key.as_str());
                text.append(
                    "\" in package.metadata.templated-examples must be an array of strings",
                );
                text
            },
            ExampleError::BuildNotString => "Build type must be a string".to_owned(),
            ExampleError::CommandNotString => "Command must be a string".to_owned(),
            ExampleError::NotSubcommand => "The first argument must be \"templated-examples\"".to_owned(),
        }
    }
}

} // verus!
