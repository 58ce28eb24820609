//! From the examples of a package to the command lines that are to be run.

use vstd::prelude::*;
use crate::cargo_toml::{
    Manifest, get_default_build, load_build, load_required_features,
};
use crate::commands::{BuildType, BuildModel, CommandModel};
use crate::command_line::{pair_count, subcommand_name, table_with_pairs};
use crate::errors::{ExampleError, ErrorModel, outcome};
use crate::resolver::{get_example_command, resolved};
use crate::rust_file::file_command;
use crate::templates::{TemplateArgs, TableModel, expand_templates, expanded};
use crate::text::{texts, lemma_texts_push};

verus! {

/// The file of an example.
#[derive(Debug)]
pub struct ExampleFile {
    /// The example's name: the file's name without its extension
    pub name: String,
    /// The file's text
    pub contents: String,
}

/// The command after the build type that the manifest sets for the example,
/// if it sets one, was held against it.
pub open spec fn with_example_build(command: CommandModel, build: Option<BuildModel>) -> Result<
    CommandModel,
    ErrorModel,
> {
    match build {
        None => Ok(command),
        Some(b) => command.with_build(b),
    }
}

/// The command of an example: the one that its file and the manifest agree
/// on, with the build type that the manifest sets for the example, else the
/// default build type, and with the features that the example requires.
pub open spec fn example_command(
    contents: Seq<char>,
    manifest: Manifest,
    default_build: BuildModel,
    example_name: Seq<char>,
) -> Result<CommandModel, ErrorModel> {
    match file_command(contents, example_name) {
        Err(e) => Err(e),
        Ok(in_file) => match manifest.example_command(example_name) {
            Err(e) => Err(e),
            Ok(in_manifest) => match resolved(in_file, in_manifest, example_name) {
                Err(e) => Err(e),
                Ok(command) => match manifest.example_build(example_name) {
                    Err(e) => Err(e),
                    Ok(build) => match with_example_build(command, build) {
                        Err(e) => Err(e),
                        Ok(built) => match built.with_default_build(default_build) {
                            Err(e) => Err(e),
                            Ok(decided) => decided.with_required_features(
                                manifest.required_features(example_name),
                            ),
                        },
                    },
                },
            },
        },
    }
}

/// The command line of an example.
pub open spec fn example_command_line(
    contents: Seq<char>,
    manifest: Manifest,
    default_build: BuildModel,
    example_name: Seq<char>,
) -> Result<Seq<char>, ErrorModel> {
    match example_command(contents, manifest, default_build, example_name) {
        Err(e) => Err(e),
        Ok(command) => command.rendered(),
    }
}

/// The command lines of the files from position `from` on, after those in
/// `so_far`.
pub open spec fn command_lines_from(
    files: Seq<ExampleFile>,
    manifest: Manifest,
    default_build: BuildModel,
    from: int,
    so_far: Seq<Seq<char>>,
) -> Result<Seq<Seq<char>>, ErrorModel>
    decreases files.len() - from,
{
    if from < 0 || from >= files.len() {
        Ok(so_far)
    } else {
        match example_command_line(
            files[from].contents@,
            manifest,
            default_build,
            files[from].name@,
        ) {
            Err(e) => Err(e),
            Ok(line) => command_lines_from(
                files,
                manifest,
                default_build,
                from + 1,
                so_far.push(line),
            ),
        }
    }
}

/// The template arguments of a run: those of the manifest, then those of the
/// command line, which take the place of the manifest's under the same name.
pub open spec fn template_arguments(manifest: Manifest, input: Seq<Seq<char>>) -> Result<
    TableModel,
    ErrorModel,
> {
    match manifest.arguments(TableModel::empty()) {
        Err(e) => Err(e),
        Ok(table) => if input.len() >= 1 && input[0] == subcommand_name() {
            Ok(table_with_pairs(table, input, pair_count(input)))
        } else {
            Err(ErrorModel::NotSubcommand)
        },
    }
}

/// The command lines that are to be run for a package: one for each example,
/// expanded over the template arguments.
pub open spec fn planned_commands(
    files: Seq<ExampleFile>,
    manifest: Manifest,
    input: Seq<Seq<char>>,
) -> Result<Seq<Seq<char>>, ErrorModel> {
    match manifest.default_build() {
        Err(e) => Err(e),
        Ok(default_build) => match command_lines_from(
            files,
            manifest,
            default_build,
            0,
            Seq::empty(),
        ) {
            Err(e) => Err(e),
            Ok(lines) => match template_arguments(manifest, input) {
                Err(e) => Err(e),
                Ok(table) => Ok(expanded(lines, table)),
            },
        },
    }
}

/// Resolve the command of an example from its file's text and the manifest,
/// and render it.
pub fn resolve_example(
    contents: &str,
    manifest: &Manifest,
    default_build: &BuildType,
    eg: &str,
) -> (r: Result<String, ExampleError>)
    ensures
        outcome(r) == example_command_line(contents@, *manifest, default_build@, eg@),
{
    let in_file = match crate::rust_file::load_command(contents, eg) {
        Ok(c) => c,
        Err(e) => {
            return Err(e);
        },
    };
    let in_manifest = match crate::cargo_toml::load_command(manifest, eg) {
        Ok(c) => c,
        Err(e) => {
            return Err(e);
        },
    };
    let mut c = match get_example_command(in_file, in_manifest, eg) {
        Ok(c) => c,
        Err(e) => {
            return Err(e);
        },
    };
    match load_build(manifest, eg) {
        Err(e) => {
            return Err(e);
        },
        Ok(None) => {},
        Ok(Some(b)) => {
            match c.set_build_type(&b) {
                Err(e) => {
                    return Err(e);
                },
                Ok(()) => {},
            }
        },
    }
    match c.set_default_build_type(default_build) {
        Err(e) => {
            return Err(e);
        },
        Ok(()) => {},
    }
    let required = load_required_features(manifest, eg);
    match c.set_required_features(required.as_slice()) {
        Err(e) => {
            return Err(e);
        },
        Ok(()) => {},
    }
    c.as_string()
}

/// Plan the run of a package's examples: resolve each example's command,
/// then substitute all template arguments, those of the manifest and those
/// of the command line.
pub fn plan_examples(files: &Vec<ExampleFile>, manifest: &Manifest, input_args: &Vec<String>) -> (r:
    Result<Vec<String>, ExampleError>)
    ensures
        match planned_commands(files@, *manifest, texts(input_args@)) {
            Ok(commands) => r is Ok && texts(r->Ok_0@) == commands,
            Err(e) => r is Err && r->Err_0@ == e,
        },
{
    let default_build = match get_default_build(manifest) {
        Ok(b) => b,
        Err(e) => {
            return Err(e);
        },
    };
    let mut examples: Vec<String> = Vec::new();
    let mut i: usize = 0;
    assert(texts(examples@) =~= Seq::<Seq<char>>::empty());
    while i < files.len()
        invariant
            i <= files.len(),
            manifest.default_build() == Ok::<BuildModel, ErrorModel>(default_build@),
            command_lines_from(files@, *manifest, default_build@, 0, Seq::empty())
                == command_lines_from(
                files@,
                *manifest,
                default_build@,
                i as int,
                texts(examples@),
            ),
        decreases files.len() - i,
    {
        let line = match resolve_example(
            files[i].contents.as_str(),
            manifest,
            &default_build,
            files[i].name.as_str(),
        ) {
            Ok(line) => line,
            Err(e) => {
                return Err(e);
            },
        };
        proof {
            lemma_texts_push(examples@, line);
        }
        examples.push(line);
        i += 1;
    }
    let mut template_args = TemplateArgs::new();
    match crate::cargo_toml::load_args(&mut template_args, manifest) {
        Err(e) => {
            return Err(e);
        },
        Ok(()) => {},
    }
    match crate::command_line::load_args(&mut template_args, input_args) {
        Err(e) => {
            return Err(e);
        },
        Ok(_) => {},
    }
    Ok(expand_templates(examples, &template_args))
}

/// The default build type of a manifest is a decided one.
pub proof fn lemma_default_build_is_decided(manifest: Manifest)
    requires
        manifest.default_build() is Ok,
    ensures
        manifest.default_build()->Ok_0.is_concrete(),
{
}

/// The build type of an example's command is decided once the command is
/// resolved, so the command has a command line: rendering never meets an
/// undecided build type.
pub proof fn lemma_resolved_command_renders(
    contents: Seq<char>,
    manifest: Manifest,
    default_build: BuildModel,
    example_name: Seq<char>,
)
    requires
        example_command(contents, manifest, default_build, example_name) is Ok,
    ensures
        example_command(contents, manifest, default_build, example_name)->Ok_0.build.is_concrete(),
        example_command_line(contents, manifest, default_build, example_name) is Ok,
{
}

} // verus!
