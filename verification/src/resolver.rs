//! Choosing between the command that an example's file gives and the one
//! that the manifest gives.

use vstd::prelude::*;
use crate::commands::{CargoCommand, CommandModel};
use crate::errors::{ExampleError, ErrorModel, outcome};

verus! {

/// A command that may be absent, as a model.
pub open spec fn model_of(command: Option<CargoCommand>) -> Option<CommandModel> {
    match command {
        Some(c) => Some(c@),
        None => None,
    }
}

/// The command that holds for an example. A single source is taken as it is;
/// two sources must give the same command; with no source the example is run
/// by its bare command.
pub open spec fn resolved(
    file_command: Option<CommandModel>,
    manifest_command: Option<CommandModel>,
    example_name: Seq<char>,
) -> Result<CommandModel, ErrorModel> {
    match (file_command, manifest_command) {
        (Some(f), Some(m)) => if f == m {
            Ok(f)
        } else {
            Err(ErrorModel::ConflictingCommandSources(example_name))
        },
        (Some(f), None) => Ok(f),
        (None, Some(m)) => Ok(m),
        (None, None) => Ok(CommandModel::bare(example_name)),
    }
}

/// Get example command for a file
pub fn get_example_command(
    file_command: Option<CargoCommand>,
    cargo_toml_command: Option<CargoCommand>,
    eg: &str,
) -> (r: Result<CargoCommand, ExampleError>)
    ensures
        outcome(r) == resolved(model_of(file_command), model_of(cargo_toml_command), eg@),
{
    match file_command {
        Some(c) => {
            match cargo_toml_command {
                Some(c2) => {
                    if c != c2 {
                        return Err(ExampleError::ConflictingCommandSources(eg.to_owned()));
                    }
                },
                None => {},
            }
            Ok(c)
        },
        None => match cargo_toml_command {
            Some(c) => Ok(c),
            None => Ok(CargoCommand::new(eg.to_owned())),
        },
    }
}

} // verus!
