//! Command resolution and template expansion for running the examples of a
//! package: one run command per example, merged from the example's own
//! directive and the manifest, expanded over the argument lists given for
//! its placeholders, with the outcomes of the runs counted.

pub mod cargo_toml;
pub mod command_line;
pub mod commands;
pub mod errors;
pub mod outcomes;
pub mod parsing;
pub mod plan;
pub mod resolver;
pub mod round_trip;
pub mod rust_file;
pub mod templates;
pub mod text;
