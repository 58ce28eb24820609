//! Functions to read information from Cargo.toml

use vstd::prelude::*;
use crate::commands::{BuildType, BuildModel, CargoCommand, CommandModel};
use crate::errors::{ExampleError, ErrorModel};
use crate::templates::{TemplateArgs, TableModel, table_with};
use crate::text::{texts, copy_strings};

verus! {

/// A value of the manifest's metadata.
#[derive(Debug)]
pub enum Value {
    /// A string
    Text(String),
    /// An array of values
    Array(Vec<Value>),
    /// A table: keys with their values, no key twice
    Table(Vec<(String, Value)>),
    /// Any other value: a number, a boolean, a date
    Other,
}

/// An example that the manifest declares.
#[derive(Debug)]
pub struct Example {
    /// The example's name, if the manifest gives one
    pub name: Option<String>,
    /// The features that the example requires
    pub required_features: Vec<String>,
}

/// What is read from a manifest.
#[derive(Debug)]
pub struct Manifest {
    /// The package's metadata: the table `package.metadata`
    pub metadata: Option<Value>,
    /// The examples that the manifest declares
    pub examples: Vec<Example>,
    /// The members of the workspace, where the manifest is a workspace's
    pub workspace: Option<Vec<String>>,
}

/// The value of the first entry with the given key.
pub open spec fn first_with_key(entries: Seq<(String, Value)>, key: Seq<char>, from: int) -> Option<
    Value,
>
    decreases entries.len() - from,
{
    if from < 0 || from >= entries.len() {
        None
    } else if entries[from].0@ == key {
        Some(entries[from].1)
    } else {
        first_with_key(entries, key, from + 1)
    }
}

/// The texts of the values of an array of strings; none where the value is no
/// array or one of its values is no string.
pub open spec fn strings_of(value: Value) -> Option<Seq<Seq<char>>> {
    match value {
        Value::Array(items) => if forall|i: int| 0 <= i < items@.len() ==> items@[i] is Text {
            Some(Seq::new(items@.len(), |i: int| items@[i]->Text_0@))
        } else {
            None
        },
        _ => None,
    }
}

impl Value {
    /// The value under `key` where this value is a table that has the key.
    pub open spec fn entry(self, key: Seq<char>) -> Option<Value> {
        match self {
            Value::Table(entries) => first_with_key(entries@, key, 0),
            _ => None,
        }
    }

    /// The value under `key` where this value is a table that has the key.
    pub fn get(&self, key: &str) -> (found: Option<&Value>)
        ensures
            match found {
                Some(v) => self.entry(key@) == Some(*v),
                None => self.entry(key@) is None,
            },
    {
        match self {
            Value::Table(entries) => {
                let wanted = key.to_owned();
                let mut i: usize = 0;
                while i < entries.len()
                    invariant
                        i <= entries.len(),
                        wanted@ == key@,
                        self.entry(key@) == first_with_key(entries@, key@, 0),
                        first_with_key(entries@, key@, 0) == first_with_key(
                            entries@,
                            key@,
                            i as int,
                        ),
                    decreases entries.len() - i,
                {
                    if entries[i].0 == wanted {
                        return Some(&entries[i].1);
                    }
                    i += 1;
                }
                None
            },
            _ => None,
        }
    }
}

/// The table after the manifest's template arguments from position `from`
/// on were put into it. The entry for the default build type is passed over;
/// every other entry must be an array of strings.
pub open spec fn arguments_from(table: TableModel, entries: Seq<(String, Value)>, from: int) -> Result<
    TableModel,
    ErrorModel,
>
    decreases entries.len() - from,
{
    if from < 0 || from >= entries.len() {
        Ok(table)
    } else if entries[from].0@ == "build"@ {
        arguments_from(table, entries, from + 1)
    } else {
        match strings_of(entries[from].1) {
            None => Err(ErrorModel::ArgumentNotStrings(entries[from].0@)),
            Some(values) => arguments_from(
                table_with(table, entries[from].0@, values),
                entries,
                from + 1,
            ),
        }
    }
}

/// The first of the examples from position `from` on that has the given
/// name.
pub open spec fn first_named(examples: Seq<Example>, name: Seq<char>, from: int) -> Option<Example>
    decreases examples.len() - from,
{
    if from < 0 || from >= examples.len() {
        None
    } else if examples[from].name is Some && examples[from].name->Some_0@ == name {
        Some(examples[from])
    } else {
        first_named(examples, name, from + 1)
    }
}

/// The build type that a setting of the manifest names.
pub open spec fn build_of_setting(setting: Option<Value>) -> Result<Option<BuildModel>, ErrorModel> {
    match setting {
        None => Ok(None),
        Some(Value::Text(s)) => Ok(Some(BuildModel::named(s@))),
        Some(_) => Err(ErrorModel::BuildNotString),
    }
}

impl Manifest {
    /// The value of `templated-examples` in the package's metadata.
    pub open spec fn template_table(self) -> Option<Value> {
        match self.metadata {
            Some(m) => m.entry("templated-examples"@),
            None => None,
        }
    }

    /// The value of `example.<name>.templated-examples.<key>` in the
    /// package's metadata.
    pub open spec fn example_setting(self, example_name: Seq<char>, key: Seq<char>) -> Option<
        Value,
    > {
        match self.metadata {
            Some(m) => match m.entry("example"@) {
                Some(examples) => match examples.entry(example_name) {
                    Some(example) => match example.entry("templated-examples"@) {
                        Some(settings) => settings.entry(key),
                        None => None,
                    },
                    None => None,
                },
                None => None,
            },
            None => None,
        }
    }

    /// The table after the manifest's template arguments were put into it.
    pub open spec fn arguments(self, table: TableModel) -> Result<TableModel, ErrorModel> {
        match self.template_table() {
            None => Ok(table),
            Some(Value::Table(entries)) => arguments_from(table, entries@, 0),
            Some(_) => Err(ErrorModel::ArgumentsNotTable),
        }
    }

    /// The build type for the examples whose commands name none: the one that
    /// the template table gives under `build`, else release.
    pub open spec fn default_build(self) -> Result<BuildModel, ErrorModel> {
        match self.template_table() {
            None => Ok(BuildModel::Release),
            Some(Value::Table(entries)) => match first_with_key(entries@, "build"@, 0) {
                None => Ok(BuildModel::Release),
                Some(Value::Text(s)) => Ok(BuildModel::named(s@)),
                Some(_) => Err(ErrorModel::BuildNotString),
            },
            Some(_) => Err(ErrorModel::ArgumentsNotTable),
        }
    }

    /// The features that the manifest requires for an example: those of the
    /// first example of that name, none where there is no such example.
    pub open spec fn required_features(self, example_name: Seq<char>) -> Seq<Seq<char>> {
        match first_named(self.examples@, example_name, 0) {
            Some(example) => texts(example.required_features@),
            None => Seq::empty(),
        }
    }

    /// The build type that the manifest sets for an example.
    pub open spec fn example_build(self, example_name: Seq<char>) -> Result<
        Option<BuildModel>,
        ErrorModel,
    > {
        build_of_setting(self.example_setting(example_name, "build"@))
    }

    /// The command that the manifest gives for an example, with the build
    /// type that it sets for the example.
    pub open spec fn example_command(self, example_name: Seq<char>) -> Result<
        Option<CommandModel>,
        ErrorModel,
    > {
        match self.example_setting(example_name, "command"@) {
            None => Ok(None),
            Some(Value::Text(c)) => match CommandModel::parsed(c@, example_name) {
                Err(e) => Err(e),
                Ok(command) => match self.example_build(example_name) {
                    Err(e) => Err(e),
                    Ok(None) => Ok(Some(command)),
                    Ok(Some(build)) => match command.with_build(build) {
                        Err(e) => Err(e),
                        Ok(built) => Ok(Some(built)),
                    },
                },
            },
            Some(_) => Err(ErrorModel::CommandNotString),
        }
    }
}

/// The values of an array of strings.
fn strings(value: &Value) -> (list: Option<Vec<String>>)
    ensures
        match list {
            Some(l) => strings_of(*value) == Some(texts(l@)),
            None => strings_of(*value) is None,
        },
{
    match value {
        Value::Array(items) => {
            let mut list: Vec<String> = Vec::new();
            let mut i: usize = 0;
            assert(texts(list@) =~= Seq::new(0nat, |j: int| items@[j]->Text_0@));
            while i < items.len()
                invariant
                    i <= items.len(),
                    *value == Value::Array(*items),
                    forall|j: int| 0 <= j < i ==> (#[trigger] items@[j]) is Text,
                    texts(list@) == Seq::new(i as nat, |j: int| items@[j]->Text_0@),
                decreases items.len() - i,
            {
                match &items[i] {
                    Value::Text(s) => {
                        let ghost before = texts(list@);
                        list.push(s.clone());
                        assert(texts(list@) =~= before.push(s@));
                        assert(before.push(s@) =~= Seq::new(
                            (i + 1) as nat,
                            |j: int| items@[j]->Text_0@,
                        ));
                    },
                    _ => {
                        return None;
                    },
                }
                i += 1;
            }
            Some(list)
        },
        _ => None,
    }
}

/// The value of `example.<name>.templated-examples.<key>` in the package's
/// metadata.
fn example_setting<'a>(manifest: &'a Manifest, eg: &str, key: &str) -> (found: Option<&'a Value>)
    ensures
        match found {
            Some(v) => manifest.example_setting(eg@, key@) == Some(*v),
            None => manifest.example_setting(eg@, key@) is None,
        },
{
    match &manifest.metadata {
        Some(m) => match m.get("example") {
            Some(examples) => match examples.get(eg) {
                Some(example) => match example.get("templated-examples") {
                    Some(settings) => settings.get(key),
                    None => None,
                },
                None => None,
            },
            None => None,
        },
        None => None,
    }
}

/// The value of `templated-examples` in the package's metadata.
fn template_table(manifest: &Manifest) -> (found: Option<&Value>)
    ensures
        match found {
            Some(v) => manifest.template_table() == Some(*v),
            None => manifest.template_table() is None,
        },
{
    match &manifest.metadata {
        Some(m) => m.get("templated-examples"),
        None => None,
    }
}

/// Load template arguments from the package.metadata.templated-examples
/// section of Cargo.toml
pub fn load_args(args: &mut TemplateArgs, manifest: &Manifest) -> (r: Result<(), ExampleError>)
    requires
        old(args).wf(),
    ensures
        final(args).wf(),
        match manifest.arguments(old(args)@) {
            Ok(table) => r is Ok && final(args)@ == table,
            Err(e) => r is Err && r->Err_0@ == e && final(args)@ == old(args)@,
        },
{
    match template_table(manifest) {
        None => Ok(()),
        Some(Value::Table(entries)) => {
            let mut filled = args.copy();
            let build = "build".to_owned();
            let mut i: usize = 0;
            while i < entries.len()
                invariant
                    i <= entries.len(),
                    build@ == "build"@,
                    filled.wf(),
                    *args == *old(args),
                    args.wf(),
                    manifest.arguments(args@) == arguments_from(args@, entries@, 0),
                    arguments_from(old(args)@, entries@, 0) == arguments_from(
                        filled@,
                        entries@,
                        i as int,
                    ),
                decreases entries.len() - i,
            {
                if entries[i].0 != build {
                    match strings(&entries[i].1) {
                        None => {
                            return Err(ExampleError::ArgumentNotStrings(entries[i].0.clone()));
                        },
                        Some(values) => {
                            filled.insert(entries[i].0.clone(), values);
                        },
                    }
                }
                i += 1;
            }
            *args = filled;
            Ok(())
        },
        Some(_) => Err(ExampleError::ArgumentsNotTable),
    }
}

/// Get default build type
pub fn get_default_build(manifest: &Manifest) -> (r: Result<BuildType, ExampleError>)
    ensures
        match manifest.default_build() {
            Ok(b) => r is Ok && r->Ok_0@ == b,
            Err(e) => r is Err && r->Err_0@ == e,
        },
{
    match template_table(manifest) {
        None => Ok(BuildType::Release),
        Some(table) => match table {
            Value::Table(_) => match table.get("build") {
                None => Ok(BuildType::Release),
                Some(Value::Text(s)) => Ok(BuildType::from_str(s.as_str())),
                Some(_) => Err(ExampleError::BuildNotString),
            },
            _ => Err(ExampleError::ArgumentsNotTable),
        },
    }
}

/// Load required features for an example
pub fn load_required_features(manifest: &Manifest, eg: &str) -> (features: Vec<String>)
    ensures
        texts(features@) == manifest.required_features(eg@),
{
    let wanted = eg.to_owned();
    let mut i: usize = 0;
    while i < manifest.examples.len()
        invariant
            i <= manifest.examples.len(),
            wanted@ == eg@,
            first_named(manifest.examples@, eg@, 0) == first_named(
                manifest.examples@,
                eg@,
                i as int,
            ),
        decreases manifest.examples.len() - i,
    {
        match &manifest.examples[i].name {
            Some(name) => {
                if *name == wanted {
                    return copy_strings(manifest.examples[i].required_features.as_slice());
                }
            },
            None => {},
        }
        i += 1;
    }
    let none: Vec<String> = Vec::new();
    assert(texts(none@) =~= Seq::<Seq<char>>::empty());
    none
}

/// Load build from Cargo.toml section
/// [package.metadata.example.{{eg}}.templated-examples]
pub fn load_build(manifest: &Manifest, eg: &str) -> (r: Result<Option<BuildType>, ExampleError>)
    ensures
        match manifest.example_build(eg@) {
            Ok(Some(b)) => r is Ok && r->Ok_0 is Some && r->Ok_0->Some_0@ == b,
            Ok(None) => r is Ok && r->Ok_0 is None,
            Err(e) => r is Err && r->Err_0@ == e,
        },
{
    match example_setting(manifest, eg, "build") {
        None => Ok(None),
        Some(Value::Text(s)) => Ok(Some(BuildType::from_str(s.as_str()))),
        Some(_) => Err(ExampleError::BuildNotString),
    }
}

/// Load command from Cargo.toml section
/// [package.metadata.example.{{eg}}.templated-examples]
pub fn load_command(manifest: &Manifest, eg: &str) -> (r: Result<
    Option<CargoCommand>,
    ExampleError,
>)
    ensures
        match manifest.example_command(eg@) {
            Ok(Some(c)) => r is Ok && r->Ok_0 is Some && r->Ok_0->Some_0@ == c,
            Ok(None) => r is Ok && r->Ok_0 is None,
            Err(e) => r is Err && r->Err_0@ == e,
        },
{
    match example_setting(manifest, eg, "command") {
        None => Ok(None),
        Some(Value::Text(c)) => {
            let mut cmd = match CargoCommand::from_str(c.as_str(), eg) {
                Ok(cmd) => cmd,
                Err(e) => {
                    return Err(e);
                },
            };
            match load_build(manifest, eg) {
                Err(e) => {
                    return Err(e);
                },
                Ok(None) => {},
                Ok(Some(b)) => {
                    match cmd.set_build_type(&b) {
                        Err(e) => {
                            return Err(e);
                        },
                        Ok(()) => {},
                    }
                },
            }
            Ok(Some(cmd))
        },
        Some(_) => Err(ExampleError::CommandNotString),
    }
}

} // verus!
