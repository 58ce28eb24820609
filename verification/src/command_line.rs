//! Functions to read command line input

use vstd::prelude::*;
use crate::errors::{ExampleError, ErrorModel};
use crate::templates::{TemplateArgs, TableModel, table_with};
use crate::text::{split, split_on, texts};

verus! {

/// The name of the subcommand, which comes first among the arguments.
pub open spec fn subcommand_name() -> Seq<char> {
    "templated-examples"@
}

/// The key whose value selects features and is no template argument.
pub open spec fn features_key() -> Seq<char> {
    "--features"@
}

/// The number of pairs of a key and a value that follow the subcommand's
/// name. A key without a value at the end is not counted.
pub open spec fn pair_count(input: Seq<Seq<char>>) -> int {
    (input.len() - 1) / 2
}

/// The table after the first `n` pairs of the arguments were put into it:
/// each key but the one for features, with its value split at the commas.
pub open spec fn table_with_pairs(table: TableModel, input: Seq<Seq<char>>, n: int) -> TableModel
    decreases n,
{
    if n <= 0 {
        table
    } else {
        let before = table_with_pairs(table, input, n - 1);
        if input[2 * n - 1] == features_key() {
            before
        } else {
            table_with(before, input[2 * n - 1], split_on(input[2 * n], ','))
        }
    }
}

/// The features that the first `n` pairs of the arguments select: those of
/// the last pair whose key is the one for features, split at the commas.
pub open spec fn selected_features(input: Seq<Seq<char>>, n: int) -> Option<Seq<Seq<char>>>
    decreases n,
{
    if n <= 0 {
        None
    } else if input[2 * n - 1] == features_key() {
        Some(split_on(input[2 * n], ','))
    } else {
        selected_features(input, n - 1)
    }
}

/// A list of strings that may be absent, as texts.
pub open spec fn texts_of(list: Option<Vec<String>>) -> Option<Seq<Seq<char>>> {
    match list {
        Some(l) => Some(texts(l@)),
        None => None,
    }
}

/// Load template arguments input via the command line: the arguments are the
/// subcommand's name and then keys, each followed by its values with commas
/// between them. Returns the features selected by the key for features.
pub fn load_args(args: &mut TemplateArgs, input_args: &Vec<String>) -> (r: Result<
    Option<Vec<String>>,
    ExampleError,
>)
    requires
        old(args).wf(),
    ensures
        final(args).wf(),
        input_args.len() >= 1 && input_args[0]@ == subcommand_name() ==> r is Ok && final(args)@
            == table_with_pairs(old(args)@, texts(input_args@), pair_count(texts(input_args@)))
            && texts_of(r->Ok_0) == selected_features(
            texts(input_args@),
            pair_count(texts(input_args@)),
        ),
        !(input_args.len() >= 1 && input_args[0]@ == subcommand_name()) ==> r is Err
            && r->Err_0@ == ErrorModel::NotSubcommand && final(args)@ == old(args)@,
{
    if input_args.len() < 1 || input_args[0] != "templated-examples".to_owned() {
        return Err(ExampleError::NotSubcommand);
    }
    let ghost input = texts(input_args@);
    let pairs: usize = (input_args.len() - 1) / 2;
    let features_key = "--features".to_owned();
    let mut selected: Option<Vec<String>> = None;
    let mut n: usize = 0;
    while n < pairs
        invariant
            n <= pairs,
            2 * pairs + 1 <= input_args.len(),
            pairs == pair_count(input),
            input == texts(input_args@),
            features_key@ == self::features_key(),
            args.wf(),
            args@ == table_with_pairs(old(args)@, input, n as int),
            texts_of(selected) == selected_features(input, n as int),
        decreases pairs - n,
    {
        let key = &input_args[2 * n + 1];
        let values = split(input_args[2 * n + 2].as_str(), ',');
        assert(input[2 * (n + 1) - 1] == key@);
        assert(input[2 * (n + 1)] == input_args@[2 * n + 2]@);
        if *key == features_key {
            selected = Some(values);
        } else {
            args.insert(key.clone(), values);
        }
        n += 1;
    }
    Ok(selected)
}

} // verus!
