//! Functions to read information from a rust file

use vstd::prelude::*;
use crate::commands::{CargoCommand, CommandModel};
use crate::errors::{ExampleError, ErrorModel};
use crate::text::{chars_of, split, split_on, matches_at, starts_with, string_between, texts};

verus! {

/// The text with which a line that holds a command begins.
pub open spec fn directive_prefix() -> Seq<char> {
    "//? "@
}

/// A piece of text without the carriage return at its end, if it has one.
pub open spec fn without_return(piece: Seq<char>) -> Seq<char> {
    if piece.len() > 0 && piece.last() == '\r' {
        piece.drop_last()
    } else {
        piece
    }
}

/// The lines of a text: the pieces between its line feeds, each without the
/// carriage return before the line feed if there is one. What follows the
/// last line feed is a line as it stands.
pub open spec fn lines_of(contents: Seq<char>) -> Seq<Seq<char>> {
    let pieces = split_on(contents, '\n');
    Seq::new(
        pieces.len(),
        |k: int|
            if k < pieces.len() - 1 {
                without_return(pieces[k])
            } else {
                pieces[k]
            },
    )
}

/// What follows the prefix on the first of the lines from position `from` on
/// that begins with it.
pub open spec fn first_directive(lines: Seq<Seq<char>>, from: int) -> Option<Seq<char>>
    decreases lines.len() - from,
{
    if from < 0 || from >= lines.len() {
        None
    } else if starts_with(lines[from], directive_prefix()) {
        Some(lines[from].skip(directive_prefix().len() as int))
    } else {
        first_directive(lines, from + 1)
    }
}

/// The command that a file's text gives for the example: none where no line
/// begins with the prefix, else what the rest of the first such line stands
/// for.
pub open spec fn file_command(contents: Seq<char>, example_name: Seq<char>) -> Result<
    Option<CommandModel>,
    ErrorModel,
> {
    match first_directive(lines_of(contents), 0) {
        None => Ok(None),
        Some(directive) => match CommandModel::parsed(directive, example_name) {
            Ok(c) => Ok(Some(c)),
            Err(e) => Err(e),
        },
    }
}

/// Load command from the text of an example's file (line starting //?)
pub fn load_command(contents: &str, eg: &str) -> (r: Result<Option<CargoCommand>, ExampleError>)
    ensures
        match file_command(contents@, eg@) {
            Ok(Some(c)) => r is Ok && r->Ok_0 is Some && r->Ok_0->Some_0@ == c,
            Ok(None) => r is Ok && r->Ok_0 is None,
            Err(e) => r is Err && r->Err_0@ == e,
        },
{
    let pieces = split(contents, '\n');
    let prefix = chars_of("//? ");
    proof {
        reveal_strlit("//? ");
    }
    let ghost lines = lines_of(contents@);
    let mut k: usize = 0;
    while k < pieces.len()
        invariant
            k <= pieces.len(),
            texts(pieces@) == split_on(contents@, '\n'),
            lines == lines_of(contents@),
            prefix@ == directive_prefix(),
            prefix@.len() == 4,
            first_directive(lines, 0) == first_directive(lines, k as int),
        decreases pieces.len() - k,
    {
        let piece = chars_of(pieces[k].as_str());
        assert(piece@ == texts(pieces@)[k as int]);
        let mut end: usize = piece.len();
        if k + 1 < pieces.len() && end > 0 && piece[end - 1] == '\r' {
            end = end - 1;
        }
        assert(lines[k as int] =~= piece@.subrange(0, end as int));
        if end >= 4 && matches_at(&piece, &prefix, 0) {
            let directive = string_between(&piece, 4, end);
            proof {
                assert(lines[k as int].subrange(0, 4) =~= piece@.subrange(0, 4));
                assert(directive@ =~= lines[k as int].skip(4));
            }
            return match CargoCommand::from_str(directive.as_str(), eg) {
                Ok(c) => Ok(Some(c)),
                Err(e) => Err(e),
            };
        }
        proof {
            if end >= 4 {
                assert(lines[k as int].subrange(0, 4) =~= piece@.subrange(0, 4));
            }
        }
        k += 1;
    }
    Ok(None)
}

} // verus!
