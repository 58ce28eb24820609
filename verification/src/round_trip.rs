//! Writing a command as a directive and reading it again.

use vstd::prelude::*;
use crate::commands::{
    BuildModel, CommandModel, args_text, build_text, features_text, scanned,
};
use crate::errors::ErrorModel;
use crate::parsing::{is_quote, parsed_if_quoted, unescaped};
use crate::text::{join_with, split_on, lemma_split_join, lemma_split_pieces};

verus! {

/// Whether a token is one of the flags of a command.
pub open spec fn is_flag(token: Seq<char>) -> bool {
    token == "--release"@ || token == "--profile"@ || token == "--features"@
}

/// Whether a text holds no space.
pub open spec fn spaceless(text: Seq<char>) -> bool {
    !text.contains(' ')
}

/// Whether a command is one that reading a directive can give: no field
/// holds a space, no key is a flag, no feature holds a comma, and the build
/// type is not the debug mode, which no directive names.
pub open spec fn readable(command: CommandModel) -> bool {
    &&& spaceless(command.run)
    &&& forall|i: int|
        0 <= i < command.args.len() ==> {
            let pair = #[trigger] command.args[i];
            !is_flag(pair.0) && spaceless(pair.0) && spaceless(pair.1)
        }
    &&& forall|i: int|
        0 <= i < command.features.len() ==> {
            let feature = #[trigger] command.features[i];
            spaceless(feature) && !feature.contains(',')
        }
    &&& match command.build {
        BuildModel::Profile(p) => spaceless(p),
        BuildModel::Debug => false,
        _ => true,
    }
}

/// Whether no feature of the command holds a backslash.
pub open spec fn features_unescaped(command: CommandModel) -> bool {
    forall|i: int|
        0 <= i < command.features.len() ==> !(#[trigger] command.features[i]).contains('\\')
}

/// The directive that stands for a command: its command line without the
/// leading `cargo` and without the example's name.
pub open spec fn directive_of(command: CommandModel) -> Seq<char> {
    command.run + args_text(command.args) + features_text(command.features) + (match build_text(
        command.build,
    ) {
        Some(build) => build,
        None => Seq::<char>::empty(),
    })
}

/// The tokens of the extra arguments: each key, then its value.
pub open spec fn arg_tokens(args: Seq<(Seq<char>, Seq<char>)>) -> Seq<Seq<char>> {
    Seq::new(
        2 * args.len(),
        |j: int|
            if j % 2 == 0 {
                args[j / 2].0
            } else {
                args[j / 2].1
            },
    )
}

/// The tokens of the features: none where there are no features, else the
/// flag and the quoted list.
pub open spec fn feature_tokens(features: Seq<Seq<char>>) -> Seq<Seq<char>> {
    if features.len() == 0 {
        Seq::empty()
    } else {
        seq!["--features"@, "\""@ + join_with(features, ',') + "\""@]
    }
}

/// The tokens of the build type.
pub open spec fn build_tokens(build: BuildModel) -> Seq<Seq<char>> {
    match build {
        BuildModel::Release => seq!["--release"@],
        BuildModel::Profile(p) => seq!["--profile"@, p],
        _ => Seq::empty(),
    }
}

/// The tokens of the directive that stands for a command.
pub open spec fn directive_tokens(command: CommandModel) -> Seq<Seq<char>> {
    seq![command.run] + arg_tokens(command.args) + feature_tokens(command.features) + build_tokens(
        command.build,
    )
}

/// The tokens in a row, each after a space.
pub open spec fn spaced(tokens: Seq<Seq<char>>) -> Seq<char>
    decreases tokens.len(),
{
    if tokens.len() == 0 {
        Seq::<char>::empty()
    } else {
        spaced(tokens.drop_last()).push(' ') + tokens.last()
    }
}

/// One token after a space.
pub proof fn lemma_spaced_one(token: Seq<char>)
    ensures
        spaced(seq![token]) == seq![' '] + token,
{
    let none = seq![token].drop_last();
    assert(none.len() == 0);
    assert(spaced(none) =~= Seq::<char>::empty());
    assert(spaced(seq![token]) =~= seq![' '] + token);
}

/// Two tokens, each after a space.
pub proof fn lemma_spaced_two(first: Seq<char>, second: Seq<char>)
    ensures
        spaced(seq![first, second]) == seq![' '] + first + seq![' '] + second,
{
    assert(seq![first, second].drop_last() =~= seq![first]);
    lemma_spaced_one(first);
    assert(spaced(seq![first, second]) =~= seq![' '] + first + seq![' '] + second);
}

/// Joining a first token and more tokens with spaces gives the first token
/// and then the others, each after a space.
pub proof fn lemma_join_spaced(first: Seq<char>, more: Seq<Seq<char>>)
    ensures
        join_with(seq![first] + more, ' ') == first + spaced(more),
    decreases more.len(),
{
    let all = seq![first] + more;
    if more.len() == 0 {
        assert(all =~= seq![first]);
        assert(first + spaced(more) =~= first);
    } else {
        assert(all.drop_last() =~= seq![first] + more.drop_last());
        assert(all.last() == more.last());
        lemma_join_spaced(first, more.drop_last());
        assert(join_with(all, ' ') =~= first + spaced(more));
    }
}

/// Tokens in a row after other tokens in a row.
pub proof fn lemma_spaced_concat(a: Seq<Seq<char>>, b: Seq<Seq<char>>)
    ensures
        spaced(a + b) == spaced(a) + spaced(b),
    decreases b.len(),
{
    if b.len() == 0 {
        assert(a + b =~= a);
        assert(spaced(a) + spaced(b) =~= spaced(a));
    } else {
        assert((a + b).drop_last() =~= a + b.drop_last());
        assert((a + b).last() == b.last());
        lemma_spaced_concat(a, b.drop_last());
        assert(spaced(a + b) =~= spaced(a) + spaced(b));
    }
}

/// The tokens of the extra arguments in a row are the arguments as they are
/// rendered.
pub proof fn lemma_spaced_args(args: Seq<(Seq<char>, Seq<char>)>)
    ensures
        spaced(arg_tokens(args)) == args_text(args),
    decreases args.len(),
{
    reveal_strlit(" ");
    if args.len() == 0 {
        assert(arg_tokens(args) =~= Seq::<Seq<char>>::empty());
    } else {
        let before = args.drop_last();
        let pair = seq![args.last().0, args.last().1];
        assert(arg_tokens(args) =~= arg_tokens(before) + pair);
        lemma_spaced_concat(arg_tokens(before), pair);
        lemma_spaced_args(before);
        lemma_spaced_two(args.last().0, args.last().1);
        assert(" "@ =~= seq![' ']);
        assert(args_text(args) =~= args_text(before) + spaced(pair));
    }
}

/// The tokens of the features in a row are the features as they are
/// rendered.
pub proof fn lemma_spaced_features(features: Seq<Seq<char>>)
    ensures
        spaced(feature_tokens(features)) == features_text(features),
{
    reveal_strlit(" --features \"");
    reveal_strlit("--features");
    reveal_strlit("\"");
    if features.len() > 0 {
        let list = "\""@ + join_with(features, ',') + "\""@;
        let tokens = feature_tokens(features);
        lemma_spaced_two("--features"@, list);
        assert(seq![' '] + "--features"@ + seq![' '] + "\""@ =~= " --features \""@);
        assert(spaced(tokens) =~= features_text(features));
    }
}

/// The tokens of the build type in a row are the build type as it is
/// rendered.
pub proof fn lemma_spaced_build(build: BuildModel)
    ensures
        spaced(build_tokens(build)) == (match build_text(build) {
            Some(text) => text,
            None => Seq::<char>::empty(),
        }),
{
    reveal_strlit(" --release");
    reveal_strlit("--release");
    reveal_strlit(" --profile ");
    reveal_strlit("--profile");
    let tokens = build_tokens(build);
    match build {
        BuildModel::Release => {
            lemma_spaced_one("--release"@);
            assert(seq![' '] + "--release"@ =~= " --release"@);
        },
        BuildModel::Profile(p) => {
            lemma_spaced_two("--profile"@, p);
            assert(seq![' '] + "--profile"@ + seq![' '] =~= " --profile "@);
            assert(spaced(tokens) =~= " --profile "@ + p);
        },
        _ => {},
    }
}

/// The directive of a command is its tokens joined with spaces.
pub proof fn lemma_directive_joined(command: CommandModel)
    ensures
        join_with(directive_tokens(command), ' ') == directive_of(command),
{
    let args = arg_tokens(command.args);
    let features = feature_tokens(command.features);
    let build = build_tokens(command.build);
    assert(directive_tokens(command) =~= seq![command.run] + (args + features + build));
    lemma_join_spaced(command.run, args + features + build);
    lemma_spaced_concat(args + features, build);
    lemma_spaced_concat(args, features);
    lemma_spaced_args(command.args);
    lemma_spaced_features(command.features);
    lemma_spaced_build(command.build);
    assert(command.run + (spaced(args) + spaced(features) + spaced(build)) =~= directive_of(
        command,
    ));
}

/// Every character of a joined text is the separator or a character of one
/// of the pieces.
pub proof fn lemma_join_chars(parts: Seq<Seq<char>>, sep: char, c: char)
    requires
        join_with(parts, sep).contains(c),
        c != sep,
    ensures
        exists|i: int| 0 <= i < parts.len() && (#[trigger] parts[i]).contains(c),
    decreases parts.len(),
{
    let joined = join_with(parts, sep);
    let k = choose|k: int| 0 <= k < joined.len() && joined[k] == c;
    if parts.len() == 0 {
    } else if parts.len() == 1 {
        assert(parts[0].contains(c));
    } else {
        let before = join_with(parts.drop_last(), sep);
        if k < before.len() {
            assert(before[k] == c);
            lemma_join_chars(parts.drop_last(), sep, c);
            let i = choose|i: int|
                0 <= i < parts.drop_last().len() && (#[trigger] parts.drop_last()[i]).contains(c);
            assert(parts[i].contains(c));
        } else {
            assert(k > before.len());
            assert(parts.last()[k - before.len() - 1] == c);
            assert(parts[parts.len() - 1].contains(c));
        }
    }
}

/// A text without backslashes stands for itself.
pub proof fn lemma_unescaped_plain(s: Seq<char>)
    requires
        !s.contains('\\'),
    ensures
        unescaped(s) == Some(s),
    decreases s.len(),
{
    if s.len() > 0 {
        assert(s[0] != '\\');
        let rest = s.skip(1);
        if rest.contains('\\') {
            let k = choose|k: int| 0 <= k < rest.len() && rest[k] == '\\';
            assert(s[k + 1] == '\\');
        }
        lemma_unescaped_plain(rest);
        assert(seq![s[0]] + rest =~= s);
    } else {
        assert(s =~= Seq::<char>::empty());
    }
}

/// Resolving the escapes of a text brings in no character that the text
/// does not hold.
pub proof fn lemma_unescaped_chars(s: Seq<char>, c: char)
    requires
        unescaped(s) is Some,
        unescaped(s)->Some_0.contains(c),
    ensures
        s.contains(c),
    decreases s.len(),
{
    let r = unescaped(s)->Some_0;
    let k = choose|k: int| 0 <= k < r.len() && r[k] == c;
    if s.len() > 0 {
        if s[0] != '\\' {
            let rest = s.skip(1);
            if k == 0 {
                assert(s[0] == c);
            } else {
                assert(unescaped(rest)->Some_0[k - 1] == c);
                lemma_unescaped_chars(rest, c);
                let j = choose|j: int| 0 <= j < rest.len() && rest[j] == c;
                assert(s[j + 1] == c);
            }
        } else {
            let rest = s.skip(2);
            if k == 0 {
                assert(s[1] == c);
            } else {
                assert(unescaped(rest)->Some_0[k - 1] == c);
                lemma_unescaped_chars(rest, c);
                let j = choose|j: int| 0 <= j < rest.len() && rest[j] == c;
                assert(s[j + 2] == c);
            }
        }
    }
}

/// What a token stands for holds no character that the token does not hold.
pub proof fn lemma_parsed_if_quoted_chars(token: Seq<char>, c: char)
    requires
        parsed_if_quoted(token) is Ok,
        parsed_if_quoted(token)->Ok_0.contains(c),
    ensures
        token.contains(c),
{
    if token.len() > 0 && is_quote(token[0]) {
        let inside = token.subrange(1, token.len() - 1);
        lemma_unescaped_chars(inside, c);
        let j = choose|j: int| 0 <= j < inside.len() && inside[j] == c;
        assert(token[j + 1] == c);
    }
}

/// Scanning the tokens of extra arguments takes them as they stand, pair by
/// pair, and goes on behind them.
pub proof fn lemma_scan_args(
    tokens: Seq<Seq<char>>,
    i: int,
    so_far: CommandModel,
    args: Seq<(Seq<char>, Seq<char>)>,
)
    requires
        0 <= i,
        i + 2 * args.len() <= tokens.len(),
        forall|j: int|
            0 <= j < args.len() ==> tokens[i + 2 * j] == (#[trigger] args[j]).0 && tokens[i + 2 * j
                + 1] == args[j].1 && !is_flag(args[j].0),
    ensures
        scanned(tokens, i, so_far) == scanned(
            tokens,
            i + 2 * args.len(),
            CommandModel { args: so_far.args + args, ..so_far },
        ),
    decreases args.len(),
{
    if args.len() == 0 {
        assert(so_far.args + args =~= so_far.args);
    } else {
        let first = args[0];
        assert(tokens[i] == first.0 && tokens[i + 1] == first.1 && !is_flag(first.0));
        let next = CommandModel { args: so_far.args.push((tokens[i], tokens[i + 1])), ..so_far };
        assert(scanned(tokens, i, so_far) == scanned(tokens, i + 2, next));
        let rest = args.skip(1);
        assert forall|j: int| 0 <= j < rest.len() implies tokens[i + 2 + 2 * j] == (
        #[trigger] rest[j]).0 && tokens[i + 2 + 2 * j + 1] == rest[j].1 && !is_flag(rest[j].0) by {
            assert(rest[j] == args[j + 1]);
        }
        lemma_scan_args(tokens, i + 2, next, rest);
        assert(next.args + rest =~= so_far.args + args);
    }
}

/// Scanning tokens without spaces keeps a readable command readable.
pub proof fn lemma_scan_readable(tokens: Seq<Seq<char>>, i: int, so_far: CommandModel)
    requires
        0 <= i,
        forall|j: int| 0 <= j < tokens.len() ==> spaceless(#[trigger] tokens[j]),
        readable(so_far),
        scanned(tokens, i, so_far) is Ok,
    ensures
        readable(scanned(tokens, i, so_far)->Ok_0),
    decreases tokens.len() - i,
{
    if i < tokens.len() {
        if tokens[i] == "--release"@ {
            lemma_scan_readable(
                tokens,
                i + 1,
                CommandModel { build: BuildModel::Release, ..so_far },
            );
        } else if tokens[i] == "--profile"@ {
            assert(spaceless(tokens[i + 1]));
            lemma_scan_readable(
                tokens,
                i + 2,
                CommandModel { build: BuildModel::Profile(tokens[i + 1]), ..so_far },
            );
        } else if tokens[i] == "--features"@ {
            let list = parsed_if_quoted(tokens[i + 1])->Ok_0;
            let features = split_on(list, ',');
            lemma_split_pieces(list, ',');
            assert(spaceless(tokens[i + 1]));
            assert forall|k: int| 0 <= k < features.len() implies {
                let feature = #[trigger] features[k];
                spaceless(feature) && !feature.contains(',')
            } by {
                if features[k].contains(' ') {
                    assert(list.contains(' '));
                    lemma_parsed_if_quoted_chars(tokens[i + 1], ' ');
                }
            }
            lemma_scan_readable(tokens, i + 2, CommandModel { features, ..so_far });
        } else {
            let pair = (tokens[i], tokens[i + 1]);
            let args = so_far.args.push(pair);
            assert(spaceless(tokens[i]) && spaceless(tokens[i + 1]));
            assert forall|k: int| 0 <= k < args.len() implies {
                let p = #[trigger] args[k];
                !is_flag(p.0) && spaceless(p.0) && spaceless(p.1)
            } by {
                if k < so_far.args.len() {
                    assert(args[k] == so_far.args[k]);
                }
            }
            lemma_scan_readable(tokens, i + 2, CommandModel { args, ..so_far });
        }
    }
}

/// A command that was read from a text is readable.
pub proof fn lemma_parsed_is_readable(text: Seq<char>, example_name: Seq<char>)
    requires
        CommandModel::parsed(text, example_name) is Ok,
    ensures
        readable(CommandModel::parsed(text, example_name)->Ok_0),
        CommandModel::parsed(text, example_name)->Ok_0.example_name == example_name,
{
    let tokens = CommandModel::tokens_of(text);
    lemma_split_pieces(text, ' ');
    let start = CommandModel {
        run: tokens[0],
        example_name,
        args: Seq::empty(),
        features: Seq::empty(),
        build: BuildModel::Default,
    };
    assert(spaceless(tokens[0]));
    lemma_scan_readable(tokens, 1, start);
    lemma_scan_keeps_name(tokens, 1, start);
}

/// Scanning changes neither the run verb nor the example's name.
pub proof fn lemma_scan_keeps_name(tokens: Seq<Seq<char>>, i: int, so_far: CommandModel)
    requires
        scanned(tokens, i, so_far) is Ok,
    ensures
        scanned(tokens, i, so_far)->Ok_0.example_name == so_far.example_name,
        scanned(tokens, i, so_far)->Ok_0.run == so_far.run,
    decreases tokens.len() - i,
{
    if 0 <= i < tokens.len() {
        if tokens[i] == "--release"@ {
            lemma_scan_keeps_name(
                tokens,
                i + 1,
                CommandModel { build: BuildModel::Release, ..so_far },
            );
        } else if tokens[i] == "--profile"@ {
            lemma_scan_keeps_name(
                tokens,
                i + 2,
                CommandModel { build: BuildModel::Profile(tokens[i + 1]), ..so_far },
            );
        } else if tokens[i] == "--features"@ {
            let list = parsed_if_quoted(tokens[i + 1])->Ok_0;
            lemma_scan_keeps_name(
                tokens,
                i + 2,
                CommandModel { features: split_on(list, ','), ..so_far },
            );
        } else {
            lemma_scan_keeps_name(
                tokens,
                i + 2,
                CommandModel { args: so_far.args.push((tokens[i], tokens[i + 1])), ..so_far },
            );
        }
    }
}

/// The flags are three different tokens, and none of them holds a space.
pub proof fn lemma_flags()
    ensures
        "--release"@ != "--profile"@,
        "--release"@ != "--features"@,
        "--profile"@ != "--features"@,
        spaceless("--release"@),
        spaceless("--profile"@),
        spaceless("--features"@),
{
    reveal_strlit("--release");
    reveal_strlit("--profile");
    reveal_strlit("--features");
    assert("--profile"@[2] != "--release"@[2]);
    assert("--release"@.len() != "--features"@.len());
    assert("--profile"@.len() != "--features"@.len());
    if "--release"@.contains(' ') {
        let k = choose|k: int| 0 <= k < "--release"@.len() && "--release"@[k] == ' ';
    }
    if "--profile"@.contains(' ') {
        let k = choose|k: int| 0 <= k < "--profile"@.len() && "--profile"@[k] == ' ';
    }
    if "--features"@.contains(' ') {
        let k = choose|k: int| 0 <= k < "--features"@.len() && "--features"@[k] == ' ';
    }
}

/// The quoted list of features without backslashes stands for the features,
/// and holds no space where no feature does.
pub proof fn lemma_quoted_features(features: Seq<Seq<char>>)
    requires
        features.len() > 0,
        forall|i: int|
            0 <= i < features.len() ==> {
                let feature = #[trigger] features[i];
                spaceless(feature) && !feature.contains(',') && !feature.contains('\\')
            },
    ensures
        spaceless("\""@ + join_with(features, ',') + "\""@),
        parsed_if_quoted("\""@ + join_with(features, ',') + "\""@) == Ok::<Seq<char>, ErrorModel>(
            join_with(features, ','),
        ),
        split_on(join_with(features, ','), ',') == features,
{
    reveal_strlit("\"");
    let list = join_with(features, ',');
    let quoted = "\""@ + list + "\""@;
    assert(!list.contains(' ') && !list.contains('\\')) by {
        if list.contains(' ') {
            lemma_join_chars(features, ',', ' ');
        }
        if list.contains('\\') {
            lemma_join_chars(features, ',', '\\');
        }
    }
    assert(spaceless(quoted)) by {
        if quoted.contains(' ') {
            let k = choose|k: int| 0 <= k < quoted.len() && quoted[k] == ' ';
            assert(list[k - 1] == ' ');
        }
    }
    assert(quoted.subrange(1, quoted.len() - 1) =~= list);
    assert(quoted[0] == '"' && quoted.last() == '"');
    lemma_unescaped_plain(list);
    lemma_split_join(features, ',');
}

/// No token of the directive of a readable command whose features hold no
/// backslash holds a space.
pub proof fn lemma_directive_tokens_spaceless(command: CommandModel)
    requires
        readable(command),
        features_unescaped(command),
    ensures
        forall|j: int|
            0 <= j < directive_tokens(command).len() ==> !(#[trigger] directive_tokens(
                command,
            )[j]).contains(' '),
{
    lemma_flags();
    let tokens = directive_tokens(command);
    let args = arg_tokens(command.args);
    let features = feature_tokens(command.features);
    let build = build_tokens(command.build);
    let after_args = 1 + 2 * command.args.len();
    let after_features = after_args + features.len();
    if command.features.len() > 0 {
        lemma_quoted_features(command.features);
    }
    assert forall|j: int| 0 <= j < tokens.len() implies !(#[trigger] tokens[j]).contains(' ') by {
        if j == 0 {
            assert(tokens[0] == command.run);
        } else if j < after_args {
            assert(tokens[j] == args[j - 1]);
            let pair = command.args[(j - 1) / 2];
            assert(spaceless(pair.0) && spaceless(pair.1));
        } else if j < after_features {
            assert(tokens[j] == features[j - after_args]);
        } else {
            assert(tokens[j] == build[j - after_features]);
        }
    }
}

/// Scanning the tokens of features without backslashes takes the features
/// as they stand and goes on behind them.
pub proof fn lemma_scan_features(
    tokens: Seq<Seq<char>>,
    i: int,
    so_far: CommandModel,
    features: Seq<Seq<char>>,
)
    requires
        0 <= i,
        i + feature_tokens(features).len() <= tokens.len(),
        forall|j: int|
            0 <= j < feature_tokens(features).len() ==> tokens[i + j] == #[trigger] feature_tokens(
                features,
            )[j],
        so_far.features.len() == 0,
        forall|k: int|
            0 <= k < features.len() ==> {
                let feature = #[trigger] features[k];
                spaceless(feature) && !feature.contains(',') && !feature.contains('\\')
            },
    ensures
        scanned(tokens, i, so_far) == scanned(
            tokens,
            i + feature_tokens(features).len(),
            CommandModel { features, ..so_far },
        ),
{
    if features.len() == 0 {
        assert(so_far.features =~= features);
    } else {
        lemma_flags();
        lemma_quoted_features(features);
        assert(tokens[i + 0] == feature_tokens(features)[0]);
        assert(tokens[i + 1] == feature_tokens(features)[1]);
    }
}

/// Scanning the tokens of a decided build type at the end of the tokens
/// takes the build type.
pub proof fn lemma_scan_build(
    tokens: Seq<Seq<char>>,
    i: int,
    so_far: CommandModel,
    build: BuildModel,
)
    requires
        0 <= i,
        i + build_tokens(build).len() == tokens.len(),
        forall|j: int|
            0 <= j < build_tokens(build).len() ==> tokens[i + j] == #[trigger] build_tokens(
                build,
            )[j],
        !so_far.build.is_concrete(),
        build is Release || build is Profile,
    ensures
        scanned(tokens, i, so_far) == Ok::<CommandModel, ErrorModel>(
            CommandModel { build, ..so_far },
        ),
{
    lemma_flags();
    match build {
        BuildModel::Release => {
            assert(tokens[i + 0] == build_tokens(build)[0]);
            let done = CommandModel { build, ..so_far };
            assert(scanned(tokens, i, so_far) == scanned(tokens, i + 1, done));
        },
        BuildModel::Profile(p) => {
            assert(tokens[i + 0] == build_tokens(build)[0]);
            assert(tokens[i + 1] == build_tokens(build)[1]);
            let done = CommandModel { build, ..so_far };
            assert(scanned(tokens, i, so_far) == scanned(tokens, i + 2, done));
        },
        _ => {},
    }
}

/// The tokens of a directive, scanned, give the command.
pub proof fn lemma_directive_tokens_scan(command: CommandModel)
    requires
        readable(command),
        features_unescaped(command),
        command.build.is_concrete(),
    ensures
        CommandModel::of_tokens(directive_tokens(command), command.example_name) == Ok::<
            CommandModel,
            ErrorModel,
        >(command),
{
    let tokens = directive_tokens(command);
    let args = arg_tokens(command.args);
    let features = feature_tokens(command.features);
    let build = build_tokens(command.build);
    let n = command.args.len() as int;
    let after_args = 1 + 2 * n;
    let after_features = after_args + features.len();
    assert(tokens.len() == after_features + build.len());
    assert(tokens[0] == command.run);
    let start = CommandModel {
        run: command.run,
        example_name: command.example_name,
        args: Seq::empty(),
        features: Seq::empty(),
        build: BuildModel::Default,
    };
    assert forall|j: int| 0 <= j < command.args.len() implies tokens[1 + 2 * j] == (
    #[trigger] command.args[j]).0 && tokens[1 + 2 * j + 1] == command.args[j].1 && !is_flag(
        command.args[j].0,
    ) by {
        assert(tokens[1 + 2 * j] == args[2 * j]);
        assert(tokens[1 + 2 * j + 1] == args[2 * j + 1]);
    }
    lemma_scan_args(tokens, 1, start, command.args);
    let with_args = CommandModel { args: command.args, ..start };
    assert(start.args + command.args =~= command.args);
    assert forall|j: int| 0 <= j < features.len() implies tokens[after_args + j]
        == #[trigger] features[j] by {}
    lemma_scan_features(tokens, after_args, with_args, command.features);
    let with_features = CommandModel { features: command.features, ..with_args };
    assert forall|j: int| 0 <= j < build.len() implies tokens[after_features + j]
        == #[trigger] build[j] by {}
    lemma_scan_build(tokens, after_features, with_features, command.build);
}

/// The directive of a readable command whose features hold no backslash
/// and whose build type is decided reads as that very command: run verb,
/// extra arguments in their order, features in their order and build type.
pub proof fn lemma_directive_reads_as_command(command: CommandModel)
    requires
        readable(command),
        features_unescaped(command),
        command.build.is_concrete(),
    ensures
        CommandModel::parsed(directive_of(command), command.example_name) == Ok::<
            CommandModel,
            ErrorModel,
        >(command),
{
    let tokens = directive_tokens(command);
    let text = directive_of(command);
    lemma_directive_tokens_spaceless(command);
    lemma_directive_joined(command);
    lemma_split_join(tokens, ' ');
    assert(tokens.len() >= 2);
    assert(text.len() > 0) by {
        if text.len() == 0 {
            assert(split_on(text, ' ').len() == 1);
        }
    }
    assert(CommandModel::tokens_of(text) == tokens);
    lemma_directive_tokens_scan(command);
}

/// Reading a directive, writing the command that was read as a directive and
/// reading that again gives the same command, where the command's build type
/// is decided and none of its features holds a backslash. The command line
/// of the command is this directive with `cargo` before it and the example's
/// name put in behind the extra arguments.
pub proof fn lemma_read_write_read(text: Seq<char>, example_name: Seq<char>)
    requires
        CommandModel::parsed(text, example_name) is Ok,
        CommandModel::parsed(text, example_name)->Ok_0.build.is_concrete(),
        features_unescaped(CommandModel::parsed(text, example_name)->Ok_0),
    ensures
        CommandModel::parsed(
            directive_of(CommandModel::parsed(text, example_name)->Ok_0),
            example_name,
        ) == CommandModel::parsed(text, example_name),
        CommandModel::parsed(text, example_name)->Ok_0.rendered() == Ok::<Seq<char>, ErrorModel>(
            "cargo "@ + CommandModel::parsed(text, example_name)->Ok_0.run + args_text(
                CommandModel::parsed(text, example_name)->Ok_0.args,
            ) + " --example "@ + example_name + features_text(
                CommandModel::parsed(text, example_name)->Ok_0.features,
            ) + build_text(CommandModel::parsed(text, example_name)->Ok_0.build)->Some_0,
        ),
{
    lemma_parsed_is_readable(text, example_name);
    lemma_directive_reads_as_command(CommandModel::parsed(text, example_name)->Ok_0);
}

/// The first piece of a text is what stands before its first separator.
pub proof fn lemma_split_first(first: Seq<char>, rest: Seq<char>, sep: char)
    requires
        !first.contains(sep),
    ensures
        split_on(first.push(sep) + rest, sep).len() >= 2,
        split_on(first.push(sep) + rest, sep)[0] == first,
    decreases rest.len(),
{
    let text = first.push(sep) + rest;
    if rest.len() == 0 {
        assert(text =~= first.push(sep));
        assert(text.drop_last() =~= first);
        lemma_split_join(seq![first], sep);
    } else {
        assert(text.drop_last() =~= first.push(sep) + rest.drop_last());
        lemma_split_first(first, rest.drop_last(), sep);
    }
}

/// A command line is no directive of its command: read as a directive, its
/// run verb is `cargo`, whatever the run verb of the command is.
pub proof fn lemma_command_line_reads_as_cargo(command: CommandModel, example_name: Seq<char>)
    requires
        command.rendered() is Ok,
        CommandModel::parsed(command.rendered()->Ok_0, example_name) is Ok,
    ensures
        CommandModel::parsed(command.rendered()->Ok_0, example_name)->Ok_0.run == "cargo"@,
{
    reveal_strlit("cargo ");
    reveal_strlit("cargo");
    let line = command.rendered()->Ok_0;
    let rest = command.run + args_text(command.args) + " --example "@ + command.example_name
        + features_text(command.features) + build_text(command.build)->Some_0;
    assert("cargo "@ =~= "cargo"@.push(' '));
    assert(line =~= "cargo"@.push(' ') + rest);
    assert(!"cargo"@.contains(' ')) by {
        if "cargo"@.contains(' ') {
            let k = choose|k: int| 0 <= k < "cargo"@.len() && "cargo"@[k] == ' ';
        }
    }
    lemma_split_first("cargo"@, rest, ' ');
    let tokens = CommandModel::tokens_of(line);
    assert(tokens[0] == "cargo"@);
    lemma_scan_keeps_name(
        tokens,
        1,
        CommandModel {
            run: tokens[0],
            example_name,
            args: Seq::empty(),
            features: Seq::empty(),
            build: BuildModel::Default,
        },
    );
}

} // verus!
