//! Cargo commands

use vstd::prelude::*;
use crate::errors::{ExampleError, ErrorModel, outcome};
use crate::parsing::{parse_string_if_quoted, parsed_if_quoted};
use crate::text::{split, split_on, join, join_with, texts, has_string, copy_strings, same_strings};

verus! {

/// A build type
#[derive(Debug)]
pub enum BuildType {
    /// Debug mode
    Debug,
    /// Release mode
    Release,
    /// Run using given profile
    Profile(String),
    /// Not decided yet: stands for "use the default mode" while commands are
    /// merged, and is no build type to run with
    Default,
}

/// A build type, with the profile's name as text.
pub enum BuildModel {
    Debug,
    Release,
    Profile(Seq<char>),
    Default,
}

impl View for BuildType {
    type V = BuildModel;

    open spec fn view(&self) -> BuildModel {
        match self {
            BuildType::Debug => BuildModel::Debug,
            BuildType::Release => BuildModel::Release,
            BuildType::Profile(p) => BuildModel::Profile(p@),
            BuildType::Default => BuildModel::Default,
        }
    }
}

impl Clone for BuildType {
    fn clone(&self) -> (r: Self)
        ensures
            r == *self,
    {
        match self {
            BuildType::Debug => BuildType::Debug,
            BuildType::Release => BuildType::Release,
            BuildType::Profile(p) => BuildType::Profile(p.clone()),
            BuildType::Default => BuildType::Default,
        }
    }
}

impl PartialEq for BuildType {
    fn eq(&self, other: &Self) -> (r: bool) {
        match (self, other) {
            (BuildType::Debug, BuildType::Debug) => true,
            (BuildType::Release, BuildType::Release) => true,
            (BuildType::Profile(p), BuildType::Profile(q)) => *p == *q,
            (BuildType::Default, BuildType::Default) => true,
            _ => false,
        }
    }
}

impl vstd::std_specs::cmp::PartialEqSpecImpl for BuildType {
    open spec fn obeys_eq_spec() -> bool {
        true
    }

    open spec fn eq_spec(&self, other: &Self) -> bool {
        self@ == other@
    }
}

impl Eq for BuildType {

}

impl BuildModel {
    /// The build type that a name stands for: `debug` and `release` are the
    /// two built-in modes, any other name is a profile's.
    pub open spec fn named(s: Seq<char>) -> BuildModel {
        if s == "debug"@ {
            BuildModel::Debug
        } else if s == "release"@ {
            BuildModel::Release
        } else {
            BuildModel::Profile(s)
        }
    }

    /// Whether a build type has been decided.
    pub open spec fn is_concrete(self) -> bool {
        self != BuildModel::Default
    }

    /// This build type where it is decided, and else the candidate.
    pub open spec fn or_default(self, candidate: BuildModel) -> BuildModel {
        if self.is_concrete() {
            self
        } else {
            candidate
        }
    }
}

impl BuildType {
    /// Create from string
    pub fn from_str(s: &str) -> (b: BuildType)
        ensures
            b@ == BuildModel::named(s@),
    {
        let name = s.to_owned();
        if name == "debug".to_owned() {
            BuildType::Debug
        } else if name == "release".to_owned() {
            BuildType::Release
        } else {
            BuildType::Profile(name)
        }
    }

    /// Whether a build type has been decided.
    pub fn is_concrete(&self) -> (c: bool)
        ensures
            c == self@.is_concrete(),
    {
        match self {
            BuildType::Default => false,
            _ => true,
        }
    }
}

/// A command to be run
#[derive(Debug)]
pub struct CargoCommand {
    run: String,
    example_name: String,
    args: Vec<(String, String)>,
    features: Vec<String>,
    build: BuildType,
}

/// A command, with texts in place of strings.
pub struct CommandModel {
    /// The run verb: what follows `cargo`.
    pub run: Seq<char>,
    /// The example's name.
    pub example_name: Seq<char>,
    /// The extra arguments, key and value, in the order in which they were
    /// given.
    pub args: Seq<(Seq<char>, Seq<char>)>,
    /// The features to run with, in the order in which they were given.
    pub features: Seq<Seq<char>>,
    /// The build type.
    pub build: BuildModel,
}

/// The texts of a sequence of pairs of strings.
pub open spec fn pair_texts(v: Seq<(String, String)>) -> Seq<(Seq<char>, Seq<char>)> {
    Seq::new(v.len(), |i: int| (v[i].0@, v[i].1@))
}

impl View for CargoCommand {
    type V = CommandModel;

    closed spec fn view(&self) -> CommandModel {
        CommandModel {
            run: self.run@,
            example_name: self.example_name@,
            args: pair_texts(self.args@),
            features: texts(self.features@),
            build: self.build@,
        }
    }
}

/// Whether two lists of pairs hold the same texts in the same order.
fn same_pairs(a: &Vec<(String, String)>, b: &Vec<(String, String)>) -> (same: bool)
    ensures
        same == (pair_texts(a@) == pair_texts(b@)),
{
    if a.len() != b.len() {
        assert(pair_texts(a@).len() != pair_texts(b@).len());
        return false;
    }
    let mut i: usize = 0;
    while i < a.len()
        invariant
            i <= a.len(),
            a.len() == b.len(),
            forall|j: int| 0 <= j < i ==> pair_texts(a@)[j] == pair_texts(b@)[j],
        decreases a.len() - i,
    {
        if a[i].0 != b[i].0 || a[i].1 != b[i].1 {
            assert(pair_texts(a@)[i as int] != pair_texts(b@)[i as int]);
            return false;
        }
        i += 1;
    }
    assert(pair_texts(a@) =~= pair_texts(b@));
    true
}

impl PartialEq for CargoCommand {
    fn eq(&self, other: &Self) -> (r: bool) {
        self.run == other.run && self.example_name == other.example_name && same_pairs(
            &self.args,
            &other.args,
        ) && same_strings(&self.features, &other.features) && self.build == other.build
    }
}

impl vstd::std_specs::cmp::PartialEqSpecImpl for CargoCommand {
    open spec fn obeys_eq_spec() -> bool {
        true
    }

    open spec fn eq_spec(&self, other: &Self) -> bool {
        self@ == other@
    }
}

impl Eq for CargoCommand {

}

/// The extra arguments as they are rendered: each key and each value after
/// a space.
pub open spec fn args_text(args: Seq<(Seq<char>, Seq<char>)>) -> Seq<char>
    decreases args.len(),
{
    if args.len() == 0 {
        Seq::<char>::empty()
    } else {
        args_text(args.drop_last()) + " "@ + args.last().0 + " "@ + args.last().1
    }
}

/// The features as they are rendered: nothing where there are none, else
/// one quoted list with commas between them.
pub open spec fn features_text(features: Seq<Seq<char>>) -> Seq<char> {
    if features.len() == 0 {
        Seq::<char>::empty()
    } else {
        " --features \""@ + join_with(features, ',') + "\""@
    }
}

/// The build type as it is rendered; none for the undecided one.
pub open spec fn build_text(build: BuildModel) -> Option<Seq<char>> {
    match build {
        BuildModel::Debug => Some(Seq::<char>::empty()),
        BuildModel::Release => Some(" --release"@),
        BuildModel::Profile(p) => Some(" --profile "@ + p),
        BuildModel::Default => None,
    }
}

/// The first of the required features that is not among `present`.
pub open spec fn first_missing(required: Seq<Seq<char>>, present: Seq<Seq<char>>) -> Option<
    Seq<char>,
>
    decreases required.len(),
{
    if required.len() == 0 {
        None
    } else if !present.contains(required[0]) {
        Some(required[0])
    } else {
        first_missing(required.skip(1), present)
    }
}

/// What scanning the tokens from position `i` on makes of the command read
/// so far.
pub open spec fn scanned(tokens: Seq<Seq<char>>, i: int, so_far: CommandModel) -> Result<
    CommandModel,
    ErrorModel,
>
    decreases tokens.len() - i,
{
    if i < 0 || i >= tokens.len() {
        Ok(so_far)
    } else if tokens[i] == "--release"@ {
        if so_far.build.is_concrete() {
            Err(ErrorModel::DuplicateBuildType)
        } else {
            scanned(tokens, i + 1, CommandModel { build: BuildModel::Release, ..so_far })
        }
    } else if tokens[i] == "--profile"@ {
        if so_far.build.is_concrete() {
            Err(ErrorModel::DuplicateBuildType)
        } else if i + 1 >= tokens.len() {
            Err(ErrorModel::MissingProfileName)
        } else {
            scanned(
                tokens,
                i + 2,
                CommandModel { build: BuildModel::Profile(tokens[i + 1]), ..so_far },
            )
        }
    } else if tokens[i] == "--features"@ {
        if i + 1 >= tokens.len() {
            Err(ErrorModel::MissingFeatureList)
        } else {
            match parsed_if_quoted(tokens[i + 1]) {
                Err(e) => Err(e),
                Ok(list) => scanned(
                    tokens,
                    i + 2,
                    CommandModel { features: split_on(list, ','), ..so_far },
                ),
            }
        }
    } else if i + 1 >= tokens.len() {
        Err(ErrorModel::DanglingKey)
    } else {
        scanned(
            tokens,
            i + 2,
            CommandModel { args: so_far.args.push((tokens[i], tokens[i + 1])), ..so_far },
        )
    }
}

impl CommandModel {
    /// The command of an example of which nothing else is known.
    pub open spec fn bare(example_name: Seq<char>) -> CommandModel {
        CommandModel {
            run: "run"@,
            example_name,
            args: Seq::empty(),
            features: Seq::empty(),
            build: BuildModel::Default,
        }
    }

    /// The command that a list of tokens stands for: the first is the run
    /// verb, the others are scanned from left to right.
    pub open spec fn of_tokens(tokens: Seq<Seq<char>>, example_name: Seq<char>) -> Result<
        CommandModel,
        ErrorModel,
    > {
        if tokens.len() == 0 {
            Err(ErrorModel::EmptyCommand)
        } else {
            scanned(
                tokens,
                1,
                CommandModel {
                    run: tokens[0],
                    example_name,
                    args: Seq::empty(),
                    features: Seq::empty(),
                    build: BuildModel::Default,
                },
            )
        }
    }

    /// The tokens of a command string: none for the empty string, else the
    /// pieces between single spaces.
    pub open spec fn tokens_of(c: Seq<char>) -> Seq<Seq<char>> {
        if c.len() == 0 {
            Seq::empty()
        } else {
            split_on(c, ' ')
        }
    }

    /// The command that a string stands for.
    pub open spec fn parsed(c: Seq<char>, example_name: Seq<char>) -> Result<
        CommandModel,
        ErrorModel,
    > {
        Self::of_tokens(Self::tokens_of(c), example_name)
    }

    /// The command line, or the error for a command whose build type is
    /// undecided.
    pub open spec fn rendered(self) -> Result<Seq<char>, ErrorModel> {
        match build_text(self.build) {
            None => Err(ErrorModel::UnresolvedBuildType),
            Some(build) => Ok(
                "cargo "@ + self.run + args_text(self.args) + " --example "@ + self.example_name
                    + features_text(self.features) + build,
            ),
        }
    }

    /// The command after a default build type was offered to it.
    pub open spec fn with_default_build(self, candidate: BuildModel) -> Result<
        CommandModel,
        ErrorModel,
    > {
        if !candidate.is_concrete() {
            Err(ErrorModel::InvalidDefault)
        } else {
            Ok(CommandModel { build: self.build.or_default(candidate), ..self })
        }
    }

    /// The command after a second source set its build type.
    pub open spec fn with_build(self, candidate: BuildModel) -> Result<CommandModel, ErrorModel> {
        if !candidate.is_concrete() {
            Err(ErrorModel::InvalidDefault)
        } else if self.build.or_default(candidate) != candidate {
            Err(ErrorModel::ConflictingBuildType(self.example_name))
        } else {
            Ok(CommandModel { build: candidate, ..self })
        }
    }

    /// The command after the features that its example requires were made
    /// known.
    pub open spec fn with_required_features(self, required: Seq<Seq<char>>) -> Result<
        CommandModel,
        ErrorModel,
    > {
        if self.features.len() == 0 {
            Ok(CommandModel { features: required, ..self })
        } else {
            match first_missing(required, self.features) {
                Some(f) => Err(ErrorModel::MissingRequiredFeature(f, self.example_name)),
                None => Ok(self),
            }
        }
    }
}

impl CargoCommand {
    /// Create new
    pub fn new(example_name: String) -> (c: CargoCommand)
        ensures
            c@ == CommandModel::bare(example_name@),
    {
        let c = CargoCommand {
            run: "run".to_owned(),
            example_name,
            args: Vec::new(),
            features: Vec::new(),
            build: BuildType::Default,
        };
        assert(pair_texts(c.args@) =~= Seq::empty());
        assert(texts(c.features@) =~= Seq::empty());
        c
    }

    /// The run verb
    pub fn run(&self) -> (r: &String)
        ensures
            r@ == self@.run,
    {
        &self.run
    }

    /// The example's name
    pub fn example_name(&self) -> (r: &String)
        ensures
            r@ == self@.example_name,
    {
        &self.example_name
    }

    /// The extra arguments, in the order in which they were given
    pub fn args(&self) -> (r: &Vec<(String, String)>)
        ensures
            pair_texts(r@) == self@.args,
    {
        &self.args
    }

    /// The features, in the order in which they were given
    pub fn features(&self) -> (r: &Vec<String>)
        ensures
            texts(r@) == self@.features,
    {
        &self.features
    }

    /// The build type
    pub fn build(&self) -> (r: &BuildType)
        ensures
            r@ == self@.build,
    {
        &self.build
    }

    /// Set default build type
    pub fn set_default_build_type(&mut self, build: &BuildType) -> (r: Result<(), ExampleError>)
        ensures
            match old(self)@.with_default_build(build@) {
                Ok(c) => r is Ok && final(self)@ == c,
                Err(e) => r is Err && r->Err_0@ == e && final(self)@ == old(self)@,
            },
    {
        if !build.is_concrete() {
            return Err(ExampleError::InvalidDefault);
        }
        if !self.build.is_concrete() {
            self.build = build.clone();
        }
        Ok(())
    }

    /// Set build type, or fail if it has already been set to another
    /// non-default value
    pub fn set_build_type(&mut self, build: &BuildType) -> (r: Result<(), ExampleError>)
        ensures
            match old(self)@.with_build(build@) {
                Ok(c) => r is Ok && final(self)@ == c,
                Err(e) => r is Err && r->Err_0@ == e && final(self)@ == old(self)@,
            },
    {
        if !build.is_concrete() {
            return Err(ExampleError::InvalidDefault);
        }
        if !self.build.is_concrete() {
            self.build = build.clone();
            Ok(())
        } else if self.build != *build {
            Err(ExampleError::ConflictingBuildType(self.example_name.clone()))
        } else {
            Ok(())
        }
    }

    /// Convert command to string
    pub fn as_string(&self) -> (r: Result<String, ExampleError>)
        ensures
            outcome(r) == self@.rendered(),
    {
        if !self.build.is_concrete() {
            return Err(ExampleError::UnresolvedBuildType);
        }
        let mut c = "cargo ".to_owned();
        c.append(self.run.as_str());
        let ghost head = c@;
        let mut i: usize = 0;
        assert(pair_texts(self.args@).take(0) =~= Seq::empty());
        assert(head + Seq::<char>::empty() =~= head);
        while i < self.args.len()
            invariant
                i <= self.args.len(),
                c@ == head + args_text(pair_texts(self.args@).take(i as int)),
            decreases self.args.len() - i,
        {
            let ghost before = args_text(pair_texts(self.args@).take(i as int));
            c.append(" ");
            c.append(self.args[i].0.as_str());
            c.append(" ");
            c.append(self.args[i].1.as_str());
            proof {
                let next = pair_texts(self.args@).take(i + 1);
                assert(next.drop_last() =~= pair_texts(self.args@).take(i as int));
                assert(next.last() == (self.args@[i as int].0@, self.args@[i as int].1@));
                assert(c@ =~= head + (before + " "@ + next.last().0 + " "@ + next.last().1));
            }
            i += 1;
        }
        assert(pair_texts(self.args@).take(self.args.len() as int) =~= pair_texts(self.args@));
        c.append(" --example ");
        c.append(self.example_name.as_str());
        let ghost named = c@;
        if self.features.len() > 0 {
            c.append(" --features \"");
            c.append(join(&self.features, ',').as_str());
            c.append("\"");
            assert(c@ =~= named + features_text(texts(self.features@)));
        } else {
            assert(c@ =~= named + features_text(texts(self.features@)));
        }
        let ghost featured = c@;
        match &self.build {
            BuildType::Debug => {
                assert(c@ =~= featured + Seq::<char>::empty());
            },
            BuildType::Release => {
                c.append(" --release");
            },
            BuildType::Profile(p) => {
                c.append(" --profile ");
                c.append(p.as_str());
                assert(c@ =~= featured + (" --profile "@ + p@));
            },
            BuildType::Default => {},
        }
        Ok(c)
    }

    /// Set required features
    pub fn set_required_features(&mut self, features: &[String]) -> (r: Result<(), ExampleError>)
        ensures
            match old(self)@.with_required_features(texts(features@)) {
                Ok(c) => r is Ok && final(self)@ == c,
                Err(e) => r is Err && r->Err_0@ == e && final(self)@ == old(self)@,
            },
    {
        if self.features.len() == 0 {
            self.features = copy_strings(features);
            return Ok(());
        }
        let ghost required = texts(features@);
        let ghost present = texts(self.features@);
        let mut i: usize = 0;
        assert(required.skip(0) =~= required);
        while i < features.len()
            invariant
                i <= features.len(),
                required == texts(features@),
                present == texts(self.features@),
                present.len() > 0,
                *self == *old(self),
                first_missing(required, present) == first_missing(required.skip(i as int), present),
            decreases features.len() - i,
        {
            assert(required.skip(i as int)[0] == features@[i as int]@);
            assert(required.skip(i as int).skip(1) =~= required.skip(i + 1));
            if !has_string(&self.features, &features[i]) {
                return Err(
                    ExampleError::MissingRequiredFeature(
                        features[i].clone(),
                        self.example_name.clone(),
                    ),
                );
            }
            i += 1;
        }
        Ok(())
    }

    /// Create from the tokens of a command: the run verb, then flags, and
    /// keys each followed by its value
    pub fn from_tokens(tokens: &Vec<String>, example_name: &str) -> (r: Result<
        CargoCommand,
        ExampleError,
    >)
        ensures
            outcome(r) == CommandModel::of_tokens(texts(tokens@), example_name@),
    {
        if tokens.len() == 0 {
            return Err(ExampleError::EmptyCommand);
        }
        let mut cmd = CargoCommand {
            run: tokens[0].clone(),
            example_name: example_name.to_owned(),
            args: Vec::new(),
            features: Vec::new(),
            build: BuildType::Default,
        };
        let ghost all = texts(tokens@);
        let release = "--release".to_owned();
        let profile = "--profile".to_owned();
        let features = "--features".to_owned();
        assert(pair_texts(cmd.args@) =~= Seq::empty());
        assert(texts(cmd.features@) =~= Seq::empty());
        let mut i: usize = 1;
        while i < tokens.len()
            invariant
                1 <= i <= tokens.len(),
                all == texts(tokens@),
                release@ == "--release"@,
                profile@ == "--profile"@,
                features@ == "--features"@,
                CommandModel::of_tokens(all, example_name@) == scanned(all, i as int, cmd@),
            decreases tokens.len() - i,
        {
            assert(all[i as int] == tokens@[i as int]@);
            if tokens[i] == release {
                if cmd.build.is_concrete() {
                    return Err(ExampleError::DuplicateBuildType);
                }
                cmd.build = BuildType::Release;
                i += 1;
            } else if tokens[i] == profile {
                if cmd.build.is_concrete() {
                    return Err(ExampleError::DuplicateBuildType);
                }
                if i + 1 >= tokens.len() {
                    return Err(ExampleError::MissingProfileName);
                }
                assert(all[i + 1] == tokens@[i + 1]@);
                cmd.build = BuildType::Profile(tokens[i + 1].clone());
                i += 2;
            } else if tokens[i] == features {
                if i + 1 >= tokens.len() {
                    return Err(ExampleError::MissingFeatureList);
                }
                assert(all[i + 1] == tokens@[i + 1]@);
                match parse_string_if_quoted(tokens[i + 1].as_str()) {
                    Err(e) => {
                        return Err(e);
                    },
                    Ok(list) => {
                        cmd.features = split(list.as_str(), ',');
                    },
                }
                i += 2;
            } else {
                if i + 1 >= tokens.len() {
                    return Err(ExampleError::DanglingKey);
                }
                assert(all[i + 1] == tokens@[i + 1]@);
                let ghost before = pair_texts(cmd.args@);
                cmd.args.push((tokens[i].clone(), tokens[i + 1].clone()));
                assert(pair_texts(cmd.args@) =~= before.push((all[i as int], all[i + 1])));
                i += 2;
            }
        }
        Ok(cmd)
    }

    /// Create from a string
    pub fn from_str(c: &str, example_name: &str) -> (r: Result<CargoCommand, ExampleError>)
        ensures
            outcome(r) == CommandModel::parsed(c@, example_name@),
    {
        if c.is_empty() {
            let none: Vec<String> = Vec::new();
            assert(texts(none@) =~= Seq::empty());
            return Self::from_tokens(&none, example_name);
        }
        let tokens = split(c, ' ');
        Self::from_tokens(&tokens, example_name)
    }
}

/// A default build type never takes the place of a build type that is
/// already decided: the command stays as it is.
pub proof fn lemma_default_keeps_decided_build(command: CommandModel, candidate: BuildModel)
    requires
        command.build.is_concrete(),
        candidate.is_concrete(),
    ensures
        command.with_default_build(candidate) == Ok::<CommandModel, ErrorModel>(command),
{
}

/// A default build type is taken by a command whose build type is undecided,
/// and nothing else of the command changes.
pub proof fn lemma_default_fills_undecided_build(command: CommandModel, candidate: BuildModel)
    requires
        !command.build.is_concrete(),
        candidate.is_concrete(),
    ensures
        command.with_default_build(candidate) == Ok::<CommandModel, ErrorModel>(
            CommandModel { build: candidate, ..command },
        ),
{
}

/// Setting a decided build type on a command: an undecided command takes it,
/// a command that has this very build type stays as it is, and a command
/// with another decided build type is refused.
pub proof fn lemma_set_build(command: CommandModel, candidate: BuildModel)
    requires
        candidate.is_concrete(),
    ensures
        !command.build.is_concrete() ==> command.with_build(candidate) == Ok::<
            CommandModel,
            ErrorModel,
        >(CommandModel { build: candidate, ..command }),
        command.build == candidate ==> command.with_build(candidate) == Ok::<
            CommandModel,
            ErrorModel,
        >(command),
        command.build.is_concrete() && command.build != candidate ==> command.with_build(candidate)
            == Err::<CommandModel, ErrorModel>(
            ErrorModel::ConflictingBuildType(command.example_name),
        ),
{
}

/// Requiring no features changes no command.
pub proof fn lemma_no_required_features(command: CommandModel)
    ensures
        command.with_required_features(Seq::empty()) == Ok::<CommandModel, ErrorModel>(command),
{
    if command.features.len() == 0 {
        assert(command.features =~= Seq::<Seq<char>>::empty());
    }
}

/// A command without features takes the required ones as they are; a command
/// with features keeps its own, and is accepted exactly when each required
/// feature is among them.
pub proof fn lemma_required_features(command: CommandModel, required: Seq<Seq<char>>)
    ensures
        command.features.len() == 0 ==> command.with_required_features(required) == Ok::<
            CommandModel,
            ErrorModel,
        >(CommandModel { features: required, ..command }),
        command.features.len() > 0 ==> (command.with_required_features(required) is Ok <==> forall|
            i: int,
        |
            0 <= i < required.len() ==> command.features.contains(#[trigger] required[i])),
        command.with_required_features(required) is Ok && command.features.len() > 0
            ==> command.with_required_features(required) == Ok::<CommandModel, ErrorModel>(command),
{
    lemma_first_missing(required, command.features);
}

/// The first missing feature is a required one that is not present, and
/// there is none exactly when every required feature is present.
pub proof fn lemma_first_missing(required: Seq<Seq<char>>, present: Seq<Seq<char>>)
    ensures
        match first_missing(required, present) {
            Some(f) => required.contains(f) && !present.contains(f),
            None => forall|i: int|
                0 <= i < required.len() ==> present.contains(#[trigger] required[i]),
        },
    decreases required.len(),
{
    if required.len() > 0 {
        lemma_first_missing(required.skip(1), present);
        if present.contains(required[0]) {
            match first_missing(required.skip(1), present) {
                Some(f) => {
                    let k = choose|k: int|
                        0 <= k < required.skip(1).len() && required.skip(1)[k] == f;
                    assert(required[k + 1] == f);
                },
                None => {
                    assert forall|i: int| 0 <= i < required.len() implies present.contains(
                        #[trigger] required[i],
                    ) by {
                        if i > 0 {
                            assert(required.skip(1)[i - 1] == required[i]);
                        }
                    }
                },
            }
        } else {
            assert(required[0] == required[0]);
        }
    }
}

} // verus!
