//! Template arguments and the expansion of commands over them.

use vstd::prelude::*;
use crate::text::{
    chars_of, string_of, texts, contains, contains_text, occurs_at, replace, replace_all,
    append_chars, copy_strings, lemma_texts_push,
};

verus! {

/// A table of template arguments, as texts: each placeholder's name with the
/// values to put in its place, in the order in which the names came in.
pub type TableModel = Seq<(Seq<char>, Seq<Seq<char>>)>;

/// The texts of the entries of a table.
pub open spec fn entry_texts(v: Seq<(String, Vec<String>)>) -> TableModel {
    Seq::new(v.len(), |i: int| (v[i].0@, texts(v[i].1@)))
}

/// The name that is kept for the default build type and never stands for a
/// placeholder.
pub open spec fn reserved_name() -> Seq<char> {
    "build"@
}

/// Whether the table has an entry for `name`.
pub open spec fn has_name(table: TableModel, name: Seq<char>) -> bool {
    exists|i: int| 0 <= i < table.len() && (#[trigger] table[i]).0 == name
}

/// Where the entry for `name` stands in a table that has one.
pub open spec fn position_of(table: TableModel, name: Seq<char>) -> int {
    choose|i: int| 0 <= i < table.len() && (#[trigger] table[i]).0 == name
}

/// A table is well formed when no name stands in it twice and the reserved
/// name is not in it.
pub open spec fn table_wf(table: TableModel) -> bool {
    &&& forall|i: int, j: int|
        0 <= i < j < table.len() ==> (#[trigger] table[i]).0 != (#[trigger] table[j]).0
    &&& !has_name(table, reserved_name())
}

/// In a well-formed table a name stands where it is found, and nowhere else.
pub proof fn lemma_position(table: TableModel, name: Seq<char>, i: int)
    requires
        table_wf(table),
        0 <= i < table.len(),
        table[i].0 == name,
    ensures
        has_name(table, name),
        position_of(table, name) == i,
{
    let p = position_of(table, name);
    assert(0 <= p < table.len() && table[p].0 == name);
    if p < i {
        assert(table[p].0 != table[i].0);
    } else if i < p {
        assert(table[i].0 != table[p].0);
    }
}

/// The table after `values` were given for `name`: the reserved name is left
/// out, the values of a name that is already there are replaced where they
/// stand, and a new name comes last.
pub open spec fn table_with(table: TableModel, name: Seq<char>, values: Seq<Seq<char>>) -> TableModel {
    if name == reserved_name() {
        table
    } else if has_name(table, name) {
        table.update(position_of(table, name), (name, values))
    } else {
        table.push((name, values))
    }
}

/// The text that stands for the placeholder `name` in a command.
pub open spec fn placeholder(name: Seq<char>) -> Seq<char> {
    "{{"@ + name + "}}"@
}

/// What one command becomes for one placeholder: one command for each value
/// where the placeholder stands in it, each with every occurrence replaced by
/// that value; else the command itself, once.
pub open spec fn substituted(command: Seq<char>, name: Seq<char>, values: Seq<Seq<char>>) -> Seq<
    Seq<char>,
> {
    if contains_text(command, placeholder(name)) {
        Seq::new(values.len(), |k: int| replace_all(command, placeholder(name), values[k]))
    } else {
        seq![command]
    }
}

/// What a list of commands becomes for one placeholder: the commands that
/// each of them becomes, in their order.
pub open spec fn expanded_by(commands: Seq<Seq<char>>, name: Seq<char>, values: Seq<Seq<char>>) -> Seq<
    Seq<char>,
>
    decreases commands.len(),
{
    if commands.len() == 0 {
        Seq::empty()
    } else {
        expanded_by(commands.drop_last(), name, values) + substituted(
            commands.last(),
            name,
            values,
        )
    }
}

/// What a list of commands becomes for a table: it is expanded by each entry
/// in turn, in the table's order.
pub open spec fn expanded(commands: Seq<Seq<char>>, table: TableModel) -> Seq<Seq<char>>
    decreases table.len(),
{
    if table.len() == 0 {
        commands
    } else {
        expanded_by(expanded(commands, table.drop_last()), table.last().0, table.last().1)
    }
}

/// Template arguments: for each placeholder's name the values to put in its
/// place. No name stands in it twice, and the name kept for the default build
/// type never does.
pub struct TemplateArgs {
    entries: Vec<(String, Vec<String>)>,
}

impl View for TemplateArgs {
    type V = TableModel;

    closed spec fn view(&self) -> TableModel {
        entry_texts(self.entries@)
    }
}

impl TemplateArgs {
    /// Whether the table is well formed.
    pub open spec fn wf(&self) -> bool {
        table_wf(self@)
    }

    /// A table without entries.
    pub fn new() -> (t: TemplateArgs)
        ensures
            t@ == TableModel::empty(),
            t.wf(),
    {
        let t = TemplateArgs { entries: Vec::new() };
        assert(t@ =~= TableModel::empty());
        t
    }

    /// A copy of the table.
    pub fn copy(&self) -> (t: TemplateArgs)
        ensures
            t@ == self@,
    {
        let mut entries: Vec<(String, Vec<String>)> = Vec::new();
        let mut i: usize = 0;
        while i < self.entries.len()
            invariant
                i <= self.entries.len(),
                entry_texts(entries@) == self@.take(i as int),
            decreases self.entries.len() - i,
        {
            let ghost before = entry_texts(entries@);
            let values = copy_strings(self.entries[i].1.as_slice());
            entries.push((self.entries[i].0.clone(), values));
            assert(entry_texts(entries@) =~= before.push(self@[i as int]));
            assert(self@.take(i + 1) =~= self@.take(i as int).push(self@[i as int]));
            i += 1;
        }
        assert(self@.take(self.entries.len() as int) =~= self@);
        TemplateArgs { entries }
    }

    /// The number of names in the table.
    pub fn len(&self) -> (n: usize)
        ensures
            n == self@.len(),
    {
        self.entries.len()
    }

    /// The values given for `name`, if any were.
    pub fn get(&self, name: &str) -> (values: Option<&Vec<String>>)
        requires
            self.wf(),
        ensures
            match values {
                Some(v) => has_name(self@, name@) && texts(v@) == self@[position_of(
                    self@,
                    name@,
                )].1,
                None => !has_name(self@, name@),
            },
    {
        let wanted = name.to_owned();
        let mut i: usize = 0;
        while i < self.entries.len()
            invariant
                i <= self.entries.len(),
                wanted@ == name@,
                self.wf(),
                forall|j: int| 0 <= j < i ==> (#[trigger] self@[j]).0 != name@,
            decreases self.entries.len() - i,
        {
            if self.entries[i].0 == wanted {
                proof {
                    lemma_position(self@, name@, i as int);
                }
                return Some(&self.entries[i].1);
            }
            i += 1;
        }
        None
    }

    /// Give `values` for `name`, in place of any that were given for it
    /// before. The reserved name is not taken: the table stays as it is, and
    /// the answer is `false`.
    pub fn insert(&mut self, name: String, values: Vec<String>) -> (taken: bool)
        requires
            old(self).wf(),
        ensures
            final(self).wf(),
            final(self)@ == table_with(old(self)@, name@, texts(values@)),
            taken == (name@ != reserved_name()),
    {
        if name == "build".to_owned() {
            return false;
        }
        let mut i: usize = 0;
        while i < self.entries.len()
            invariant
                i <= self.entries.len(),
                *self == *old(self),
                self.wf(),
                name@ != reserved_name(),
                forall|j: int| 0 <= j < i ==> (#[trigger] self@[j]).0 != name@,
            decreases self.entries.len() - i,
        {
            if self.entries[i].0 == name {
                let ghost before = self@;
                proof {
                    lemma_position(before, name@, i as int);
                }
                self.entries[i] = (name, values);
                assert(self@ =~= before.update(i as int, (name@, texts(values@))));
                proof {
                    let after = self@;
                    assert forall|a: int, b: int| 0 <= a < b < after.len() implies (
                    #[trigger] after[a]).0 != (#[trigger] after[b]).0 by {
                        assert(after[a].0 == before[a].0);
                        assert(after[b].0 == before[b].0);
                    }
                    if has_name(after, reserved_name()) {
                        let k = position_of(after, reserved_name());
                        assert(before[k].0 == reserved_name());
                    }
                }
                return true;
            }
            i += 1;
        }
        let ghost before = self@;
        self.entries.push((name, values));
        assert(self@ =~= before.push((name@, texts(values@))));
        proof {
            let after = self@;
            assert forall|a: int, b: int| 0 <= a < b < after.len() implies (#[trigger] after[a]).0
                != (#[trigger] after[b]).0 by {
                if b < before.len() {
                    assert(after[a] == before[a]);
                    assert(after[b] == before[b]);
                } else {
                    assert(after[a] == before[a]);
                }
            }
            if has_name(after, reserved_name()) {
                let k = position_of(after, reserved_name());
                if k < before.len() {
                    assert(before[k].0 == reserved_name());
                }
            }
        }
        true
    }
}

/// The commands that one command becomes for one placeholder.
fn substitute(command: &String, pattern: &Vec<char>, values: &Vec<String>, out: &mut Vec<String>)
    requires
        pattern.len() > 0,
    ensures
        texts(final(out)@) == texts(old(out)@) + (if contains_text(command@, pattern@) {
            Seq::new(values.len() as nat, |k: int| replace_all(command@, pattern@, values[k]@))
        } else {
            seq![command@]
        }),
{
    let chars = chars_of(command.as_str());
    if contains(&chars, pattern) {
        let mut k: usize = 0;
        let ghost all = Seq::new(
            values.len() as nat,
            |k: int| replace_all(command@, pattern@, values[k]@),
        );
        assert(texts(out@) =~= texts(old(out)@) + all.take(0));
        while k < values.len()
            invariant
                k <= values.len(),
                chars@ == command@,
                pattern.len() > 0,
                all == Seq::new(
                    values.len() as nat,
                    |k: int| replace_all(command@, pattern@, values[k]@),
                ),
                texts(out@) == texts(old(out)@) + all.take(k as int),
            decreases values.len() - k,
        {
            let value = chars_of(values[k].as_str());
            let replaced = string_of(&replace(&chars, pattern, &value));
            proof {
                lemma_texts_push(out@, replaced);
                assert(all.take(k + 1) =~= all.take(k as int).push(all[k as int]));
                assert(texts(old(out)@) + all.take(k + 1) =~= (texts(old(out)@) + all.take(
                    k as int,
                )).push(replaced@));
            }
            out.push(replaced);
            k += 1;
        }
        assert(all.take(values.len() as int) =~= all);
    } else {
        proof {
            lemma_texts_push(out@, *command);
            assert(texts(out@).push(command@) =~= texts(out@) + seq![command@]);
        }
        out.push(command.clone());
    }
}

/// Expand the commands by every entry of the table in turn: a command in
/// which an entry's placeholder stands becomes one command for each of the
/// entry's values, and any other command stays as it is.
pub fn expand_templates(examples: Vec<String>, args: &TemplateArgs) -> (commands: Vec<String>)
    ensures
        texts(commands@) == expanded(texts(examples@), args@),
{
    let mut commands = examples;
    let mut i: usize = 0;
    assert(args@.take(0) =~= TableModel::empty());
    while i < args.entries.len()
        invariant
            i <= args.entries.len(),
            texts(commands@) == expanded(texts(examples@), args@.take(i as int)),
        decreases args.entries.len() - i,
    {
        let mut pattern: Vec<char> = Vec::new();
        pattern.push('{');
        pattern.push('{');
        let name = chars_of(args.entries[i].0.as_str());
        append_chars(&mut pattern, &name);
        pattern.push('}');
        pattern.push('}');
        proof {
            reveal_strlit("{{");
            reveal_strlit("}}");
            assert(pattern@ =~= placeholder(args@[i as int].0));
        }
        let values = &args.entries[i].1;
        let ghost name_text = args@[i as int].0;
        let ghost value_texts = args@[i as int].1;
        let mut next: Vec<String> = Vec::new();
        let mut j: usize = 0;
        assert(texts(commands@).take(0) =~= Seq::<Seq<char>>::empty());
        assert(texts(next@) =~= Seq::<Seq<char>>::empty());
        while j < commands.len()
            invariant
                j <= commands.len(),
                i < args.entries.len(),
                pattern.len() > 0,
                pattern@ == placeholder(name_text),
                name_text == args@[i as int].0,
                value_texts == args@[i as int].1,
                value_texts == texts(values@),
                texts(next@) == expanded_by(texts(commands@).take(j as int), name_text, value_texts),
            decreases commands.len() - j,
        {
            let ghost before = texts(next@);
            substitute(&commands[j], &pattern, values, &mut next);
            proof {
                let upto = texts(commands@).take(j + 1);
                assert(upto.drop_last() =~= texts(commands@).take(j as int));
                assert(upto.last() == commands@[j as int]@);
                assert(Seq::new(
                    values.len() as nat,
                    |k: int| replace_all(commands@[j as int]@, pattern@, values[k]@),
                ) =~= Seq::new(
                    value_texts.len(),
                    |k: int| replace_all(upto.last(), placeholder(name_text), value_texts[k]),
                ));
            }
            j += 1;
        }
        proof {
            assert(texts(commands@).take(commands.len() as int) =~= texts(commands@));
            let upto = args@.take(i + 1);
            assert(upto.drop_last() =~= args@.take(i as int));
            assert(upto.last() == args@[i as int]);
        }
        commands = next;
        i += 1;
    }
    assert(args@.take(args.entries.len() as int) =~= args@);
    commands
}

/// A command in which a placeholder stands, expanded by that placeholder
/// alone, becomes one command for each value, in the values' order: the
/// command with every occurrence of the placeholder replaced by that value.
pub proof fn lemma_expand_one_placeholder(
    command: Seq<char>,
    name: Seq<char>,
    values: Seq<Seq<char>>,
)
    requires
        contains_text(command, placeholder(name)),
    ensures
        expanded(seq![command], seq![(name, values)]).len() == values.len(),
        forall|k: int|
            0 <= k < values.len() ==> #[trigger] expanded(seq![command], seq![(name, values)])[k]
                == replace_all(command, placeholder(name), values[k]),
{
    let table = seq![(name, values)];
    assert(table.drop_last() =~= TableModel::empty());
    assert(expanded(seq![command], table.drop_last()) == seq![command]);
    lemma_expand_single(command, name, values);
}

/// A single command expanded by one entry becomes what is substituted for
/// it.
pub proof fn lemma_expand_single(command: Seq<char>, name: Seq<char>, values: Seq<Seq<char>>)
    ensures
        expanded_by(seq![command], name, values) == substituted(command, name, values),
{
    let one = seq![command];
    assert(one.drop_last() =~= Seq::<Seq<char>>::empty());
    assert(expanded_by(one.drop_last(), name, values) =~= Seq::<Seq<char>>::empty());
    assert(expanded_by(one, name, values) =~= substituted(command, name, values));
}

/// A command in which none of the table's placeholders stands comes out of
/// the expansion once and unchanged, whatever the table holds.
pub proof fn lemma_expand_without_placeholder(command: Seq<char>, table: TableModel)
    requires
        forall|i: int|
            0 <= i < table.len() ==> !contains_text(command, placeholder((#[trigger] table[i]).0)),
    ensures
        expanded(seq![command], table) == seq![command],
    decreases table.len(),
{
    if table.len() > 0 {
        let before = table.drop_last();
        assert forall|i: int| 0 <= i < before.len() implies !contains_text(
            command,
            placeholder((#[trigger] before[i]).0),
        ) by {
            assert(before[i] == table[i]);
        }
        lemma_expand_without_placeholder(command, before);
        assert(!contains_text(command, placeholder(table[table.len() - 1].0)));
        lemma_expand_single(command, table.last().0, table.last().1);
    }
}

/// A command without two opening braces in a row holds no placeholder, so it
/// comes out of the expansion once and unchanged, whatever the table holds.
pub proof fn lemma_expand_without_braces(command: Seq<char>, table: TableModel)
    requires
        !contains_text(command, "{{"@),
    ensures
        expanded(seq![command], table) == seq![command],
{
    assert forall|i: int| 0 <= i < table.len() implies !contains_text(
        command,
        placeholder((#[trigger] table[i]).0),
    ) by {
        let pattern = placeholder(table[i].0);
        if contains_text(command, pattern) {
            let at = choose|at: int| occurs_at(command, pattern, at);
            reveal_strlit("{{");
            assert(command.subrange(at, at + 2) =~= command.subrange(
                at,
                at + pattern.len(),
            ).subrange(0, 2));
            assert(pattern.subrange(0, 2) =~= "{{"@);
            assert(occurs_at(command, "{{"@, at));
        }
    }
    lemma_expand_without_placeholder(command, table);
}

/// An empty table expands nothing.
pub proof fn lemma_expand_empty_table(commands: Seq<Seq<char>>)
    ensures
        expanded(commands, TableModel::empty()) == commands,
{
}

/// A text in which the pattern does not stand is not changed by replacing
/// it.
pub proof fn lemma_replace_absent(s: Seq<char>, pattern: Seq<char>, to: Seq<char>)
    requires
        !contains_text(s, pattern),
    ensures
        replace_all(s, pattern, to) == s,
    decreases s.len(),
{
    if pattern.len() > 0 && s.len() >= pattern.len() {
        assert(!occurs_at(s, pattern, 0));
        let rest = s.skip(1);
        if contains_text(rest, pattern) {
            let at = choose|at: int| occurs_at(rest, pattern, at);
            assert(s.subrange(at + 1, at + 1 + pattern.len()) =~= rest.subrange(
                at,
                at + pattern.len(),
            ));
            assert(occurs_at(s, pattern, at + 1));
        }
        lemma_replace_absent(rest, pattern, to);
        assert(seq![s[0]] + rest =~= s);
    }
}

/// Where the pattern stands in a text exactly once, replacing it puts the
/// new text in its place and keeps what is before and after it, character
/// for character.
pub proof fn lemma_replace_one_occurrence(
    before: Seq<char>,
    pattern: Seq<char>,
    after: Seq<char>,
    to: Seq<char>,
)
    requires
        pattern.len() > 0,
        forall|at: int| occurs_at(before + pattern + after, pattern, at) ==> at == before.len(),
    ensures
        replace_all(before + pattern + after, pattern, to) == before + to + after,
    decreases before.len(),
{
    let s = before + pattern + after;
    if before.len() == 0 {
        assert(s.subrange(0, pattern.len() as int) =~= pattern);
        assert(occurs_at(s, pattern, 0));
        assert(s.skip(pattern.len() as int) =~= after);
        if contains_text(after, pattern) {
            let at = choose|at: int| occurs_at(after, pattern, at);
            assert(s.subrange(at + pattern.len(), at + pattern.len() + pattern.len())
                =~= after.subrange(at, at + pattern.len()));
            assert(occurs_at(s, pattern, at + pattern.len()));
        }
        lemma_replace_absent(after, pattern, to);
        assert(to + after =~= before + to + after);
    } else {
        assert(!occurs_at(s, pattern, 0));
        let shorter = before.skip(1);
        assert(s.skip(1) =~= shorter + pattern + after);
        assert forall|at: int| occurs_at(shorter + pattern + after, pattern, at) implies at
            == shorter.len() by {
            assert(s.subrange(at + 1, at + 1 + pattern.len()) =~= (shorter + pattern
                + after).subrange(at, at + pattern.len()));
            assert(occurs_at(s, pattern, at + 1));
        }
        lemma_replace_one_occurrence(shorter, pattern, after, to);
        assert(seq![s[0]] + (shorter + to + after) =~= before + to + after);
    }
}

/// Each command is expanded by itself: a list of commands expands to what
/// its parts expand to, one after the other.
pub proof fn lemma_expand_concat(a: Seq<Seq<char>>, b: Seq<Seq<char>>, table: TableModel)
    ensures
        expanded(a + b, table) == expanded(a, table) + expanded(b, table),
    decreases table.len(),
{
    if table.len() > 0 {
        lemma_expand_concat(a, b, table.drop_last());
        lemma_expand_by_concat(
            expanded(a, table.drop_last()),
            expanded(b, table.drop_last()),
            table.last().0,
            table.last().1,
        );
    }
}

/// Each command is expanded by itself, for one placeholder.
pub proof fn lemma_expand_by_concat(
    a: Seq<Seq<char>>,
    b: Seq<Seq<char>>,
    name: Seq<char>,
    values: Seq<Seq<char>>,
)
    ensures
        expanded_by(a + b, name, values) == expanded_by(a, name, values) + expanded_by(
            b,
            name,
            values,
        ),
    decreases b.len(),
{
    if b.len() == 0 {
        assert(a + b =~= a);
        assert(expanded_by(a, name, values) + expanded_by(b, name, values) =~= expanded_by(
            a,
            name,
            values,
        ));
    } else {
        assert((a + b).drop_last() =~= a + b.drop_last());
        assert((a + b).last() == b.last());
        lemma_expand_by_concat(a, b.drop_last(), name, values);
        assert(expanded_by(a + b, name, values) =~= expanded_by(a, name, values) + expanded_by(
            b,
            name,
            values,
        ));
    }
}

/// Giving values for a name that is not reserved keeps the table well
/// formed, makes them the values of that name, whatever stood there before,
/// and changes the values of no other name.
pub proof fn lemma_table_with(
    table: TableModel,
    name: Seq<char>,
    values: Seq<Seq<char>>,
    other: Seq<char>,
)
    requires
        table_wf(table),
        name != reserved_name(),
        other != name,
    ensures
        table_wf(table_with(table, name, values)),
        has_name(table_with(table, name, values), name),
        table_with(table, name, values)[position_of(table_with(table, name, values), name)].1
            == values,
        has_name(table_with(table, name, values), other) == has_name(table, other),
        has_name(table, other) ==> table_with(table, name, values)[position_of(
            table_with(table, name, values),
            other,
        )].1 == table[position_of(table, other)].1,
{
    let after = table_with(table, name, values);
    let at = if has_name(table, name) {
        position_of(table, name)
    } else {
        table.len() as int
    };
    assert(after.len() > at && after[at] == (name, values));
    assert forall|i: int| 0 <= i < after.len() && i != at implies after[i] == table[i] by {}
    assert forall|i: int, j: int| 0 <= i < j < after.len() implies (#[trigger] after[i]).0 != (
    #[trigger] after[j]).0 by {
        if i != at && j != at {
            assert(table[i].0 != table[j].0);
        } else if i == at {
            assert(after[j] == table[j]);
            if has_name(table, name) {
                assert(table[at].0 != table[j].0);
            }
        } else {
            assert(after[i] == table[i]);
            if has_name(table, name) {
                assert(table[i].0 != table[at].0);
            } else if table[i].0 == name {
                assert(has_name(table, name));
            }
        }
    }
    if has_name(after, reserved_name()) {
        let k = position_of(after, reserved_name());
        assert(after[k].0 == reserved_name());
        assert(k != at);
        assert(table[k].0 == reserved_name());
    }
    lemma_position(after, name, at);
    if has_name(table, other) {
        let k = position_of(table, other);
        assert(table[k].0 == other);
        assert(k != at);
        assert(after[k] == table[k]);
        lemma_position(after, other, k);
    }
    if has_name(after, other) {
        let k = position_of(after, other);
        assert(after[k].0 == other);
        assert(k != at);
        assert(table[k].0 == other);
    }
}

/// Expanding by a table is expanding by its first part and then by the
/// rest.
pub proof fn lemma_expand_in_turn(commands: Seq<Seq<char>>, first: TableModel, rest: TableModel)
    ensures
        expanded(commands, first + rest) == expanded(expanded(commands, first), rest),
    decreases rest.len(),
{
    if rest.len() == 0 {
        assert(first + rest =~= first);
    } else {
        assert((first + rest).drop_last() =~= first + rest.drop_last());
        assert((first + rest).last() == rest.last());
        lemma_expand_in_turn(commands, first, rest.drop_last());
    }
}

/// Commands in which none of the table's placeholders stands come out of the
/// expansion as they went in.
pub proof fn lemma_expand_all_without_placeholder(commands: Seq<Seq<char>>, table: TableModel)
    requires
        forall|c: int, i: int|
            0 <= c < commands.len() && 0 <= i < table.len() ==> !contains_text(
                #[trigger] commands[c],
                placeholder((#[trigger] table[i]).0),
            ),
    ensures
        expanded(commands, table) == commands,
    decreases commands.len(),
{
    if commands.len() == 0 {
        lemma_expand_nothing(table);
        assert(commands =~= Seq::<Seq<char>>::empty());
    } else {
        let before = commands.drop_last();
        let last = commands.last();
        assert(commands =~= before + seq![last]);
        lemma_expand_concat(before, seq![last], table);
        assert forall|c: int, i: int| 0 <= c < before.len() && 0 <= i < table.len()
            implies !contains_text(#[trigger] before[c], placeholder((#[trigger] table[i]).0)) by {
            assert(before[c] == commands[c]);
        }
        lemma_expand_all_without_placeholder(before, table);
        assert forall|i: int| 0 <= i < table.len() implies !contains_text(
            last,
            placeholder((#[trigger] table[i]).0),
        ) by {
            assert(commands[commands.len() - 1] == last);
        }
        lemma_expand_without_placeholder(last, table);
    }
}

/// No commands expand to no commands.
pub proof fn lemma_expand_nothing(table: TableModel)
    ensures
        expanded(Seq::empty(), table) == Seq::<Seq<char>>::empty(),
    decreases table.len(),
{
    if table.len() > 0 {
        lemma_expand_nothing(table.drop_last());
    }
}

/// A command in which the placeholder of one entry of the table stands, and
/// no placeholder of another entry, before or after the values are put in,
/// becomes one command for each value of that entry, in the values' order:
/// the command with every occurrence of the placeholder replaced by that
/// value.
pub proof fn lemma_expand_only_placeholder(command: Seq<char>, table: TableModel, k: int)
    requires
        0 <= k < table.len(),
        contains_text(command, placeholder(table[k].0)),
        forall|i: int|
            0 <= i < table.len() && i != k ==> !contains_text(
                command,
                placeholder((#[trigger] table[i]).0),
            ),
        forall|i: int, v: int|
            0 <= i < table.len() && i != k && 0 <= v < table[k].1.len() ==> !contains_text(
                replace_all(command, placeholder(table[k].0), #[trigger] table[k].1[v]),
                placeholder((#[trigger] table[i]).0),
            ),
    ensures
        expanded(seq![command], table) == Seq::new(
            table[k].1.len(),
            |v: int| replace_all(command, placeholder(table[k].0), table[k].1[v]),
        ),
{
    let name = table[k].0;
    let values = table[k].1;
    let before = table.take(k);
    let entry = seq![table[k]];
    let after = table.skip(k + 1);
    let results = Seq::new(values.len(), |v: int| replace_all(command, placeholder(name), values[v]));
    assert(table =~= (before + entry) + after);
    lemma_expand_in_turn(seq![command], before + entry, after);
    lemma_expand_in_turn(seq![command], before, entry);
    assert forall|i: int| 0 <= i < before.len() implies !contains_text(
        command,
        placeholder((#[trigger] before[i]).0),
    ) by {
        assert(before[i] == table[i]);
    }
    lemma_expand_without_placeholder(command, before);
    lemma_expand_one_placeholder(command, name, values);
    assert(entry =~= seq![(name, values)]);
    assert(expanded(seq![command], entry) =~= results);
    assert forall|c: int, i: int| 0 <= c < results.len() && 0 <= i < after.len()
        implies !contains_text(#[trigger] results[c], placeholder((#[trigger] after[i]).0)) by {
        assert(after[i] == table[k + 1 + i]);
        assert(results[c] == replace_all(command, placeholder(table[k].0), table[k].1[c]));
    }
    lemma_expand_all_without_placeholder(results, after);
}

/// The number of combinations of the values of a table: the product of the
/// numbers of values of its entries.
pub open spec fn combinations(table: TableModel) -> nat
    decreases table.len(),
{
    if table.len() == 0 {
        1
    } else {
        combinations(table.drop_last()) * table.last().1.len()
    }
}

/// Whether every placeholder of the table is still in every command when its
/// turn comes in the expansion.
pub open spec fn uses_every_placeholder(commands: Seq<Seq<char>>, table: TableModel) -> bool
    decreases table.len(),
{
    if table.len() == 0 {
        true
    } else {
        &&& uses_every_placeholder(commands, table.drop_last())
        &&& forall|c: int|
            0 <= c < expanded(commands, table.drop_last()).len() ==> contains_text(
                #[trigger] expanded(commands, table.drop_last())[c],
                placeholder(table.last().0),
            )
    }
}

/// Commands that all hold the placeholder become as many commands as there
/// are commands times values.
pub proof fn lemma_expand_by_count(commands: Seq<Seq<char>>, name: Seq<char>, values: Seq<Seq<char>>)
    requires
        forall|c: int|
            0 <= c < commands.len() ==> contains_text(#[trigger] commands[c], placeholder(name)),
    ensures
        expanded_by(commands, name, values).len() == commands.len() * values.len(),
    decreases commands.len(),
{
    if commands.len() > 0 {
        let before = commands.drop_last();
        assert forall|c: int| 0 <= c < before.len() implies contains_text(
            #[trigger] before[c],
            placeholder(name),
        ) by {
            assert(before[c] == commands[c]);
        }
        lemma_expand_by_count(before, name, values);
        assert(contains_text(commands[commands.len() - 1], placeholder(name)));
        assert((before.len() + 1) * values.len() == before.len() * values.len() + values.len())
            by (nonlinear_arith);
    } else {
        assert(0 * values.len() == 0) by (nonlinear_arith);
    }
}

/// Commands that use every placeholder of the table expand into the full
/// product: each command becomes as many commands as there are combinations
/// of the values.
pub proof fn lemma_expand_count(commands: Seq<Seq<char>>, table: TableModel)
    requires
        uses_every_placeholder(commands, table),
    ensures
        expanded(commands, table).len() == commands.len() * combinations(table),
    decreases table.len(),
{
    if table.len() == 0 {
        assert(commands.len() * 1 == commands.len()) by (nonlinear_arith);
    } else {
        let before = table.drop_last();
        lemma_expand_count(commands, before);
        lemma_expand_by_count(expanded(commands, before), table.last().0, table.last().1);
        let n = commands.len();
        let p = combinations(before);
        let v = table.last().1.len();
        assert((n * p) * v == n * (p * v)) by (nonlinear_arith);
    }
}

} // verus!
