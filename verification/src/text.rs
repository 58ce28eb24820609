//! Text as sequences of characters: splitting, joining, searching and
//! replacing, each stated over `Seq<char>`.

use vstd::prelude::*;

verus! {

/// `String::push` appends the character to the end of the string.
pub assume_specification[ std::string::String::push ](s: &mut std::string::String, c: char)
    ensures
        final(s)@ == old(s)@.push(c),
;

/// The pieces of `s` between the occurrences of `sep`. There is always one
/// piece more than there are separators: the empty text has one empty piece,
/// and two separators in a row have an empty piece between them.
pub open spec fn split_on(s: Seq<char>, sep: char) -> Seq<Seq<char>>
    decreases s.len(),
{
    if s.len() == 0 {
        seq![Seq::<char>::empty()]
    } else {
        let before = split_on(s.drop_last(), sep);
        if s.last() == sep {
            before.push(Seq::<char>::empty())
        } else {
            before.drop_last().push(before.last().push(s.last()))
        }
    }
}

/// The pieces joined again, with `sep` between each two of them.
pub open spec fn join_with(parts: Seq<Seq<char>>, sep: char) -> Seq<char>
    decreases parts.len(),
{
    if parts.len() == 0 {
        Seq::<char>::empty()
    } else if parts.len() == 1 {
        parts[0]
    } else {
        join_with(parts.drop_last(), sep).push(sep) + parts.last()
    }
}

/// Whether `pat` stands in `s` at position `i`.
pub open spec fn occurs_at(s: Seq<char>, pat: Seq<char>, i: int) -> bool {
    0 <= i && i + pat.len() <= s.len() && s.subrange(i, i + pat.len()) == pat
}

/// Whether `pat` stands somewhere in `s`.
pub open spec fn contains_text(s: Seq<char>, pat: Seq<char>) -> bool {
    exists|i: int| occurs_at(s, pat, i)
}

/// Whether `s` begins with `prefix`.
pub open spec fn starts_with(s: Seq<char>, prefix: Seq<char>) -> bool {
    occurs_at(s, prefix, 0)
}

/// `s` with every occurrence of the non-empty text `pat` replaced by `to`.
/// Occurrences are found from left to right and do not overlap; what was put
/// in is not searched again.
pub open spec fn replace_all(s: Seq<char>, pat: Seq<char>, to: Seq<char>) -> Seq<char>
    recommends
        pat.len() > 0,
    decreases s.len(),
{
    if pat.len() == 0 || s.len() < pat.len() {
        s
    } else if occurs_at(s, pat, 0) {
        to + replace_all(s.skip(pat.len() as int), pat, to)
    } else {
        seq![s[0]] + replace_all(s.skip(1), pat, to)
    }
}

/// The texts of a sequence of strings.
pub open spec fn texts(v: Seq<String>) -> Seq<Seq<char>> {
    Seq::new(v.len(), |i: int| v[i]@)
}

/// Pushing a string onto a sequence pushes its text onto the sequence's texts.
pub proof fn lemma_texts_push(before: Seq<String>, s: String)
    ensures
        texts(before.push(s)) == texts(before).push(s@),
{
    assert(texts(before.push(s)) =~= texts(before).push(s@));
}

/// The characters of a string, one by one.
pub fn chars_of(s: &str) -> (v: Vec<char>)
    ensures
        v@ == s@,
{
    let mut v: Vec<char> = Vec::new();
    let mut it = s.chars();
    for c in iter: it
        invariant
            iter.seq() == s@,
            v@ == iter.seq().take(iter.index()),
    {
        v.push(c);
    }
    v
}

/// A string of the characters of `v` from position `from` up to, and
/// without, position `to`.
pub fn string_between(v: &Vec<char>, from: usize, to: usize) -> (s: String)
    requires
        from <= to <= v.len(),
    ensures
        s@ == v@.subrange(from as int, to as int),
{
    let mut s = String::new();
    let mut i: usize = from;
    assert(v@.subrange(from as int, from as int) =~= Seq::<char>::empty());
    while i < to
        invariant
            from <= i <= to <= v.len(),
            s@ == v@.subrange(from as int, i as int),
        decreases to - i,
    {
        s.push(v[i]);
        assert(v@.subrange(from as int, i + 1) =~= v@.subrange(from as int, i as int).push(
            v@[i as int],
        ));
        i += 1;
    }
    s
}

/// A string of the given characters.
pub fn string_of(v: &Vec<char>) -> (s: String)
    ensures
        s@ == v@,
{
    assert(v@.subrange(0, v.len() as int) =~= v@);
    string_between(v, 0, v.len())
}

/// Split a string at every occurrence of `sep`.
pub fn split(s: &str, sep: char) -> (parts: Vec<String>)
    ensures
        texts(parts@) == split_on(s@, sep),
{
    let chars = chars_of(s);
    let mut parts: Vec<String> = Vec::new();
    let mut current = String::new();
    let mut i: usize = 0;
    assert(texts(parts@).push(current@) =~= seq![Seq::<char>::empty()]);
    assert(s@.take(0) =~= Seq::<char>::empty());
    while i < chars.len()
        invariant
            i <= chars.len(),
            chars@ == s@,
            split_on(s@.take(i as int), sep) == texts(parts@).push(current@),
        decreases chars.len() - i,
    {
        let c = chars[i];
        proof {
            assert(s@.take(i + 1).drop_last() =~= s@.take(i as int));
            assert(s@.take(i + 1).last() == c);
        }
        if c == sep {
            proof {
                lemma_texts_push(parts@, current);
            }
            parts.push(current);
            current = String::new();
        } else {
            let ghost before = texts(parts@).push(current@);
            current.push(c);
            assert(before.drop_last().push(before.last().push(c)) =~= texts(parts@).push(
                current@,
            ));
        }
        i += 1;
    }
    proof {
        assert(s@.take(chars.len() as int) =~= s@);
        lemma_texts_push(parts@, current);
    }
    parts.push(current);
    parts
}

/// Join strings, with `sep` between each two of them.
pub fn join(parts: &Vec<String>, sep: char) -> (s: String)
    ensures
        s@ == join_with(texts(parts@), sep),
{
    let mut s = String::new();
    let mut i: usize = 0;
    assert(texts(parts@).take(0) =~= Seq::<Seq<char>>::empty());
    while i < parts.len()
        invariant
            i <= parts.len(),
            s@ == join_with(texts(parts@).take(i as int), sep),
        decreases parts.len() - i,
    {
        if i > 0 {
            s.push(sep);
        }
        s.append(parts[i].as_str());
        proof {
            let next = texts(parts@).take(i + 1);
            assert(next.drop_last() =~= texts(parts@).take(i as int));
            assert(next.last() == parts[i as int]@);
            if i == 0 {
                assert(s@ =~= parts[i as int]@);
            }
        }
        i += 1;
    }
    assert(texts(parts@).take(parts.len() as int) =~= texts(parts@));
    s
}

/// Whether `pat` stands in `s` at position `i`.
pub fn matches_at(s: &Vec<char>, pat: &Vec<char>, i: usize) -> (found: bool)
    ensures
        found == occurs_at(s@, pat@, i as int),
{
    if pat.len() > s.len() || i > s.len() - pat.len() {
        return false;
    }
    let mut k: usize = 0;
    while k < pat.len()
        invariant
            k <= pat.len(),
            i + pat.len() <= s.len(),
            forall|j: int| 0 <= j < k ==> s@[i + j] == pat@[j],
        decreases pat.len() - k,
    {
        if s[i + k] != pat[k] {
            proof {
                assert(s@.subrange(i as int, i + pat.len())[k as int] == s@[i + k]);
            }
            return false;
        }
        k += 1;
    }
    assert(s@.subrange(i as int, i + pat.len()) =~= pat@);
    true
}

/// Whether `pat` stands somewhere in `s`.
pub fn contains(s: &Vec<char>, pat: &Vec<char>) -> (found: bool)
    ensures
        found == contains_text(s@, pat@),
{
    if pat.len() > s.len() {
        return false;
    }
    let last: usize = s.len() - pat.len();
    let mut i: usize = 0;
    while i < last
        invariant
            last == s.len() - pat.len(),
            i <= last,
            forall|j: int| 0 <= j < i ==> !occurs_at(s@, pat@, j),
        decreases last - i,
    {
        if matches_at(s, pat, i) {
            return true;
        }
        i += 1;
    }
    matches_at(s, pat, last)
}

/// Replace every occurrence of the non-empty text `pat` in `s` by `to`.
pub fn replace(s: &Vec<char>, pat: &Vec<char>, to: &Vec<char>) -> (out: Vec<char>)
    requires
        pat.len() > 0,
    ensures
        out@ == replace_all(s@, pat@, to@),
{
    let mut out: Vec<char> = Vec::new();
    let mut i: usize = 0;
    assert(s@.skip(0) =~= s@);
    while i < s.len()
        invariant
            i <= s.len(),
            pat.len() > 0,
            out@ + replace_all(s@.skip(i as int), pat@, to@) == replace_all(s@, pat@, to@),
        decreases s.len() - i,
    {
        let ghost rest = s@.skip(i as int);
        if matches_at(s, pat, i) {
            proof {
                assert(rest.subrange(0, pat.len() as int) =~= s@.subrange(
                    i as int,
                    i + pat.len(),
                ));
                assert(rest.skip(pat.len() as int) =~= s@.skip(i + pat.len()));
            }
            let ghost before = out@;
            append_chars(&mut out, to);
            assert(out@ + replace_all(s@.skip(i + pat.len()), pat@, to@) =~= before
                + replace_all(rest, pat@, to@));
            i += pat.len();
        } else {
            proof {
                if rest.len() >= pat.len() {
                    assert(rest.subrange(0, pat.len() as int) =~= s@.subrange(
                        i as int,
                        i + pat.len(),
                    ));
                }
                assert(rest.skip(1) =~= s@.skip(i + 1));
                assert(rest[0] == s@[i as int]);
            }
            let ghost before = out@;
            out.push(s[i]);
            proof {
                if rest.len() >= pat.len() {
                    assert(out@ + replace_all(s@.skip(i + 1), pat@, to@) =~= before
                        + replace_all(rest, pat@, to@));
                } else {
                    lemma_replace_short(s@.skip(i + 1), pat@, to@);
                    assert(out@ + s@.skip(i + 1) =~= before + rest);
                }
            }
            i += 1;
        }
    }
    assert(out@ + replace_all(s@.skip(s.len() as int), pat@, to@) =~= out@);
    out
}

/// A text shorter than the pattern holds no occurrence and stays as it is.
pub proof fn lemma_replace_short(s: Seq<char>, pat: Seq<char>, to: Seq<char>)
    requires
        s.len() < pat.len(),
    ensures
        replace_all(s, pat, to) == s,
{
}

/// Append the characters of `more` to `out`.
pub fn append_chars(out: &mut Vec<char>, more: &Vec<char>)
    ensures
        final(out)@ == old(out)@ + more@,
{
    let mut k: usize = 0;
    while k < more.len()
        invariant
            k <= more.len(),
            out@ == old(out)@ + more@.take(k as int),
        decreases more.len() - k,
    {
        out.push(more[k]);
        assert(more@.take(k + 1) =~= more@.take(k as int).push(more@[k as int]));
        k += 1;
    }
    assert(more@.take(more.len() as int) =~= more@);
}

/// Whether one of the strings has the text of `s`.
pub fn has_string(v: &Vec<String>, s: &String) -> (found: bool)
    ensures
        found == texts(v@).contains(s@),
{
    let mut i: usize = 0;
    while i < v.len()
        invariant
            i <= v.len(),
            forall|j: int| 0 <= j < i ==> texts(v@)[j] != s@,
        decreases v.len() - i,
    {
        if v[i] == *s {
            assert(texts(v@)[i as int] == s@);
            return true;
        }
        i += 1;
    }
    false
}

/// A copy of the strings.
pub fn copy_strings(v: &[String]) -> (copy: Vec<String>)
    ensures
        copy@ == v@,
{
    let mut copy: Vec<String> = Vec::new();
    let mut i: usize = 0;
    while i < v.len()
        invariant
            i <= v.len(),
            copy@ == v@.take(i as int),
        decreases v.len() - i,
    {
        copy.push(v[i].clone());
        assert(v@.take(i + 1) =~= v@.take(i as int).push(v@[i as int]));
        i += 1;
    }
    assert(v@.take(v.len() as int) =~= v@);
    copy
}

/// Whether two lists of strings hold the same texts in the same order.
pub fn same_strings(a: &Vec<String>, b: &Vec<String>) -> (same: bool)
    ensures
        same == (texts(a@) == texts(b@)),
{
    if a.len() != b.len() {
        assert(texts(a@).len() != texts(b@).len());
        return false;
    }
    let mut i: usize = 0;
    while i < a.len()
        invariant
            i <= a.len(),
            a.len() == b.len(),
            forall|j: int| 0 <= j < i ==> texts(a@)[j] == texts(b@)[j],
        decreases a.len() - i,
    {
        if a[i] != b[i] {
            assert(texts(a@)[i as int] != texts(b@)[i as int]);
            return false;
        }
        i += 1;
    }
    assert(texts(a@) =~= texts(b@));
    true
}

/// Splitting a text with more text after it that holds no separator: the
/// last piece grows by that text, the other pieces stay.
pub proof fn lemma_split_append(s: Seq<char>, more: Seq<char>, sep: char)
    requires
        !more.contains(sep),
    ensures
        split_on(s + more, sep) == split_on(s, sep).drop_last().push(
            split_on(s, sep).last() + more,
        ),
        split_on(s, sep).len() >= 1,
    decreases more.len(),
{
    lemma_split_has_pieces(s, sep);
    let pieces = split_on(s, sep);
    if more.len() == 0 {
        assert(s + more =~= s);
        assert(pieces.drop_last().push(pieces.last() + more) =~= pieces);
    } else {
        let shorter = more.drop_last();
        assert(!shorter.contains(sep)) by {
            if shorter.contains(sep) {
                let k = choose|k: int| 0 <= k < shorter.len() && shorter[k] == sep;
                assert(more[k] == sep);
            }
        }
        lemma_split_append(s, shorter, sep);
        assert((s + more).drop_last() =~= s + shorter);
        assert((s + more).last() == more.last());
        assert(more.last() != sep) by {
            assert(more[more.len() - 1] == more.last());
        }
        let before = split_on(s + shorter, sep);
        assert(before.drop_last().push(before.last().push(more.last())) =~= pieces.drop_last().push(
            pieces.last() + more,
        )) by {
            assert(before.last().push(more.last()) =~= pieces.last() + more);
        }
    }
}

/// Every text has at least one piece.
pub proof fn lemma_split_has_pieces(s: Seq<char>, sep: char)
    ensures
        split_on(s, sep).len() >= 1,
    decreases s.len(),
{
    if s.len() > 0 {
        lemma_split_has_pieces(s.drop_last(), sep);
    }
}

/// No piece holds the separator, and every character of a piece is one of
/// the text.
pub proof fn lemma_split_pieces(s: Seq<char>, sep: char)
    ensures
        forall|i: int|
            0 <= i < split_on(s, sep).len() ==> !(#[trigger] split_on(s, sep)[i]).contains(sep),
        forall|i: int, c: char|
            0 <= i < split_on(s, sep).len() && (#[trigger] split_on(s, sep)[i]).contains(c)
                ==> #[trigger] s.contains(c),
    decreases s.len(),
{
    let pieces = split_on(s, sep);
    if s.len() == 0 {
        assert forall|i: int| 0 <= i < pieces.len() implies !(#[trigger] pieces[i]).contains(
            sep,
        ) by {
            assert(pieces[i] =~= Seq::<char>::empty());
        }
        assert forall|i: int, c: char| 0 <= i < pieces.len() && (#[trigger] pieces[i]).contains(
            c,
        ) implies #[trigger] s.contains(c) by {
            assert(pieces[i] =~= Seq::<char>::empty());
        }
    } else {
        let shorter = s.drop_last();
        let before = split_on(shorter, sep);
        lemma_split_pieces(shorter, sep);
        lemma_split_has_pieces(shorter, sep);
        assert forall|c: char| shorter.contains(c) implies s.contains(c) by {
            let k = choose|k: int| 0 <= k < shorter.len() && shorter[k] == c;
            assert(s[k] == c);
        }
        assert(s.contains(s.last())) by {
            assert(s[s.len() - 1] == s.last());
        }
        assert forall|i: int| 0 <= i < pieces.len() implies !(#[trigger] pieces[i]).contains(
            sep,
        ) by {
            if s.last() == sep {
                if i < before.len() {
                    assert(pieces[i] == before[i]);
                } else {
                    assert(pieces[i] =~= Seq::<char>::empty());
                }
            } else {
                if i < before.len() - 1 {
                    assert(pieces[i] == before[i]);
                } else {
                    let grown = before.last().push(s.last());
                    assert(pieces[i] == grown);
                    if grown.contains(sep) {
                        let k = choose|k: int| 0 <= k < grown.len() && grown[k] == sep;
                        if k < before.last().len() {
                            assert(before.last()[k] == sep);
                            assert(before[before.len() - 1].contains(sep));
                        }
                    }
                }
            }
        }
        assert forall|i: int, c: char| 0 <= i < pieces.len() && (#[trigger] pieces[i]).contains(
            c,
        ) implies #[trigger] s.contains(c) by {
            if s.last() == sep {
                if i < before.len() {
                    assert(pieces[i] == before[i]);
                    assert(shorter.contains(c));
                } else {
                    assert(pieces[i] =~= Seq::<char>::empty());
                }
            } else {
                if i < before.len() - 1 {
                    assert(pieces[i] == before[i]);
                    assert(shorter.contains(c));
                } else {
                    let grown = before.last().push(s.last());
                    assert(pieces[i] == grown);
                    let k = choose|k: int| 0 <= k < grown.len() && grown[k] == c;
                    if k < before.last().len() {
                        assert(before.last()[k] == c);
                        assert(before[before.len() - 1].contains(c));
                        assert(shorter.contains(c));
                    }
                }
            }
        }
    }
}

/// Joining pieces that hold no separator and splitting the result gives the
/// pieces back.
pub proof fn lemma_split_join(parts: Seq<Seq<char>>, sep: char)
    requires
        parts.len() >= 1,
        forall|i: int| 0 <= i < parts.len() ==> !(#[trigger] parts[i]).contains(sep),
    ensures
        split_on(join_with(parts, sep), sep) == parts,
    decreases parts.len(),
{
    let empty = Seq::<char>::empty();
    if parts.len() == 1 {
        lemma_split_append(empty, parts[0], sep);
        assert(empty + parts[0] =~= parts[0]);
        assert(split_on(empty, sep) =~= seq![empty]);
        assert(seq![empty].drop_last().push(seq![empty].last() + parts[0]) =~= parts);
    } else {
        let before = parts.drop_last();
        assert forall|i: int| 0 <= i < before.len() implies !(#[trigger] before[i]).contains(
            sep,
        ) by {
            assert(before[i] == parts[i]);
        }
        lemma_split_join(before, sep);
        let joined = join_with(before, sep);
        let marked = joined.push(sep);
        assert(marked.drop_last() =~= joined);
        assert(split_on(marked, sep) == before.push(empty));
        lemma_split_append(marked, parts.last(), sep);
        assert(before.push(empty).drop_last().push(before.push(empty).last() + parts.last())
            =~= parts) by {
            assert(empty + parts.last() =~= parts.last());
        }
    }
}

} // verus!
