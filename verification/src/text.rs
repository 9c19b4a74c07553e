//! Moving between strings and the sequences of characters that contracts speak of.

use vstd::prelude::*;
use vstd::string::*;

verus! {

/// Appends one character to a string, by `String::push`, which std documents
/// as appending the given character to the end of the string.
#[verifier::external_body]
pub(crate) fn push_char(s: &mut String, c: char)
    ensures
        final(s)@ == old(s)@.push(c),
{
    s.push(c)
}

/// The characters of a string, in order.
pub fn chars_of(s: &str) -> (chars: Vec<char>)
    ensures
        chars@ == s@,
{
    let mut chars: Vec<char> = Vec::new();
    for c in it: s.chars()
        invariant
            it.seq() == s@,
            chars@ == s@.take(it.index()),
    {
        chars.push(c);
    }
    chars
}

/// The string made of the given characters, in order.
pub fn string_of(chars: &[char]) -> (s: String)
    ensures
        s@ == chars@,
{
    let mut s = String::new();
    let mut i: usize = 0;
    while i < chars.len()
        invariant
            i <= chars.len(),
            s@ == chars@.take(i as int),
        decreases chars.len() - i,
    {
        push_char(&mut s, chars[i]);
        i = i + 1;
    }
    s
}

/// The fields of a text that a separator character divides: the stretches
/// between one separator and the next, so that a text with `n` separators has
/// `n + 1` fields, empty ones included.
pub open spec fn split(s: Seq<char>, sep: char) -> Seq<Seq<char>>
    decreases s.len(),
{
    if s.len() == 0 {
        seq![Seq::empty()]
    } else {
        let before: Seq<Seq<char>> = split(s.drop_last(), sep);
        if s.last() == sep {
            before.push(Seq::empty())
        } else {
            before.drop_last().push(before.last().push(s.last()))
        }
    }
}

/// The texts of a list of strings.
pub open spec fn texts(lines: Seq<String>) -> Seq<Seq<char>> {
    lines.map_values(|line: String| line@)
}

/// The contents of a list of character vectors.
pub open spec fn views(fields: Seq<Vec<char>>) -> Seq<Seq<char>> {
    fields.map_values(|f: Vec<char>| f@)
}

/// Fields put together again, with the separator between one and the next.
pub open spec fn join(fields: Seq<Seq<char>>, sep: char) -> Seq<char>
    decreases fields.len(),
{
    if fields.len() == 0 {
        Seq::empty()
    } else if fields.len() == 1 {
        fields[0]
    } else {
        join(fields.drop_last(), sep) + seq![sep] + fields.last()
    }
}

/// Splitting loses nothing and leaves no separator behind: there is at least
/// one field, no field holds the separator, and the fields joined by the
/// separator are the text.
pub proof fn lemma_split_joins(s: Seq<char>, sep: char)
    ensures
        split(s, sep).len() >= 1,
        forall|i: int| 0 <= i < split(s, sep).len() ==> !(#[trigger] split(s, sep)[i]).contains(sep),
        join(split(s, sep), sep) == s,
    decreases s.len(),
{
    if s.len() > 0 {
        let front: Seq<char> = s.drop_last();
        let before: Seq<Seq<char>> = split(front, sep);
        let fields: Seq<Seq<char>> = split(s, sep);
        lemma_split_joins(front, sep);
        if s.last() == sep {
            assert(fields.drop_last() == before);
        } else {
            let grown: Seq<char> = before.last().push(s.last());
            assert(!grown.contains(sep));
            if before.len() > 1 {
                assert(fields.drop_last() == before.drop_last());
                assert(join(before.drop_last(), sep) + seq![sep] + grown == (join(
                    before.drop_last(),
                    sep,
                ) + seq![sep] + before.last()).push(s.last()));
            }
        }
    }
}

/// A text without the separator is its own single field.
pub proof fn lemma_split_without_separator(s: Seq<char>, sep: char)
    requires
        !s.contains(sep),
    ensures
        split(s, sep) == seq![s],
    decreases s.len(),
{
    if s.len() > 0 {
        let front: Seq<char> = s.drop_last();
        assert(!front.contains(sep));
        lemma_split_without_separator(front, sep);
        assert(front.push(s.last()) == s);
    } else {
        assert(s == Seq::<char>::empty());
    }
}

/// After a separator, a stretch without separators is one more field.
pub proof fn lemma_split_last_field(front: Seq<char>, sep: char, last: Seq<char>)
    requires
        !last.contains(sep),
    ensures
        split(front + seq![sep] + last, sep) == split(front, sep).push(last),
    decreases last.len(),
{
    let whole: Seq<char> = front + seq![sep] + last;
    if last.len() == 0 {
        assert(whole.drop_last() == front);
        assert(last == Seq::<char>::empty());
    } else {
        let shorter: Seq<char> = last.drop_last();
        assert(!shorter.contains(sep));
        lemma_split_last_field(front, sep, shorter);
        assert(whole.drop_last() == front + seq![sep] + shorter);
        assert(shorter.push(last.last()) == last);
    }
}

/// Divides a text into its fields at each occurrence of the separator.
pub fn split_fields(chars: &[char], sep: char) -> (fields: Vec<Vec<char>>)
    ensures
        views(fields@) == split(chars@, sep),
{
    let mut fields: Vec<Vec<char>> = Vec::new();
    let mut current: Vec<char> = Vec::new();
    let mut i: usize = 0;
    while i < chars.len()
        invariant
            i <= chars.len(),
            views(fields@).push(current@) == split(chars@.take(i as int), sep),
        decreases chars.len() - i,
    {
        assert(chars@.take(i + 1).drop_last() == chars@.take(i as int));
        if chars[i] == sep {
            fields.push(current);
            current = Vec::new();
        } else {
            current.push(chars[i]);
        }
        i = i + 1;
    }
    assert(chars@.take(i as int) == chars@);
    fields.push(current);
    fields
}

} // verus!
