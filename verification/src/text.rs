//! Text as a sequence of characters: finding, cutting and joining.

use vstd::prelude::*;
use vstd::slice::slice_subrange;
use vstd::utf8::{decode_utf8, valid_utf8};

verus! {

/// Reads bytes as UTF-8 text.
///
/// Trusted: calls `String::from_utf8`. The contract claims what std
/// documents: the call succeeds exactly on well-formed UTF-8, and the string
/// then holds the characters that the bytes encode.
#[verifier::external_body]
pub(crate) fn string_from_utf8(bytes: Vec<u8>) -> (r: Option<String>)
    ensures
        r is Some <==> valid_utf8(bytes@),
        r matches Some(text) ==> text@ == decode_utf8(bytes@),
{
    String::from_utf8(bytes).ok()
}

/// Makes a string of characters.
///
/// Trusted: calls `String::from_iter` on the characters in order. The
/// contract claims that the string holds exactly these characters.
#[verifier::external_body]
pub(crate) fn string_from_chars(chars: &[char]) -> (text: String)
    ensures
        text@ == chars@,
{
    String::from_iter(chars.iter())
}

/// The characters of a string, in order.
pub fn chars_of(text: &str) -> (chars: Vec<char>)
    ensures
        chars@ == text@,
{
    let mut chars: Vec<char> = Vec::new();
    for c in it: text.chars()
        invariant
            chars@ == it.seq().take(it.index() as int),
            it.seq() == text@,
    {
        chars.push(c);
    }
    chars
}

/// Where `c` first stands in `s`, or the length of `s` where it does not
/// occur.
pub open spec fn position_of(s: Seq<char>, c: char) -> int
    decreases s.len(),
{
    if s.len() == 0 || s[0] == c {
        0
    } else {
        1 + position_of(s.skip(1), c)
    }
}

/// `position_of` is the least index that holds `c`.
pub proof fn position_of_is_first(s: Seq<char>, c: char)
    ensures
        0 <= position_of(s, c) <= s.len(),
        position_of(s, c) < s.len() ==> s[position_of(s, c)] == c,
        forall|i: int| 0 <= i < position_of(s, c) ==> s[i] != c,
    decreases s.len(),
{
    if s.len() == 0 || s[0] == c {
    } else {
        let rest = s.skip(1);
        position_of_is_first(rest, c);
        assert forall|i: int| 0 <= i < position_of(s, c) implies s[i] != c by {
            if i > 0 {
                assert(rest[i - 1] == s[i]);
            }
        }
    }
}

/// The least index that holds `c` is `position_of`.
pub proof fn first_is_position_of(s: Seq<char>, c: char, p: int)
    requires
        0 <= p <= s.len(),
        p < s.len() ==> s[p] == c,
        forall|i: int| 0 <= i < p ==> s[i] != c,
    ensures
        position_of(s, c) == p,
    decreases s.len(),
{
    if s.len() == 0 || s[0] == c {
    } else {
        let rest = s.skip(1);
        assert forall|i: int| 0 <= i < p - 1 implies rest[i] != c by {
            assert(rest[i] == s[i + 1]);
        }
        first_is_position_of(rest, c, p - 1);
    }
}

/// Where `c` first stands in `chars` at or after `from`, or the length of
/// `chars` where it does not.
pub fn find_from(chars: &[char], from: usize, c: char) -> (at: usize)
    requires
        from <= chars@.len(),
    ensures
        at == from + position_of(chars@.skip(from as int), c),
        from <= at <= chars@.len(),
{
    let mut at = from;
    while at < chars.len() && chars[at] != c
        invariant
            from <= at <= chars@.len(),
            forall|i: int| from <= i < at ==> chars@[i] != c,
        decreases chars@.len() - at,
    {
        at += 1;
    }
    proof {
        first_is_position_of(chars@.skip(from as int), c, at - from);
    }
    at
}

/// The pieces of `s` between the occurrences of `c`. There is always at
/// least one piece; a piece may be empty.
pub open spec fn split_on(s: Seq<char>, c: char) -> Seq<Seq<char>>
    decreases s.len(),
{
    let p = position_of(s, c);
    if 0 <= p < s.len() {
        seq![s.take(p)] + split_on(s.skip(p + 1), c)
    } else {
        seq![s]
    }
}

/// A line without the carriage return that may end it.
pub open spec fn strip_cr(line: Seq<char>) -> Seq<char> {
    if line.len() > 0 && line.last() == '\r' {
        line.drop_last()
    } else {
        line
    }
}

/// The lines of a text. A line ends with a line feed, or with a carriage
/// return and a line feed; neither belongs to the line. The last line need
/// not be ended, and an empty text has no line.
pub open spec fn lines(text: Seq<char>) -> Seq<Seq<char>>
    decreases text.len(),
{
    if text.len() == 0 {
        Seq::empty()
    } else {
        let p = position_of(text, '\n');
        if 0 <= p < text.len() {
            seq![strip_cr(text.take(p))] + lines(text.skip(p + 1))
        } else {
            seq![text]
        }
    }
}

/// The views of a list of strings, in order.
pub open spec fn string_views(list: Seq<String>) -> Seq<Seq<char>> {
    list.map_values(|s: String| s@)
}

/// The views of a list of character vectors, in order.
pub open spec fn char_seqs(list: Seq<Vec<char>>) -> Seq<Seq<char>> {
    list.map_values(|s: Vec<char>| s@)
}

/// Cuts `chars` at every `c`.
pub fn split_fields(chars: &[char], c: char) -> (fields: Vec<String>)
    ensures
        string_views(fields@) == split_on(chars@, c),
{
    let mut fields: Vec<String> = Vec::new();
    let mut from: usize = 0;
    assert(chars@.skip(0) =~= chars@);
    assert(string_views(fields@) =~= Seq::<Seq<char>>::empty());
    loop
        invariant_except_break
            from <= chars@.len(),
            split_on(chars@, c) == string_views(fields@) + split_on(chars@.skip(from as int), c),
        ensures
            string_views(fields@) == split_on(chars@, c),
        decreases chars@.len() - from,
    {
        let ghost rest = chars@.skip(from as int);
        let ghost done = string_views(fields@);
        let at = find_from(chars, from, c);
        let piece = string_from_chars(slice_subrange(chars, from, at));
        assert(piece@ =~= rest.take(at - from));
        fields.push(piece);
        assert(string_views(fields@) =~= done.push(piece@));
        if at == chars.len() {
            assert(rest.take(at - from) =~= rest);
            assert(done + seq![rest] =~= done.push(rest));
            break ;
        }
        proof {
            assert(rest.skip(at - from + 1) =~= chars@.skip(at + 1));
            assert(done + (seq![piece@] + split_on(chars@.skip(at + 1), c)) =~= done.push(piece@)
                + split_on(chars@.skip(at + 1), c));
        }
        from = at + 1;
    }
    fields
}

/// Cuts a text into its lines.
pub fn split_lines(chars: &[char]) -> (found: Vec<Vec<char>>)
    ensures
        char_seqs(found@) == lines(chars@),
{
    let mut found: Vec<Vec<char>> = Vec::new();
    let mut from: usize = 0;
    assert(chars@.skip(0) =~= chars@);
    assert(char_seqs(found@) =~= Seq::<Seq<char>>::empty());
    while from < chars.len()
        invariant
            from <= chars@.len(),
            lines(chars@) == char_seqs(found@) + lines(chars@.skip(from as int)),
        decreases chars@.len() - from,
    {
        let ghost rest = chars@.skip(from as int);
        let ghost done = char_seqs(found@);
        let at = find_from(chars, from, '\n');
        if at == chars.len() {
            let line = slice_to_chars(slice_subrange(chars, from, at));
            assert(line@ =~= rest);
            found.push(line);
            assert(char_seqs(found@) =~= done.push(rest));
            assert(lines(chars@.skip(at as int)) =~= Seq::<Seq<char>>::empty());
            assert(done + seq![rest] =~= done.push(rest) + Seq::<Seq<char>>::empty());
            from = at;
        } else {
            let end = if at > from && chars[at - 1] == '\r' {
                at - 1
            } else {
                at
            };
            let line = slice_to_chars(slice_subrange(chars, from, end));
            assert(rest.take(at - from).len() > 0 ==> rest.take(at - from).last() == chars@[at
                - 1]);
            assert(line@ =~= strip_cr(rest.take(at - from)));
            found.push(line);
            assert(char_seqs(found@) =~= done.push(line@));
            proof {
                assert(rest.skip(at - from + 1) =~= chars@.skip(at + 1));
                assert(done + (seq![line@] + lines(chars@.skip(at + 1))) =~= done.push(line@)
                    + lines(chars@.skip(at + 1)));
            }
            from = at + 1;
        }
    }
    proof {
        assert(lines(chars@.skip(from as int)) =~= Seq::<Seq<char>>::empty());
        assert(char_seqs(found@) + Seq::<Seq<char>>::empty() =~= char_seqs(found@));
    }
    found
}

/// A copy of a run of characters.
pub fn slice_to_chars(chars: &[char]) -> (copy: Vec<char>)
    ensures
        copy@ == chars@,
{
    vstd::slice::slice_to_vec(chars)
}

/// Whether two texts hold the same characters.
pub fn same_chars(a: &[char], b: &[char]) -> (same: bool)
    ensures
        same == (a@ == b@),
{
    if a.len() != b.len() {
        return false;
    }
    let mut i: usize = 0;
    while i < a.len()
        invariant
            i <= a@.len(),
            a@.len() == b@.len(),
            forall|j: int| 0 <= j < i ==> a@[j] == b@[j],
        decreases a@.len() - i,
    {
        if a[i] != b[i] {
            return false;
        }
        i += 1;
    }
    assert(a@ =~= b@);
    true
}

/// Appends characters to a text.
pub fn push_chars(out: &mut Vec<char>, more: &[char])
    ensures
        final(out)@ == old(out)@ + more@,
{
    let ghost before = out@;
    let mut i: usize = 0;
    while i < more.len()
        invariant
            i <= more@.len(),
            out@ == before + more@.take(i as int),
        decreases more@.len() - i,
    {
        out.push(more[i]);
        assert(more@.take(i + 1) =~= more@.take(i as int).push(more@[i as int]));
        i += 1;
    }
    assert(more@.take(i as int) =~= more@);
}

/// Appends a string to a text.
pub fn push_text(out: &mut Vec<char>, text: &str)
    ensures
        final(out)@ == old(out)@ + text@,
{
    let chars = chars_of(text);
    push_chars(out, chars.as_slice());
}

} // verus!
