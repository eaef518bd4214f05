//! Text as sequences of characters: reading and building strings, trimming
//! white space, and splitting a line into the fields between separators.

use vstd::prelude::*;

verus! {

/// `String::push` appends the given character to the end of the string.
pub assume_specification[ std::string::String::push ](s: &mut String, ch: char)
    ensures
        final(s)@ == old(s)@.push(ch),
;

/// The characters of a string.
pub fn to_chars(s: &str) -> (v: Vec<char>)
    ensures
        v@ == s@,
{
    let mut v: Vec<char> = Vec::new();
    for c in it: s.chars()
        invariant
            v@ == it.seq().take(it.index() as int),
    {
        v.push(c);
    }
    v
}

/// The string made of the given characters.
pub fn to_text(chars: &[char]) -> (s: String)
    ensures
        s@ == chars@,
{
    let mut s = String::new();
    let mut i: usize = 0;
    while i < chars.len()
        invariant
            i <= chars@.len(),
            s@ == chars@.take(i as int),
        decreases chars@.len() - i,
    {
        s.push(chars[i]);
        proof {
            assert(chars@.take(i + 1) == chars@.take(i as int).push(chars@[i as int]));
        }
        i = i + 1;
    }
    proof {
        assert(chars@.take(chars@.len() as int) == chars@);
    }
    s
}

/// Whether a character is white space: one of the characters with the
/// Unicode property `White_Space`.
pub open spec fn is_space(c: char) -> bool {
    ('\u{9}' <= c <= '\u{d}') || c == ' ' || c == '\u{85}' || c == '\u{a0}' || c == '\u{1680}'
        || ('\u{2000}' <= c <= '\u{200a}') || c == '\u{2028}' || c == '\u{2029}' || c
        == '\u{202f}' || c == '\u{205f}' || c == '\u{3000}'
}

/// The first position from `from` on that holds no white space, or the
/// length of `s`.
pub open spec fn skip_spaces(s: Seq<char>, from: int) -> int
    decreases s.len() - from,
{
    if 0 <= from < s.len() && is_space(s[from]) {
        skip_spaces(s, from + 1)
    } else {
        from
    }
}

/// The position behind the last character before `to` that is no white
/// space, not below `lo`.
pub open spec fn back_spaces(s: Seq<char>, lo: int, to: int) -> int
    decreases to,
{
    if 0 <= lo < to <= s.len() && is_space(s[to - 1]) {
        back_spaces(s, lo, to - 1)
    } else {
        to
    }
}

/// `s` without the white space at its beginning and at its end.
pub open spec fn trimmed(s: Seq<char>) -> Seq<char> {
    let lo = skip_spaces(s, 0);
    s.subrange(lo, back_spaces(s, lo, s.len() as int))
}

/// The first position from `from` on that holds `sep`, or the length of
/// `s`.
pub open spec fn find(s: Seq<char>, sep: char, from: int) -> int
    decreases s.len() - from,
{
    if from < 0 || from >= s.len() {
        s.len() as int
    } else if s[from] == sep {
        from
    } else {
        find(s, sep, from + 1)
    }
}

/// Whether `sep` occurs in `s`.
pub open spec fn has_char(s: Seq<char>, sep: char) -> bool {
    exists|i: int| 0 <= i < s.len() && s[i] == sep
}

/// The fields of `s` between the separators `sep`. A string without
/// separator is one field, the empty string too.
pub open spec fn split(s: Seq<char>, sep: char) -> Seq<Seq<char>>
    decreases s.len(),
{
    let i = find(s, sep, 0);
    if i < 0 || i >= s.len() {
        seq![s]
    } else {
        seq![s.take(i)] + split(s.skip(i + 1), sep)
    }
}

/// The parts in a row, with `sep` between each two of them.
pub open spec fn join(parts: Seq<Seq<char>>, sep: char) -> Seq<char>
    decreases parts.len(),
{
    if parts.len() == 0 {
        Seq::empty()
    } else if parts.len() == 1 {
        parts[0]
    } else {
        join(parts.drop_last(), sep) + seq![sep] + parts.last()
    }
}

/// `find` returns the first position of the separator.
pub proof fn lemma_find(s: Seq<char>, sep: char, from: int)
    requires
        0 <= from <= s.len(),
    ensures
        from <= find(s, sep, from) <= s.len(),
        find(s, sep, from) < s.len() ==> s[find(s, sep, from)] == sep,
        forall|i: int| from <= i < find(s, sep, from) ==> s[i] != sep,
    decreases s.len() - from,
{
    if from < s.len() && s[from] != sep {
        lemma_find(s, sep, from + 1);
    }
}

/// The position `k` is what `find` returns if the separator stands there,
/// or `s` ends there, and it does not stand between `from` and `k`.
pub proof fn lemma_find_is(s: Seq<char>, sep: char, from: int, k: int)
    requires
        0 <= from <= k <= s.len(),
        forall|i: int| from <= i < k ==> s[i] != sep,
        k < s.len() ==> s[k] == sep,
    ensures
        find(s, sep, from) == k,
    decreases k - from,
{
    if from < k {
        lemma_find_is(s, sep, from + 1, k);
    }
}

/// A string without separator is its own single field.
pub proof fn lemma_split_plain(s: Seq<char>, sep: char)
    requires
        !has_char(s, sep),
    ensures
        split(s, sep) == seq![s],
{
    lemma_find(s, sep, 0);
    let i = find(s, sep, 0);
    if i < s.len() {
        assert(s[i] == sep);
    }
}

/// A field appended behind a separator is a field more.
pub proof fn lemma_split_push(x: Seq<char>, y: Seq<char>, sep: char)
    requires
        !has_char(y, sep),
    ensures
        split(x + seq![sep] + y, sep) == split(x, sep).push(y),
    decreases x.len(),
{
    let whole = x + seq![sep] + y;
    lemma_find(x, sep, 0);
    let i = find(x, sep, 0);
    assert forall|j: int| 0 <= j < i implies whole[j] != sep by {
        assert(whole[j] == x[j]);
    }
    if i >= x.len() {
        assert(whole[x.len() as int] == sep);
        lemma_find_is(whole, sep, 0, x.len() as int);
        assert(whole.take(x.len() as int) == x);
        assert(whole.skip(x.len() as int + 1) == y);
        lemma_split_plain(y, sep);
        assert(seq![x] + seq![y] == seq![x].push(y));
    } else {
        assert(whole[i] == x[i]);
        lemma_find_is(whole, sep, 0, i);
        assert(whole.take(i) == x.take(i));
        assert(whole.skip(i + 1) == x.skip(i + 1) + seq![sep] + y);
        lemma_split_push(x.skip(i + 1), y, sep);
        assert(seq![x.take(i)] + split(x.skip(i + 1), sep).push(y) == (seq![x.take(i)] + split(
            x.skip(i + 1),
            sep,
        )).push(y));
    }
}

/// Splitting what was joined gives the parts back, if there is at least
/// one part and the separator occurs in none.
pub proof fn lemma_split_join(parts: Seq<Seq<char>>, sep: char)
    requires
        parts.len() >= 1,
        forall|k: int| 0 <= k < parts.len() ==> !has_char(#[trigger] parts[k], sep),
    ensures
        split(join(parts, sep), sep) == parts,
    decreases parts.len(),
{
    if parts.len() == 1 {
        lemma_split_plain(parts[0], sep);
        assert(seq![parts[0]] == parts);
    } else {
        let front = parts.drop_last();
        assert forall|k: int| 0 <= k < front.len() implies !has_char(#[trigger] front[k], sep) by {
            assert(front[k] == parts[k]);
        }
        lemma_split_join(front, sep);
        lemma_split_push(join(front, sep), parts.last(), sep);
        assert(front.push(parts.last()) == parts);
    }
}

/// A string that neither begins nor ends with white space is trimmed
/// already.
pub proof fn lemma_trimmed_plain(s: Seq<char>)
    requires
        s.len() > 0 ==> !is_space(s[0]) && !is_space(s.last()),
    ensures
        trimmed(s) == s,
{
    assert(s.subrange(0, s.len() as int) == s);
}

/// Whether a character is white space.
pub fn is_whitespace(c: char) -> (r: bool)
    ensures
        r == is_space(c),
{
    ('\u{9}' <= c && c <= '\u{d}') || c == ' ' || c == '\u{85}' || c == '\u{a0}' || c
        == '\u{1680}' || ('\u{2000}' <= c && c <= '\u{200a}') || c == '\u{2028}' || c
        == '\u{2029}' || c == '\u{202f}' || c == '\u{205f}' || c == '\u{3000}'
}

/// Finds the part of `s` that is left when the white space at its
/// beginning and at its end is taken away: returns where it begins and where
/// it ends.
pub fn trim(s: &[char]) -> (r: (usize, usize))
    ensures
        r.0 <= r.1 <= s@.len(),
        s@.subrange(r.0 as int, r.1 as int) == trimmed(s@),
{
    let mut lo: usize = 0;
    while lo < s.len() && is_whitespace(s[lo])
        invariant
            lo <= s@.len(),
            skip_spaces(s@, 0) == skip_spaces(s@, lo as int),
        decreases s@.len() - lo,
    {
        lo = lo + 1;
    }
    let mut hi: usize = s.len();
    while hi > lo && is_whitespace(s[hi - 1])
        invariant
            lo <= hi <= s@.len(),
            back_spaces(s@, lo as int, s@.len() as int) == back_spaces(s@, lo as int, hi as int),
        decreases hi,
    {
        hi = hi - 1;
    }
    (lo, hi)
}

/// Splits the part `lo..hi` of `s` into the fields between the separators
/// `sep`: returns, for each field, where it begins and where it ends.
pub fn split_fields(s: &[char], lo: usize, hi: usize, sep: char) -> (fields: Vec<(usize, usize)>)
    requires
        lo <= hi <= s@.len(),
    ensures
        fields@.len() == split(s@.subrange(lo as int, hi as int), sep).len(),
        fields@.len() >= 1,
        forall|k: int|
            0 <= k < fields@.len() ==> {
                &&& lo <= (#[trigger] fields@[k]).0 <= fields@[k].1 <= hi
                &&& s@.subrange(fields@[k].0 as int, fields@[k].1 as int) == split(
                    s@.subrange(lo as int, hi as int),
                    sep,
                )[k]
            },
{
    let ghost whole = s@.subrange(lo as int, hi as int);
    let mut fields: Vec<(usize, usize)> = Vec::new();
    let mut start: usize = lo;
    loop
        invariant_except_break
            lo <= start <= hi,
            split(whole, sep) == Seq::new(
                fields@.len(),
                |k: int| s@.subrange(fields@[k].0 as int, fields@[k].1 as int),
            ) + split(s@.subrange(start as int, hi as int), sep),
        invariant
            lo <= hi <= s@.len(),
            whole == s@.subrange(lo as int, hi as int),
            forall|k: int|
                0 <= k < fields@.len() ==> lo <= (#[trigger] fields@[k]).0 <= fields@[k].1 <= hi,
        ensures
            fields@.len() >= 1,
            split(whole, sep) == Seq::new(
                fields@.len(),
                |k: int| s@.subrange(fields@[k].0 as int, fields@[k].1 as int),
            ),
        decreases hi - start,
    {
        let ghost rest = s@.subrange(start as int, hi as int);
        let ghost done = Seq::new(
            fields@.len(),
            |k: int| s@.subrange(fields@[k].0 as int, fields@[k].1 as int),
        );
        let mut i: usize = start;
        while i < hi && s[i] != sep
            invariant
                start <= i <= hi <= s@.len(),
                forall|j: int| start <= j < i ==> s@[j] != sep,
            decreases hi - i,
        {
            i = i + 1;
        }
        fields.push((start, i));
        proof {
            assert forall|j: int| 0 <= j < i - start implies rest[j] != sep by {
                assert(rest[j] == s@[start + j]);
            }
            lemma_find_is(rest, sep, 0, i - start);
            let now = Seq::new(
                fields@.len(),
                |k: int| s@.subrange(fields@[k].0 as int, fields@[k].1 as int),
            );
            assert(rest.take(i - start) == s@.subrange(start as int, i as int));
            assert(now == done.push(s@.subrange(start as int, i as int)));
            if i < hi {
                assert(rest.skip(i - start + 1) == s@.subrange(i + 1, hi as int));
                assert(done.push(rest.take(i - start)) + split(rest.skip(i - start + 1), sep)
                    == done + (seq![rest.take(i - start)] + split(rest.skip(i - start + 1), sep)));
            } else {
                assert(rest.take(i - start) == rest);
                assert(done + seq![rest] == done.push(rest));
            }
        }
        if i >= hi {
            break ;
        }
        start = i + 1;
    }
    fields
}

} // verus!
