//! Character-level helpers on which the parsers of this crate are built.

use vstd::prelude::*;

verus! {

/// The characters of `s`, in order.
pub fn chars_of(s: &str) -> (v: Vec<char>)
    ensures
        v@ == s@,
{
    let mut v: Vec<char> = Vec::new();
    for c in it: s.chars()
        invariant
            v@ == it.seq().take(it.index() as int),
    {
        v.push(c);
    }
    v
}

/// Appends one character to a string (`String::push`).
#[verifier::external_body]
fn push_char(s: &mut String, c: char)
    ensures
        final(s)@ == old(s)@.push(c),
{
    s.push(c);
}

/// A string holding the characters of `v`, in order.
pub fn string_of(v: &[char]) -> (s: String)
    ensures
        s@ == v@,
{
    let mut s = String::new();
    let mut i: usize = 0;
    while i < v.len()
        invariant
            i <= v@.len(),
            s@ == v@.take(i as int),
        decreases v@.len() - i,
    {
        push_char(&mut s, v[i]);
        i = i + 1;
        assert(s@ =~= v@.take(i as int));
    }
    assert(v@.take(i as int) =~= v@);
    s
}

/// Whether two character sequences are equal.
pub fn seq_eq(a: &[char], b: &[char]) -> (r: bool)
    ensures
        r == (a@ == b@),
{
    if a.len() != b.len() {
        return false;
    }
    let mut i: usize = 0;
    while i < a.len()
        invariant
            i <= a@.len(),
            a@.len() == b@.len(),
            forall|j: int| 0 <= j < i ==> a@[j] == b@[j],
        decreases a@.len() - i,
    {
        if a[i] != b[i] {
            return false;
        }
        i = i + 1;
    }
    assert(a@ =~= b@);
    true
}

} // verus!

verus! {

/// The character sequences of a sequence of strings.
pub open spec fn string_views(v: Seq<String>) -> Seq<Seq<char>> {
    v.map_values(|s: String| s@)
}

/// The character sequences of a sequence of string slices.
pub open spec fn str_views(v: Seq<&str>) -> Seq<Seq<char>> {
    v.map_values(|s: &str| s@)
}

/// The elements of `parts` separated by single spaces (`[&str]::join(" ")`).
pub open spec fn space_joined(parts: Seq<Seq<char>>) -> Seq<char>
    decreases parts.len(),
{
    if parts.len() == 0 {
        Seq::empty()
    } else if parts.len() == 1 {
        parts[0]
    } else {
        space_joined(parts.drop_last()) + seq![' '] + parts.last()
    }
}

/// The elements of `parts` separated by commas (`[String]::join(",")`).
pub open spec fn comma_joined(parts: Seq<Seq<char>>) -> Seq<char>
    decreases parts.len(),
{
    if parts.len() == 0 {
        Seq::empty()
    } else if parts.len() == 1 {
        parts[0]
    } else {
        comma_joined(parts.drop_last()) + seq![','] + parts.last()
    }
}

/// Appends a string slice to a string.
pub fn append_str(s: &mut String, t: &str)
    ensures
        final(s)@ == old(s)@ + t@,
{
    s.append(t);
}

/// `a` followed by `b`, as a new string.
pub fn concat_str(a: &str, b: &str) -> (s: String)
    ensures
        s@ == a@ + b@,
{
    let mut s = String::from_str(a);
    append_str(&mut s, b);
    s
}

/// Whether `needle` occurs in `hay` starting at position `i`.
pub open spec fn occurs_at(hay: Seq<char>, needle: Seq<char>, i: int) -> bool {
    0 <= i && i + needle.len() <= hay.len() && hay.subrange(i, i + needle.len()) == needle
}

/// The first position at which `needle` occurs in `hay`, if any.
pub open spec fn first_occurrence(hay: Seq<char>, needle: Seq<char>) -> Option<int> {
    if exists|i: int| occurs_at(hay, needle, i) {
        Some(choose|i: int| occurs_at(hay, needle, i) && forall|j: int| 0 <= j < i ==> !occurs_at(hay, needle, j))
    } else {
        None
    }
}

/// Whether `needle` occurs anywhere in `hay`.
pub open spec fn contains_seq(hay: Seq<char>, needle: Seq<char>) -> bool {
    exists|i: int| occurs_at(hay, needle, i)
}

/// The first occurrence is well defined: it occurs, and nothing earlier does.
pub proof fn lemma_first_occurrence(hay: Seq<char>, needle: Seq<char>)
    ensures
        first_occurrence(hay, needle) is Some <==> contains_seq(hay, needle),
        first_occurrence(hay, needle) matches Some(i) ==> occurs_at(hay, needle, i) && forall|j: int| 0 <= j < i ==> !occurs_at(hay, needle, j),
{
    if exists|i: int| occurs_at(hay, needle, i) {
        let w = choose|i: int| occurs_at(hay, needle, i);
        lemma_least_occurrence(hay, needle, w);
    }
}

proof fn lemma_least_occurrence(hay: Seq<char>, needle: Seq<char>, w: int)
    requires
        occurs_at(hay, needle, w),
    ensures
        exists|i: int| occurs_at(hay, needle, i) && forall|j: int| 0 <= j < i ==> !occurs_at(hay, needle, j),
    decreases w,
{
    if exists|j: int| 0 <= j < w && occurs_at(hay, needle, j) {
        let j = choose|j: int| 0 <= j < w && occurs_at(hay, needle, j);
        lemma_least_occurrence(hay, needle, j);
    } else {
        assert(occurs_at(hay, needle, w) && forall|j: int| 0 <= j < w ==> !occurs_at(hay, needle, j));
    }
}

/// Whether `needle` occurs in `hay` at position `i` (executable).
fn matches_at(hay: &[char], needle: &[char], i: usize) -> (r: bool)
    requires
        i <= hay@.len(),
    ensures
        r == occurs_at(hay@, needle@, i as int),
{
    if needle.len() > hay.len() - i {
        return false;
    }
    let mut k: usize = 0;
    while k < needle.len()
        invariant
            i + needle@.len() <= hay@.len(),
            hay@.len() <= usize::MAX,
            k <= needle@.len(),
            forall|m: int| 0 <= m < k ==> hay@[i + m] == needle@[m],
        decreases needle@.len() - k,
    {
        if hay[i + k] != needle[k] {
            assert(hay@.subrange(i as int, i + needle@.len())[k as int] != needle@[k as int]);
            return false;
        }
        k = k + 1;
    }
    assert(hay@.subrange(i as int, i + needle@.len()) =~= needle@);
    true
}

/// The first position at which `needle` occurs in `hay` (`str::find`).
pub fn find(hay: &[char], needle: &[char]) -> (r: Option<usize>)
    ensures
        r matches Some(i) ==> first_occurrence(hay@, needle@) == Some(i as int),
        r is None ==> first_occurrence(hay@, needle@) is None,
{
    proof { lemma_first_occurrence(hay@, needle@); }
    let mut i: usize = 0;
    loop
        invariant
            i <= hay@.len(),
            forall|j: int| 0 <= j < i ==> !occurs_at(hay@, needle@, j),
        decreases hay@.len() - i,
    {
        if matches_at(hay, needle, i) {
            proof {
                let f = first_occurrence(hay@, needle@);
                assert(f is Some);
                let k = f->0;
                if k < i { assert(!occurs_at(hay@, needle@, k)); }
                if k > i { assert(!occurs_at(hay@, needle@, i as int)); }
            }
            return Some(i);
        }
        if i == hay.len() {
            proof {
                assert forall|j: int| !occurs_at(hay@, needle@, j) by {
                    if 0 <= j <= i {} else {}
                }
            }
            return None;
        }
        i = i + 1;
    }
}

} // verus!

verus! {

// ---------------------------------------------------------------------
// Lines and trimming
// ---------------------------------------------------------------------

/// Removes one trailing carriage return.
pub open spec fn strip_cr(line: Seq<char>) -> Seq<char> {
    if line.len() > 0 && line.last() == '\r' {
        line.drop_last()
    } else {
        line
    }
}

/// The position of the first newline in `t`, or its length.
pub open spec fn newline_position(t: Seq<char>) -> int
    decreases t.len(),
{
    if t.len() == 0 {
        0
    } else if t[0] == '\n' {
        0
    } else {
        1 + newline_position(t.drop_first())
    }
}

/// The lines of `t` as `str::lines` yields them: split at each `\n`, a
/// `\r` before it dropped, no empty line after a final `\n`; a last line
/// with no `\n` after it is kept whole, `\r` included.
pub open spec fn lines_of(t: Seq<char>) -> Seq<Seq<char>>
    decreases t.len(),
{
    if t.len() == 0 {
        Seq::empty()
    } else {
        let k = newline_position(t);
        if k < t.len() {
            proof {
                lemma_newline_position(t);
            }
            seq![strip_cr(t.take(k))] + lines_of(t.skip(k + 1))
        } else {
            seq![t]
        }
    }
}

pub proof fn lemma_newline_position(t: Seq<char>)
    ensures
        0 <= newline_position(t) <= t.len(),
        newline_position(t) < t.len() ==> t[newline_position(t)] == '\n',
        forall|j: int| 0 <= j < newline_position(t) ==> t[j] != '\n',
    decreases t.len(),
{
    if t.len() > 0 && t[0] != '\n' {
        lemma_newline_position(t.drop_first());
        assert forall|j: int| 0 <= j < newline_position(t) implies t[j] != '\n' by {
            if j > 0 {
                assert(t[j] == t.drop_first()[j - 1]);
            }
        }
    }
}

proof fn lemma_newline_position_at(t: Seq<char>, k: int)
    requires
        0 <= k <= t.len(),
        k < t.len() ==> t[k] == '\n',
        forall|j: int| 0 <= j < k ==> t[j] != '\n',
    ensures
        newline_position(t) == k,
    decreases t.len(),
{
    if t.len() > 0 && k > 0 {
        lemma_newline_position_at(t.drop_first(), k - 1);
    }
}

/// The line that starts at `start` ends at `k` (a newline or the end).
fn line_end(t: &[char], start: usize) -> (k: usize)
    requires
        start <= t@.len(),
    ensures
        start <= k <= t@.len(),
        k == start + newline_position(t@.skip(start as int)),
{
    let mut k = start;
    while k < t.len() && t[k] != '\n'
        invariant
            start <= k <= t@.len(),
            forall|j: int| start <= j < k ==> t@[j] != '\n',
        decreases t@.len() - k,
    {
        k = k + 1;
    }
    proof {
        let r = t@.skip(start as int);
        if k < t@.len() {
            assert(r[k - start] == t@[k as int]);
        }
        lemma_newline_position_at(r, k - start);
    }
    k
}

/// The lines of `t` (`str::lines`).
pub fn split_lines(t: &[char]) -> (v: Vec<Vec<char>>)
    ensures
        v@.map_values(|l: Vec<char>| l@) == lines_of(t@),
{
    let mut v: Vec<Vec<char>> = Vec::new();
    let mut start: usize = 0;
    assert(t@.skip(0) =~= t@);
    assert(v@.map_values(|l: Vec<char>| l@) + lines_of(t@) =~= lines_of(t@));
    while start < t.len()
        invariant
            start <= t@.len(),
            v@.map_values(|l: Vec<char>| l@) + lines_of(t@.skip(start as int)) == lines_of(t@),
        decreases t@.len() - start,
    {
        let k = line_end(t, start);
        let ghost rest = t@.skip(start as int);
        let mut line: Vec<char> = Vec::new();
        let mut j = start;
        while j < k
            invariant
                start <= j <= k <= t@.len(),
                line@ == t@.subrange(start as int, j as int),
            decreases k - j,
        {
            line.push(t[j]);
            j = j + 1;
            assert(line@ =~= t@.subrange(start as int, j as int));
        }
        if k < t.len() && line.len() > 0 && line[line.len() - 1] == '\r' {
            line.pop();
        }
        let ghost piece = if k < t@.len() { strip_cr(rest.take(k - start)) } else { rest };
        proof {
            assert(rest.take(k - start) =~= t@.subrange(start as int, k as int));
            if k == t@.len() {
                assert(rest.take(k - start) =~= rest);
            }
            assert(line@ == piece);
        }
        let ghost before = v@.map_values(|l: Vec<char>| l@);
        v.push(line);
        proof {
            assert(v@.map_values(|l: Vec<char>| l@) =~= before.push(piece));
            if k < t@.len() {
                assert(rest.skip(k - start + 1) =~= t@.skip(k + 1));
                assert(lines_of(rest) == seq![strip_cr(rest.take(k - start))] + lines_of(t@.skip(k + 1)));
                assert(v@.map_values(|l: Vec<char>| l@) + lines_of(t@.skip(k + 1)) =~= before + lines_of(rest));
            } else {
                assert(t@.skip(k as int) =~= Seq::<char>::empty());
                assert(rest.take(k - start) =~= rest);
                assert(v@.map_values(|l: Vec<char>| l@) + lines_of(t@.skip(k as int)) =~= before + lines_of(rest));
            }
        }
        if k < t.len() {
            start = k + 1;
        } else {
            start = k;
        }
    }
    proof {
        assert(t@.skip(start as int) =~= Seq::<char>::empty());
        assert(v@.map_values(|l: Vec<char>| l@) + Seq::<Seq<char>>::empty() =~= v@.map_values(|l: Vec<char>| l@));
    }
    v
}

} // verus!

verus! {

/// Characters with the Unicode `White_Space` property (`char::is_whitespace`).
pub open spec fn is_white_space(c: char) -> bool {
    ('\u{9}' <= c && c <= '\u{d}') || c == ' ' || c == '\u{85}' || c == '\u{a0}'
        || c == '\u{1680}' || ('\u{2000}' <= c && c <= '\u{200a}') || c == '\u{2028}'
        || c == '\u{2029}' || c == '\u{202f}' || c == '\u{205f}' || c == '\u{3000}'
}

fn white_space(c: char) -> (b: bool)
    ensures
        b == is_white_space(c),
{
    ('\u{9}' <= c && c <= '\u{d}') || c == ' ' || c == '\u{85}' || c == '\u{a0}'
        || c == '\u{1680}' || ('\u{2000}' <= c && c <= '\u{200a}') || c == '\u{2028}'
        || c == '\u{2029}' || c == '\u{202f}' || c == '\u{205f}' || c == '\u{3000}'
}

/// `s` without its trailing white space.
pub open spec fn trim_end_ws(s: Seq<char>) -> Seq<char>
    decreases s.len(),
{
    if s.len() > 0 && is_white_space(s.last()) {
        trim_end_ws(s.drop_last())
    } else {
        s
    }
}

/// `s` without its leading white space.
pub open spec fn trim_start_ws(s: Seq<char>) -> Seq<char>
    decreases s.len(),
{
    if s.len() > 0 && is_white_space(s[0]) {
        trim_start_ws(s.drop_first())
    } else {
        s
    }
}

/// `s` without leading and trailing white space (`str::trim`).
pub open spec fn trim_ws(s: Seq<char>) -> Seq<char> {
    trim_start_ws(trim_end_ws(s))
}

/// `s` without its trailing copies of `c` (`str::trim_end_matches(c)`).
pub open spec fn trim_end_char(s: Seq<char>, c: char) -> Seq<char>
    decreases s.len(),
{
    if s.len() > 0 && s.last() == c {
        trim_end_char(s.drop_last(), c)
    } else {
        s
    }
}

fn copy_range(s: &[char], lo: usize, hi: usize) -> (v: Vec<char>)
    requires
        lo <= hi <= s@.len(),
    ensures
        v@ == s@.subrange(lo as int, hi as int),
{
    let mut v: Vec<char> = Vec::new();
    let mut j = lo;
    while j < hi
        invariant
            lo <= j <= hi <= s@.len(),
            v@ == s@.subrange(lo as int, j as int),
        decreases hi - j,
    {
        v.push(s[j]);
        j = j + 1;
        assert(v@ =~= s@.subrange(lo as int, j as int));
    }
    v
}

/// `s` without leading and trailing white space.
pub fn trim(s: &[char]) -> (v: Vec<char>)
    ensures
        v@ == trim_ws(s@),
{
    let mut e = s.len();
    assert(s@.take(e as int) =~= s@);
    while e > 0 && white_space(s[e - 1])
        invariant
            e <= s@.len(),
            trim_end_ws(s@.take(e as int)) == trim_end_ws(s@),
        decreases e,
    {
        assert(s@.take(e as int).drop_last() =~= s@.take(e - 1));
        e = e - 1;
    }
    let mut b: usize = 0;
    assert(s@.take(e as int).skip(0) =~= s@.take(e as int));
    while b < e && white_space(s[b])
        invariant
            b <= e <= s@.len(),
            trim_end_ws(s@.take(e as int)) == s@.take(e as int),
            trim_start_ws(s@.subrange(b as int, e as int)) == trim_start_ws(s@.take(e as int)),
        decreases e - b,
    {
        assert(s@.subrange(b as int, e as int).drop_first() =~= s@.subrange(b + 1, e as int));
        b = b + 1;
    }
    assert(s@.subrange(0, e as int) =~= s@.take(e as int));
    copy_range(s, b, e)
}

/// `s` without its trailing copies of `c`.
pub fn trim_end_matching(s: &[char], c: char) -> (v: Vec<char>)
    ensures
        v@ == trim_end_char(s@, c),
{
    let mut e = s.len();
    assert(s@.take(e as int) =~= s@);
    while e > 0 && s[e - 1] == c
        invariant
            e <= s@.len(),
            trim_end_char(s@.take(e as int), c) == trim_end_char(s@, c),
        decreases e,
    {
        assert(s@.take(e as int).drop_last() =~= s@.take(e - 1));
        e = e - 1;
    }
    assert(s@.subrange(0, e as int) =~= s@.take(e as int));
    copy_range(s, 0, e)
}

} // verus!

verus! {

/// Whether one of `v` is `s`.
pub fn strings_contain(v: &[String], s: &[char]) -> (b: bool)
    ensures
        b == string_views(v@).contains(s@),
{
    let mut i: usize = 0;
    while i < v.len()
        invariant
            i <= v@.len(),
            forall|j: int| 0 <= j < i ==> string_views(v@)[j] != s@,
        decreases v@.len() - i,
    {
        let c = chars_of(v[i].as_str());
        if seq_eq(&c, s) {
            assert(string_views(v@)[i as int] == s@);
            return true;
        }
        i = i + 1;
    }
    proof {
        if string_views(v@).contains(s@) {
            let k = choose|k: int| 0 <= k < string_views(v@).len() && string_views(v@)[k] == s@;
            assert(string_views(v@)[k] != s@);
        }
    }
    false
}

/// Copies of the strings of `v`, in order.
pub fn clone_strings(v: &Vec<String>) -> (c: Vec<String>)
    ensures
        string_views(c@) == string_views(v@),
{
    let mut c: Vec<String> = Vec::new();
    let mut i: usize = 0;
    while i < v.len()
        invariant
            i <= v@.len(),
            string_views(c@) == string_views(v@).take(i as int),
        decreases v@.len() - i,
    {
        let s = v[i].clone();
        let ghost before = c@;
        c.push(s);
        assert(string_views(c@) =~= string_views(v@).take(i + 1)) by {
            assert(string_views(c@) =~= string_views(before).push(s@));
        }
        i = i + 1;
    }
    assert(string_views(v@).take(i as int) =~= string_views(v@));
    c
}

} // verus!

verus! {

/// An occurrence with none before it is the first occurrence.
pub proof fn lemma_first_occurrence_at(hay: Seq<char>, needle: Seq<char>, q: int)
    requires
        occurs_at(hay, needle, q),
        forall|j: int| 0 <= j < q ==> !occurs_at(hay, needle, j),
    ensures
        first_occurrence(hay, needle) == Some(q),
{
    lemma_first_occurrence(hay, needle);
    let f = first_occurrence(hay, needle)->0;
    if f < q {
        assert(!occurs_at(hay, needle, f));
    }
    if f > q {
        assert(!occurs_at(hay, needle, q));
    }
}

} // verus!
