//! Text as sequences of characters: substring search, splitting, lines, and
//! the conversions between `String` and `Vec<char>` that the rest of the
//! crate builds on.

use vstd::prelude::*;

verus! {

/// `needle` stands in `hay` at position `at`.
pub open spec fn occurs_at(hay: Seq<char>, needle: Seq<char>, at: int) -> bool {
    &&& 0 <= at
    &&& at + needle.len() <= hay.len()
    &&& hay.subrange(at, at + needle.len()) == needle
}

/// `needle` is a contiguous part of `hay`. The empty sequence is a part of
/// every sequence.
pub open spec fn is_substring(needle: Seq<char>, hay: Seq<char>) -> bool {
    exists|at: int| occurs_at(hay, needle, at)
}

/// The index of the first element of `s` that satisfies `pred`, or the length
/// of `s` where none does.
pub open spec fn first_index_where<A>(s: Seq<A>, pred: spec_fn(A) -> bool) -> int
    decreases s.len(),
{
    if s.len() == 0 || pred(s[0]) {
        0
    } else {
        1 + first_index_where(s.drop_first(), pred)
    }
}

/// The predicate that holds of `c` alone.
pub open spec fn is_char(c: char) -> spec_fn(char) -> bool {
    |x: char| x == c
}

/// The index of the first `c` in `s`, or the length of `s` where `s` holds
/// no `c`.
pub open spec fn first_index_of(s: Seq<char>, c: char) -> int {
    first_index_where(s, is_char(c))
}

/// The parts of `s` between the occurrences of `sep`, in order. A sequence
/// with `n` separators has `n + 1` parts, some of which may be empty.
pub open spec fn split_on(s: Seq<char>, sep: char) -> Seq<Seq<char>>
    decreases s.len(),
{
    let k = first_index_of(s, sep);
    if 0 <= k < s.len() {
        seq![s.take(k)] + split_on(s.skip(k + 1), sep)
    } else {
        seq![s]
    }
}

/// `line` without one carriage return at its end, if it has one there.
pub open spec fn without_trailing_cr(line: Seq<char>) -> Seq<char> {
    if line.len() > 0 && line.last() == '\r' {
        line.drop_last()
    } else {
        line
    }
}

/// The lines of a text. A line ends at a line feed, or at a carriage return
/// directly followed by a line feed; neither belongs to the line. What follows
/// the last line feed is a line of its own unless it is empty.
pub open spec fn lines_of(text: Seq<char>) -> Seq<Seq<char>>
    decreases text.len(),
{
    if text.len() == 0 {
        Seq::empty()
    } else {
        let k = first_index_of(text, '\n');
        if 0 <= k < text.len() {
            seq![without_trailing_cr(text.take(k))] + lines_of(text.skip(k + 1))
        } else {
            seq![text]
        }
    }
}

/// The character sequences that a vector of character vectors holds.
pub open spec fn char_seqs(parts: Seq<Vec<char>>) -> Seq<Seq<char>> {
    Seq::new(parts.len(), |i: int| parts[i]@)
}

/// `first_index_where` is a position before which no element satisfies
/// `pred`, and at which either one does or `s` ends.
pub proof fn lemma_first_index_where<A>(s: Seq<A>, pred: spec_fn(A) -> bool)
    ensures
        0 <= first_index_where(s, pred) <= s.len(),
        forall|i: int| 0 <= i < first_index_where(s, pred) ==> !pred(s[i]),
        first_index_where(s, pred) < s.len() ==> pred(s[first_index_where(s, pred)]),
    decreases s.len(),
{
    if s.len() == 0 || pred(s[0]) {
    } else {
        let rest = s.drop_first();
        lemma_first_index_where(rest, pred);
        let f = first_index_where(rest, pred);
        assert forall|i: int| 0 <= i < f + 1 implies !pred(s[i]) by {
            if i > 0 {
                assert(s[i] == rest[i - 1]);
            }
        }
        assert(f + 1 < s.len() ==> s[f + 1] == rest[f]);
    }
}

/// There is only one such position: any `k` before which no element satisfies
/// `pred`, and at which one does or `s` ends, is `first_index_where(s, pred)`.
pub proof fn lemma_first_index_where_unique<A>(s: Seq<A>, pred: spec_fn(A) -> bool, k: int)
    requires
        0 <= k <= s.len(),
        forall|i: int| 0 <= i < k ==> !pred(s[i]),
        k < s.len() ==> pred(s[k]),
    ensures
        first_index_where(s, pred) == k,
{
    lemma_first_index_where(s, pred);
    let f = first_index_where(s, pred);
    if f < k {
        assert(pred(s[f]));
    } else if k < f {
        assert(pred(s[k]));
    }
}

/// Filtering one element more either appends that element or changes nothing.
pub proof fn lemma_filter_step<A>(s: Seq<A>, pred: spec_fn(A) -> bool, i: int)
    requires
        0 <= i < s.len(),
    ensures
        s.take(i + 1).filter(pred) == if pred(s[i]) {
            s.take(i).filter(pred).push(s[i])
        } else {
            s.take(i).filter(pred)
        },
{
    reveal(Seq::filter);
    assert(s.take(i + 1).drop_last() =~= s.take(i));
}

/// Mapping one element more either appends its image or, where it has none,
/// changes nothing.
pub proof fn lemma_filter_map_step<A, B>(s: Seq<A>, f: spec_fn(A) -> Option<B>, i: int)
    requires
        0 <= i < s.len(),
    ensures
        s.take(i + 1).filter_map(f) == match f(s[i]) {
            Some(image) => s.take(i).filter_map(f).push(image),
            None => s.take(i).filter_map(f),
        },
{
    assert(s.take(i + 1).drop_last() =~= s.take(i));
    match f(s[i]) {
        Some(image) => {
            assert(s.take(i).filter_map(f) + seq![image] =~= s.take(i).filter_map(f).push(image));
        },
        None => {},
    }
}

/// Every element of a filtered sequence satisfies the predicate.
pub proof fn lemma_filter_holds<A>(s: Seq<A>, pred: spec_fn(A) -> bool)
    ensures
        forall|i: int| 0 <= i < s.filter(pred).len() ==> pred(#[trigger] s.filter(pred)[i]),
    decreases s.len(),
{
    reveal(Seq::filter);
    if s.len() > 0 {
        lemma_filter_holds(s.drop_last(), pred);
    }
}

/// A sequence whose elements all satisfy the predicate is its own filter.
pub proof fn lemma_filter_keeps_all<A>(s: Seq<A>, pred: spec_fn(A) -> bool)
    requires
        forall|i: int| 0 <= i < s.len() ==> pred(#[trigger] s[i]),
    ensures
        s.filter(pred) == s,
    decreases s.len(),
{
    reveal(Seq::filter);
    if s.len() > 0 {
        lemma_filter_keeps_all(s.drop_last(), pred);
        assert(s.drop_last().push(s.last()) =~= s);
    }
}

/// A sequence none of whose elements satisfies the predicate filters to
/// nothing, and the other way round.
pub proof fn lemma_filter_empty<A>(s: Seq<A>, pred: spec_fn(A) -> bool)
    ensures
        s.filter(pred).len() == 0 <==> forall|i: int| 0 <= i < s.len() ==> !pred(#[trigger] s[i]),
    decreases s.len(),
{
    reveal(Seq::filter);
    if s.len() > 0 {
        let front = s.drop_last();
        lemma_filter_empty(front, pred);
        if s.filter(pred).len() == 0 {
            assert forall|i: int| 0 <= i < s.len() implies !pred(#[trigger] s[i]) by {
                if i < s.len() - 1 {
                    assert(s[i] == front[i]);
                }
            }
        } else {
            if pred(s.last()) {
                assert(pred(s[s.len() - 1]));
            } else {
                let i = choose|i: int| 0 <= i < front.len() && pred(#[trigger] front[i]);
                assert(pred(s[i]));
            }
        }
    }
}

/// The characters of a string, in order.
pub fn chars_of(s: &str) -> (v: Vec<char>)
    ensures
        v@ == s@,
{
    let mut v: Vec<char> = Vec::new();
    for c in it: s.chars()
        invariant
            it.seq() == s@,
            v@ == it.seq().take(it.index() as int),
    {
        v.push(c);
    }
    v
}

/// `String::push` appends the given character to the end of the string.
pub assume_specification[ String::push ](s: &mut String, ch: char)
    ensures
        final(s)@ == old(s)@.push(ch),
;

/// The string made of the given characters, in order.
pub fn string_of(chars: &[char]) -> (s: String)
    ensures
        s@ == chars@,
{
    let mut s = String::new();
    let mut i: usize = 0;
    while i < chars.len()
        invariant
            i <= chars.len(),
            s@ == chars@.take(i as int),
        decreases chars.len() - i,
    {
        s.push(chars[i]);
        i += 1;
    }
    s
}

/// Whether `needle` stands in `hay` at index `at`.
fn matches_at(hay: &[char], needle: &[char], at: usize) -> (b: bool)
    requires
        at + needle.len() <= hay.len(),
    ensures
        b == occurs_at(hay@, needle@, at as int),
{
    let mut k: usize = 0;
    while k < needle.len()
        invariant
            k <= needle.len(),
            at + needle.len() <= hay.len(),
            forall|j: int| 0 <= j < k ==> hay@[at + j] == needle@[j],
        decreases needle.len() - k,
    {
        if hay[at + k] != needle[k] {
            assert(hay@.subrange(at as int, at + needle.len())[k as int] == hay@[at + k]);
            return false;
        }
        k += 1;
    }
    assert(hay@.subrange(at as int, at + needle.len()) =~= needle@);
    true
}

/// Whether `needle` is a contiguous part of `hay`.
pub fn contains_chars(hay: &[char], needle: &[char]) -> (b: bool)
    ensures
        b == is_substring(needle@, hay@),
{
    if needle.len() > hay.len() {
        return false;
    }
    let last: usize = hay.len() - needle.len();
    let mut at: usize = 0;
    while at < last
        invariant
            last == hay.len() - needle.len(),
            at <= last,
            forall|j: int| 0 <= j < at ==> !occurs_at(hay@, needle@, j),
        decreases last - at,
    {
        if matches_at(hay, needle, at) {
            return true;
        }
        at += 1;
    }
    matches_at(hay, needle, last)
}

/// Whether the text `needle` is a contiguous part of the text `hay`,
/// compared character by character.
pub fn contains_text(hay: &str, needle: &str) -> (b: bool)
    ensures
        b == is_substring(needle@, hay@),
{
    let hay_chars = chars_of(hay);
    let needle_chars = chars_of(needle);
    contains_chars(hay_chars.as_slice(), needle_chars.as_slice())
}

/// The index of the first `c` in `chars` at or after `from`, or the length of
/// `chars` where none follows.
pub fn find_char_from(chars: &[char], c: char, from: usize) -> (k: usize)
    requires
        from <= chars.len(),
    ensures
        from <= k <= chars.len(),
        k - from == first_index_of(chars@.skip(from as int), c),
{
    let mut k: usize = from;
    while k < chars.len() && chars[k] != c
        invariant
            from <= k <= chars.len(),
            forall|i: int| from <= i < k ==> chars@[i] != c,
        decreases chars.len() - k,
    {
        k += 1;
    }
    proof {
        lemma_first_index_where_unique(chars@.skip(from as int), is_char(c), k - from);
    }
    k
}

/// A copy of the characters of `chars` from `from` up to, not including, `to`.
pub fn copy_range(chars: &[char], from: usize, to: usize) -> (part: Vec<char>)
    requires
        from <= to <= chars.len(),
    ensures
        part@ == chars@.subrange(from as int, to as int),
{
    let mut part: Vec<char> = Vec::new();
    let mut i: usize = from;
    while i < to
        invariant
            from <= i <= to <= chars.len(),
            part@ == chars@.subrange(from as int, i as int),
        decreases to - i,
    {
        part.push(chars[i]);
        i += 1;
    }
    part
}

/// The parts of `chars` between the occurrences of `sep`.
pub fn split_chars(chars: &[char], sep: char) -> (parts: Vec<Vec<char>>)
    ensures
        char_seqs(parts@) == split_on(chars@, sep),
{
    let mut parts: Vec<Vec<char>> = Vec::new();
    let mut start: usize = 0;
    proof {
        assert(chars@.skip(0) =~= chars@);
        assert(char_seqs(parts@) + split_on(chars@, sep) =~= split_on(chars@, sep));
    }
    loop
        invariant_except_break
            start <= chars.len(),
            split_on(chars@, sep) == char_seqs(parts@) + split_on(
                chars@.skip(start as int),
                sep,
            ),
        ensures
            char_seqs(parts@) == split_on(chars@, sep),
        decreases chars.len() - start,
    {
        let k = find_char_from(chars, sep, start);
        let part = copy_range(chars, start, k);
        let ghost before = char_seqs(parts@);
        let ghost rest = chars@.skip(start as int);
        parts.push(part);
        proof {
            assert(char_seqs(parts@) =~= before.push(part@));
            assert(rest.take(k - start) =~= part@);
            if k < chars.len() {
                assert(rest.skip(k - start + 1) =~= chars@.skip(k + 1));
                assert(before + (seq![part@] + split_on(chars@.skip(k + 1), sep))
                    =~= before.push(part@) + split_on(chars@.skip(k + 1), sep));
            } else {
                assert(rest =~= part@);
                assert(before + seq![part@] =~= before.push(part@));
            }
        }
        if k >= chars.len() {
            break;
        }
        start = k + 1;
    }
    parts
}

} // verus!
