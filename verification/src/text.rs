//! Text of one protocol line: characters, trimming and splitting.

use vstd::prelude::*;
use vstd::slice::slice_subrange;

verus! {

/// The characters of `s`, in order.
pub fn chars_of(s: &str) -> (v: Vec<char>)
    ensures
        v@ == s@,
{
    let mut v: Vec<char> = Vec::new();
    for c in it: s.chars()
        invariant
            v@ == it.seq().take(it.index() as int),
    {
        v.push(c);
    }
    v
}

/// Whether the characters `a` spell the text `b`.
pub fn spells(a: &[char], b: &str) -> (same: bool)
    ensures
        same == (a@ == b@),
{
    let want = chars_of(b);
    if a.len() != want.len() {
        return false;
    }
    let mut i: usize = 0;
    while i < a.len()
        invariant
            i <= a.len(),
            a.len() == want.len(),
            want@ == b@,
            a@.take(i as int) == want@.take(i as int),
        decreases a.len() - i,
    {
        if a[i] != want[i] {
            assert(a@[i as int] != b@[i as int]);
            return false;
        }
        assert(a@.take(i + 1) =~= a@.take(i as int).push(a@[i as int]));
        assert(want@.take(i + 1) =~= want@.take(i as int).push(want@[i as int]));
        i += 1;
    }
    assert(a@.take(i as int) =~= a@);
    assert(want@.take(i as int) =~= want@);
    true
}

/// White space: the characters that are stripped from both ends of a line.
/// These are the code points with the Unicode property `White_Space`.
pub open spec fn is_space(c: char) -> bool {
    let n = c as int;
    ||| 0x09 <= n <= 0x0D
    ||| n == 0x20
    ||| n == 0x85
    ||| n == 0xA0
    ||| n == 0x1680
    ||| 0x2000 <= n <= 0x200A
    ||| n == 0x2028
    ||| n == 0x2029
    ||| n == 0x202F
    ||| n == 0x205F
    ||| n == 0x3000
}

/// Whether `c` is white space.
pub fn is_whitespace(c: char) -> (b: bool)
    ensures
        b == is_space(c),
{
    let n: u32 = c as u32;
    (0x09 <= n && n <= 0x0D) || n == 0x20 || n == 0x85 || n == 0xA0 || n == 0x1680 || (0x2000 <= n
        && n <= 0x200A) || n == 0x2028 || n == 0x2029 || n == 0x202F || n == 0x205F || n == 0x3000
}

/// `s` without the white space at its start.
pub open spec fn trim_start(s: Seq<char>) -> Seq<char>
    decreases s.len(),
{
    if s.len() > 0 && is_space(s.first()) {
        trim_start(s.drop_first())
    } else {
        s
    }
}

/// `s` without the white space at its end.
pub open spec fn trim_end(s: Seq<char>) -> Seq<char>
    decreases s.len(),
{
    if s.len() > 0 && is_space(s.last()) {
        trim_end(s.drop_last())
    } else {
        s
    }
}

/// `s` without the white space at either end.
pub open spec fn trim(s: Seq<char>) -> Seq<char> {
    trim_end(trim_start(s))
}

/// The part of `s` between its leading and its trailing white space.
pub fn trim_slice<'a>(s: &'a [char]) -> (t: &'a [char])
    ensures
        t@ == trim(s@),
{
    let mut start: usize = 0;
    while start < s.len() && is_whitespace(s[start])
        invariant
            start <= s.len(),
            forall|i: int| 0 <= i < start ==> is_space(#[trigger] s@[i]),
        ensures
            start < s.len() ==> !is_space(s@[start as int]),
        decreases s.len() - start,
    {
        start += 1;
    }
    let mut end: usize = s.len();
    while end > start && is_whitespace(s[end - 1])
        invariant
            start <= end <= s.len(),
            forall|i: int| end <= i < s.len() ==> is_space(#[trigger] s@[i]),
        ensures
            end > start ==> !is_space(s@[end - 1]),
        decreases end,
    {
        end -= 1;
    }
    proof {
        let n = lemma_trim_start_is_suffix(s@);
        assert(n == start) by {
            if n < start {
                assert(is_space(s@[n]));
            } else if start < n {
                assert(is_space(s@[start as int]));
            }
        }
        let rest = s@.skip(start as int);
        let m = lemma_trim_end_is_prefix(rest);
        assert(m == end - start) by {
            if m < end - start {
                assert(rest[end - start - 1] == s@[end - 1]);
                assert(is_space(rest[end - start - 1]));
            } else if end - start < m {
                assert(rest[m - 1] == s@[m - 1 + start]);
                assert(is_space(s@[m - 1 + start]));
            }
        }
        assert(rest.take(m) =~= s@.subrange(start as int, end as int));
    }
    slice_subrange(s, start, end)
}

/// The position of the first `sep` in `s`, or the length of `s` if there is
/// none.
pub open spec fn index_of(s: Seq<char>, sep: char) -> int
    decreases s.len(),
{
    if s.len() == 0 || s.first() == sep {
        0
    } else {
        1 + index_of(s.drop_first(), sep)
    }
}

/// The pieces of `s` between its separators `sep`, in order. There is one
/// piece more than there are separators, so at least one; neighbouring
/// separators have an empty piece between them.
pub open spec fn split(s: Seq<char>, sep: char) -> Seq<Seq<char>>
    decreases s.len(),
    via split_decreases
{
    let i = index_of(s, sep);
    if i < s.len() {
        seq![s.take(i)] + split(s.skip(i + 1), sep)
    } else {
        seq![s]
    }
}

#[via_fn]
proof fn split_decreases(s: Seq<char>, sep: char) {
    lemma_index_of_bounds(s, sep);
}

/// The views of a list of pieces.
pub open spec fn views(parts: Seq<Vec<char>>) -> Seq<Seq<char>> {
    parts.map_values(|p: Vec<char>| p@)
}

/// The pieces of `s` between its separators `sep`.
pub fn split_on(s: &[char], sep: char) -> (parts: Vec<Vec<char>>)
    ensures
        views(parts@) == split(s@, sep),
{
    let mut parts: Vec<Vec<char>> = Vec::new();
    let mut piece: Vec<char> = Vec::new();
    let mut start: usize = 0;
    let mut i: usize = 0;
    proof {
        assert(s@.skip(0) =~= s@);
        assert(views(parts@) + split(s@, sep) =~= split(s@, sep));
    }
    while i < s.len()
        invariant
            start <= i <= s.len(),
            piece@ == s@.subrange(start as int, i as int),
            forall|j: int| start <= j < i ==> #[trigger] s@[j] != sep,
            views(parts@) + split(s@.skip(start as int), sep) == split(s@, sep),
        decreases s.len() - i,
    {
        let c = s[i];
        if c == sep {
            proof {
                let rest = s@.skip(start as int);
                let n = i - start;
                assert forall|j: int| 0 <= j < n implies #[trigger] rest[j] != sep by {
                    assert(rest[j] == s@[j + start]);
                }
                lemma_index_of(rest, sep, n);
                assert(rest.take(n) =~= piece@);
                assert(rest.skip(n + 1) =~= s@.skip(i + 1));
                assert(views(parts@.push(piece)) =~= views(parts@) + seq![piece@]);
            }
            parts.push(piece);
            piece = Vec::new();
            start = i + 1;
        } else {
            piece.push(c);
        }
        i += 1;
    }
    proof {
        let rest = s@.skip(start as int);
        assert forall|j: int| 0 <= j < rest.len() implies #[trigger] rest[j] != sep by {
            assert(rest[j] == s@[j + start]);
        }
        lemma_index_of(rest, sep, rest.len() as int);
        assert(rest =~= piece@);
        assert(views(parts@.push(piece)) =~= views(parts@) + seq![piece@]);
    }
    parts.push(piece);
    parts
}

/// Whether `sep` does not occur in `s`.
pub open spec fn free_of(s: Seq<char>, sep: char) -> bool {
    forall|i: int| 0 <= i < s.len() ==> #[trigger] s[i] != sep
}

/// The pieces `parts` with the separator `sep` between each two of them.
pub open spec fn join(parts: Seq<Seq<char>>, sep: char) -> Seq<char>
    decreases parts.len(),
{
    if parts.len() == 0 {
        Seq::empty()
    } else if parts.len() == 1 {
        parts[0]
    } else {
        parts[0] + seq![sep] + join(parts.drop_first(), sep)
    }
}

/// `index_of` is a position in `s`, or its length.
pub proof fn lemma_index_of_bounds(s: Seq<char>, sep: char)
    ensures
        0 <= index_of(s, sep) <= s.len(),
    decreases s.len(),
{
    if s.len() > 0 && s.first() != sep {
        lemma_index_of_bounds(s.drop_first(), sep);
    }
}

/// `index_of` is the position `i` before which no separator stands and at
/// which one does, or the text ends.
pub proof fn lemma_index_of(s: Seq<char>, sep: char, i: int)
    requires
        0 <= i <= s.len(),
        forall|j: int| 0 <= j < i ==> #[trigger] s[j] != sep,
        i < s.len() ==> s[i] == sep,
    ensures
        index_of(s, sep) == i,
    decreases i,
{
    if i > 0 {
        let t = s.drop_first();
        assert(s[0] != sep);
        assert forall|j: int| 0 <= j < i - 1 implies #[trigger] t[j] != sep by {
            assert(t[j] == s[j + 1]);
        }
        lemma_index_of(t, sep, i - 1);
    }
}

/// No separator stands before the position that `index_of` gives, and one
/// stands at it unless it is the end of the text.
pub proof fn lemma_index_of_is_first(s: Seq<char>, sep: char)
    ensures
        free_of(s.take(index_of(s, sep)), sep),
        index_of(s, sep) < s.len() ==> s[index_of(s, sep)] == sep,
    decreases s.len(),
{
    lemma_index_of_bounds(s, sep);
    if s.len() > 0 && s.first() != sep {
        let t = s.drop_first();
        lemma_index_of_is_first(t, sep);
        lemma_index_of_bounds(t, sep);
        let i = index_of(s, sep);
        assert forall|j: int| 0 <= j < i implies #[trigger] s.take(i)[j] != sep by {
            if j > 0 {
                assert(s.take(i)[j] == t.take(i - 1)[j - 1]);
            }
        }
    }
}

/// A text always splits into at least one piece.
pub proof fn lemma_split_not_empty(s: Seq<char>, sep: char)
    ensures
        split(s, sep).len() >= 1,
{
    lemma_index_of_bounds(s, sep);
}

/// A text without separators is one piece.
pub proof fn lemma_split_whole(s: Seq<char>, sep: char)
    requires
        free_of(s, sep),
    ensures
        split(s, sep) == seq![s],
{
    lemma_index_of(s, sep, s.len() as int);
}

/// A text splits at its first separator: what stands before it is the first
/// piece, and the pieces of what follows it are the others.
pub proof fn lemma_split_first(a: Seq<char>, b: Seq<char>, sep: char)
    requires
        free_of(a, sep),
    ensures
        split(a + seq![sep] + b, sep) == seq![a] + split(b, sep),
{
    let s = a + seq![sep] + b;
    let i = a.len() as int;
    assert forall|j: int| 0 <= j < i implies #[trigger] s[j] != sep by {
        assert(s[j] == a[j]);
    }
    assert(s[i] == sep);
    lemma_index_of(s, sep, i);
    assert(s.take(i) =~= a);
    assert(s.skip(i + 1) =~= b);
}

/// Splitting loses nothing and cuts at every separator: the pieces, joined
/// again by the separator, are the text, and no piece holds a separator.
pub proof fn lemma_split_joins_back(s: Seq<char>, sep: char)
    ensures
        join(split(s, sep), sep) == s,
        forall|k: int| 0 <= k < split(s, sep).len() ==> free_of(#[trigger] split(s, sep)[k], sep),
    decreases s.len(),
{
    let i = index_of(s, sep);
    lemma_index_of_bounds(s, sep);
    lemma_index_of_is_first(s, sep);
    if i < s.len() {
        let rest = s.skip(i + 1);
        let parts = split(s, sep);
        lemma_split_joins_back(rest, sep);
        lemma_split_not_empty(rest, sep);
        assert(parts.drop_first() =~= split(rest, sep));
        assert(parts[0] == s.take(i));
        assert(s.take(i) + seq![sep] + rest =~= s);
        assert forall|k: int| 0 <= k < parts.len() implies free_of(#[trigger] parts[k], sep) by {
            if k > 0 {
                assert(parts[k] == split(rest, sep)[k - 1]);
            }
        }
    } else {
        assert(s.take(i) =~= s);
        assert(split(s, sep)[0] == s);
    }
}

/// Trimming the start drops the first `n` characters, all of them white
/// space, and what is left does not start with white space.
proof fn lemma_trim_start_is_suffix(s: Seq<char>) -> (n: int)
    ensures
        0 <= n <= s.len(),
        trim_start(s) == s.skip(n),
        forall|i: int| 0 <= i < n ==> is_space(#[trigger] s[i]),
        n < s.len() ==> !is_space(s[n]),
    decreases s.len(),
{
    if s.len() > 0 && is_space(s.first()) {
        let t = s.drop_first();
        let m = lemma_trim_start_is_suffix(t);
        assert(t.skip(m) =~= s.skip(m + 1));
        assert forall|i: int| 0 <= i < m + 1 implies is_space(#[trigger] s[i]) by {
            if i > 0 {
                assert(s[i] == t[i - 1]);
            }
        }
        m + 1
    } else {
        assert(s.skip(0) =~= s);
        0
    }
}

/// Trimming the end keeps the first `n` characters, all that follow are
/// white space, and what is kept does not end with white space.
proof fn lemma_trim_end_is_prefix(s: Seq<char>) -> (n: int)
    ensures
        0 <= n <= s.len(),
        trim_end(s) == s.take(n),
        forall|i: int| n <= i < s.len() ==> is_space(#[trigger] s[i]),
        n > 0 ==> !is_space(s[n - 1]),
    decreases s.len(),
{
    if s.len() > 0 && is_space(s.last()) {
        let t = s.drop_last();
        let m = lemma_trim_end_is_prefix(t);
        assert(t.take(m) =~= s.take(m));
        assert forall|i: int| m <= i < s.len() implies is_space(#[trigger] s[i]) by {
            if i < t.len() {
                assert(s[i] == t[i]);
            }
        }
        m
    } else {
        assert(s.take(s.len() as int) =~= s);
        s.len() as int
    }
}

/// Trimming keeps a stretch of the text, and only white space stands before
/// and behind that stretch. What it keeps neither starts nor ends with
/// white space.
pub proof fn lemma_trim_keeps_the_middle(s: Seq<char>) -> (bounds: (int, int))
    ensures
        0 <= bounds.0 <= bounds.1 <= s.len(),
        trim(s) == s.subrange(bounds.0, bounds.1),
        forall|i: int| 0 <= i < bounds.0 || bounds.1 <= i < s.len() ==> is_space(#[trigger] s[i]),
        trim(s).len() > 0 ==> !is_space(trim(s).first()) && !is_space(trim(s).last()),
{
    let a = lemma_trim_start_is_suffix(s);
    let rest = s.skip(a);
    let b = lemma_trim_end_is_prefix(rest);
    assert(rest.take(b) =~= s.subrange(a, a + b));
    assert forall|i: int| 0 <= i < a || a + b <= i < s.len() implies is_space(#[trigger] s[i]) by {
        if i >= a + b {
            assert(s[i] == rest[i - a]);
        }
    }
    if trim(s).len() > 0 {
        assert(trim(s).first() == rest.first());
    }
    (a, a + b)
}

/// A text that neither starts nor ends with white space is left as it is
/// by trimming.
pub proof fn lemma_trim_nothing(s: Seq<char>)
    requires
        s.len() > 0 ==> !is_space(s.first()) && !is_space(s.last()),
    ensures
        trim(s) == s,
{
}

} // verus!
