//! Searching and cutting byte sequences.

use vstd::prelude::*;

verus! {

/// The index of the first `b` in `s`, or the length of `s` where it holds none.
pub open spec fn index_of(s: Seq<u8>, b: u8) -> int
    decreases s.len(),
{
    if s.len() == 0 || s[0] == b {
        0
    } else {
        1 + index_of(s.drop_first(), b)
    }
}

/// `index_of` is the one position with no `b` before it that holds `b` or is
/// the end of `s`.
pub proof fn lemma_index_of(s: Seq<u8>, b: u8)
    ensures
        0 <= index_of(s, b) <= s.len(),
        forall|j: int| 0 <= j < index_of(s, b) ==> s[j] != b,
        index_of(s, b) < s.len() ==> s[index_of(s, b)] == b,
    decreases s.len(),
{
    if s.len() == 0 || s[0] == b {
    } else {
        let t = s.drop_first();
        lemma_index_of(t, b);
        assert forall|j: int| 0 <= j < index_of(s, b) implies s[j] != b by {
            if j > 0 {
                assert(s[j] == t[j - 1]);
            }
        }
    }
}

/// Any position with no `b` before it that holds `b` or is the end of `s` is
/// `index_of`.
pub proof fn lemma_index_of_is(s: Seq<u8>, b: u8, i: int)
    requires
        0 <= i <= s.len(),
        forall|j: int| 0 <= j < i ==> s[j] != b,
        i < s.len() ==> s[i] == b,
    ensures
        index_of(s, b) == i,
{
    lemma_index_of(s, b);
    let k = index_of(s, b);
    if k < i {
        assert(s[k] == b);
    } else if k > i {
        assert(s[i] == b);
    }
}

/// Finds the first `b` in `s` at or after `from`.
pub fn find(s: &[u8], from: usize, b: u8) -> (at: usize)
    requires
        from <= s.len(),
    ensures
        from <= at <= s.len(),
        at == from + index_of(s@.skip(from as int), b),
{
    let mut i: usize = from;
    while i < s.len() && s[i] != b
        invariant
            from <= i <= s.len(),
            forall|j: int| from <= j < i ==> s@[j] != b,
        decreases s.len() - i,
    {
        i += 1;
    }
    proof {
        lemma_index_of_is(s@.skip(from as int), b, i - from);
    }
    i
}

/// Whether two byte strings hold the same bytes.
pub fn bytes_eq(a: &[u8], b: &[u8]) -> (same: bool)
    ensures
        same == (a@ == b@),
{
    if a.len() != b.len() {
        return false;
    }
    let mut i: usize = 0;
    while i < a.len()
        invariant
            a.len() == b.len(),
            i <= a.len(),
            forall|j: int| 0 <= j < i ==> a@[j] == b@[j],
        decreases a.len() - i,
    {
        if a[i] != b[i] {
            return false;
        }
        i += 1;
    }
    assert(a@ =~= b@);
    true
}

/// The byte that parts a line into tokens.
pub const SPACE: u8 = 0x20;

/// The byte that parts the name of a header field from its value.
pub const COLON: u8 = 0x3A;

/// The byte that ends a line.
pub const LF: u8 = 0x0A;

/// The byte that may stand before the one that ends a line.
pub const CR: u8 = 0x0D;

/// The parts of `s` between the bytes `sep`. There is one part more than
/// there are separators: a separator at either end, or two in a row, give
/// an empty part.
pub open spec fn split(s: Seq<u8>, sep: u8) -> Seq<Seq<u8>>
    decreases s.len(),
{
    let i = index_of(s, sep);
    if 0 <= i < s.len() {
        seq![s.take(i)] + split(s.skip(i + 1), sep)
    } else {
        seq![s]
    }
}

/// There is always a first part.
pub proof fn lemma_split_len(s: Seq<u8>, sep: u8)
    ensures
        split(s, sep).len() >= 1,
    decreases s.len(),
{
    let i = index_of(s, sep);
    if 0 <= i < s.len() {
        lemma_split_len(s.skip(i + 1), sep);
    }
}

/// The last part is what follows the last separator.
pub proof fn lemma_split_last(s: Seq<u8>, sep: u8, from: int)
    requires
        0 <= from <= s.len(),
        from > 0 ==> s[from - 1] == sep,
        forall|j: int| from <= j < s.len() ==> s[j] != sep,
    ensures
        split(s, sep).last() == s.skip(from),
    decreases s.len(),
{
    lemma_index_of(s, sep);
    let i = index_of(s, sep);
    if i < s.len() {
        let rest = s.skip(i + 1);
        lemma_split_len(rest, sep);
        assert(i < from);
        assert forall|j: int| from - i - 1 <= j < rest.len() implies rest[j] != sep by {
            assert(rest[j] == s[j + i + 1]);
        }
        lemma_split_last(rest, sep, from - i - 1);
        assert(rest.skip(from - i - 1) =~= s.skip(from));
    } else {
        assert(from == 0);
        assert(s.skip(0) =~= s);
    }
}

/// Where the tail of `s` without `sep` begins: just behind the last `sep`
/// at or after `floor`, or at `floor`.
pub fn last_part_start(s: &[u8], floor: usize, sep: u8) -> (from: usize)
    requires
        floor <= s.len(),
    ensures
        floor <= from <= s.len(),
        from > floor ==> s@[from - 1] == sep,
        forall|j: int| from <= j < s.len() ==> s@[j] != sep,
{
    let mut from: usize = s.len();
    while from > floor && s[from - 1] != sep
        invariant
            floor <= from <= s.len(),
            forall|j: int| from <= j < s.len() ==> s@[j] != sep,
        decreases from,
    {
        from -= 1;
    }
    from
}

/// The first line of `s`, without the line feed that ends it and without
/// a carriage return before that line feed. Where `s` holds no line feed
/// the line is all of `s`.
pub open spec fn first_line(s: Seq<u8>) -> Seq<u8> {
    let n = index_of(s, LF);
    if 0 < n < s.len() && s[n - 1] == CR {
        s.take(n - 1)
    } else {
        s.take(n)
    }
}

/// What follows the first line of `s` and the line feed that ends it.
pub open spec fn after_first_line(s: Seq<u8>) -> Seq<u8> {
    let n = index_of(s, LF);
    if 0 <= n < s.len() {
        s.skip(n + 1)
    } else {
        Seq::empty()
    }
}

/// What follows the first line is shorter than a text that is not empty,
/// and is its tail.
pub proof fn lemma_after_first_line(s: Seq<u8>)
    ensures
        after_first_line(s).len() <= s.len(),
        s.len() > 0 ==> after_first_line(s).len() < s.len(),
        after_first_line(s) == s.skip(s.len() - after_first_line(s).len()),
{
    lemma_index_of(s, LF);
    assert(after_first_line(s) =~= s.skip(s.len() - after_first_line(s).len()));
}

/// Finds the line that begins at `pos`: where it ends, and where the next
/// one begins.
pub fn next_line(s: &[u8], pos: usize) -> (at: (usize, usize))
    requires
        pos <= s.len(),
    ensures
        pos <= at.0 <= at.1 <= s.len(),
        pos < s.len() ==> pos < at.1,
        s@.subrange(pos as int, at.0 as int) == first_line(s@.skip(pos as int)),
        s@.skip(at.1 as int) == after_first_line(s@.skip(pos as int)),
{
    let feed: usize = find(s, pos, LF);
    let ghost rest = s@.skip(pos as int);
    proof {
        lemma_index_of(rest, LF);
    }
    if feed < s.len() {
        let end: usize = if feed > pos && s[feed - 1] == CR {
            feed - 1
        } else {
            feed
        };
        assert(feed > pos ==> rest[feed - pos - 1] == s@[feed - 1]);
        assert(s@.subrange(pos as int, end as int) =~= rest.take(end - pos));
        assert(s@.skip(feed + 1) =~= rest.skip(feed - pos + 1));
        (end, feed + 1)
    } else {
        assert(s@.subrange(pos as int, feed as int) =~= rest.take(feed - pos));
        assert(s@.skip(feed as int) =~= Seq::<u8>::empty());
        (feed, feed)
    }
}

/// Bytes put behind `s` do not move the first `b` of `s`.
pub proof fn lemma_index_of_join(s: Seq<u8>, more: Seq<u8>, b: u8)
    requires
        index_of(s, b) < s.len(),
    ensures
        index_of(s + more, b) == index_of(s, b),
{
    lemma_index_of(s, b);
    let i = index_of(s, b);
    assert forall|j: int| 0 <= j < i implies (s + more)[j] != b by {
        assert((s + more)[j] == s[j]);
    }
    assert((s + more)[i] == s[i]);
    lemma_index_of_is(s + more, b, i);
}

/// Bytes put behind a text whose first line is ended by a line feed leave
/// that line as it is, and follow what followed it.
pub proof fn lemma_first_line_join(s: Seq<u8>, more: Seq<u8>)
    requires
        index_of(s, LF) < s.len(),
    ensures
        first_line(s + more) == first_line(s),
        after_first_line(s + more) == after_first_line(s) + more,
{
    lemma_index_of(s, LF);
    lemma_index_of_join(s, more, LF);
    let n = index_of(s, LF);
    if n > 0 {
        assert((s + more)[n - 1] == s[n - 1]);
    }
    assert((s + more).take(n) =~= s.take(n));
    if n > 0 {
        assert((s + more).take(n - 1) =~= s.take(n - 1));
    }
    assert((s + more).skip(n + 1) =~= s.skip(n + 1) + more);
}

} // verus!
