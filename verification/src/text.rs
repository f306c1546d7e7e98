//! Text in UTF-8: telling whether bytes are text, cutting text at known
//! bytes, and trimming whitespace.

use crate::bytes::bytes_eq;
use vstd::prelude::*;
use vstd::std_specs::iter::IteratorSpec;
use vstd::string::StrSliceExecFns;
use vstd::string::StringSliceAdditionalSpecFns;
use vstd::utf8::decode_utf8;
use vstd::utf8::encode_utf8;
use vstd::utf8::encode_utf8_decode_utf8;
use vstd::utf8::is_char_boundary;
use vstd::utf8::is_char_boundary_iff_not_is_continuation_byte;
use vstd::utf8::is_char_boundary_start_end_of_seq;
use vstd::utf8::valid_utf8_split;
use vstd::utf8::valid_utf8;

verus! {

/// Two texts are equal exactly when their UTF-8 encodings are.
pub proof fn lemma_encoding_decides(a: Seq<char>, b: Seq<char>)
    ensures
        (encode_utf8(a) == encode_utf8(b)) == (a == b),
{
    encode_utf8_decode_utf8(a);
    encode_utf8_decode_utf8(b);
}

/// Whether two strings hold the same text.
pub fn str_eq(a: &str, b: &str) -> (same: bool)
    ensures
        same == (a@ == b@),
{
    proof {
        lemma_encoding_decides(a@, b@);
    }
    bytes_eq(a.as_bytes(), b.as_bytes())
}

/// The characters with the Unicode property `White_Space`.
pub open spec fn is_whitespace(c: char) -> bool {
    let u = c as u32;
    ||| 0x09 <= u <= 0x0D
    ||| u == 0x20
    ||| u == 0x85
    ||| u == 0xA0
    ||| u == 0x1680
    ||| 0x2000 <= u <= 0x200A
    ||| u == 0x2028
    ||| u == 0x2029
    ||| u == 0x202F
    ||| u == 0x205F
    ||| u == 0x3000
}

/// `s` without the whitespace it starts with.
pub open spec fn trim_start(s: Seq<char>) -> Seq<char>
    decreases s.len(),
{
    if s.len() > 0 && is_whitespace(s[0]) {
        trim_start(s.drop_first())
    } else {
        s
    }
}

/// `s` without the whitespace it ends with.
pub open spec fn trim_end(s: Seq<char>) -> Seq<char>
    decreases s.len(),
{
    if s.len() > 0 && is_whitespace(s.last()) {
        trim_end(s.drop_last())
    } else {
        s
    }
}

/// `s` without the whitespace around it.
pub open spec fn trim(s: Seq<char>) -> Seq<char> {
    trim_end(trim_start(s))
}

/// Whether `c` is whitespace.
pub fn char_is_whitespace(c: char) -> (yes: bool)
    ensures
        yes == is_whitespace(c),
{
    let u: u32 = c as u32;
    (0x09 <= u && u <= 0x0D) || u == 0x20 || u == 0x85 || u == 0xA0 || u == 0x1680 || (0x2000
        <= u && u <= 0x200A) || u == 0x2028 || u == 0x2029 || u == 0x202F || u == 0x205F || u
        == 0x3000
}

/// `s` without the whitespace it starts with is what begins at the first
/// character that is no whitespace.
pub proof fn lemma_trim_start_at(s: Seq<char>, from: int)
    requires
        0 <= from <= s.len(),
        forall|j: int| 0 <= j < from ==> is_whitespace(s[j]),
        from < s.len() ==> !is_whitespace(s[from]),
    ensures
        trim_start(s) == s.skip(from),
    decreases from,
{
    if from == 0 {
        assert(s.skip(0) =~= s);
    } else {
        let rest = s.drop_first();
        assert forall|j: int| 0 <= j < from - 1 implies is_whitespace(rest[j]) by {
            assert(rest[j] == s[j + 1]);
        }
        lemma_trim_start_at(rest, from - 1);
        assert(rest.skip(from - 1) =~= s.skip(from));
    }
}

/// `s` without the whitespace it ends with is what ends behind the last
/// character that is no whitespace.
pub proof fn lemma_trim_end_at(s: Seq<char>, to: int)
    requires
        0 <= to <= s.len(),
        forall|j: int| to <= j < s.len() ==> is_whitespace(s[j]),
        to > 0 ==> !is_whitespace(s[to - 1]),
    ensures
        trim_end(s) == s.take(to),
    decreases s.len() - to,
{
    if to == s.len() {
        assert(s.take(to) =~= s);
    } else {
        let rest = s.drop_last();
        lemma_trim_end_at(rest, to);
        assert(rest.take(to) =~= s.take(to));
    }
}

/// The part of `s` between the whitespace around it.
pub fn trimmed(s: &str) -> (t: &str)
    ensures
        t@ == trim(s@),
{
    let n: usize = s.unicode_len();
    let mut chars = s.chars();
    proof {
        vstd::string::axiom_spec_iter(s);
        assert(s@.skip(0) =~= s@);
    }
    let mut seen: usize = 0;
    let mut from: usize = 0;
    let mut to: usize = 0;
    loop
        invariant_except_break
            chars.remaining() == s@.skip(seen as int),
        invariant
            n == s@.len(),
            seen <= n,
            chars.obeys_prophetic_iter_laws(),
            chars.decrease() is Some,
            from <= seen,
            to <= seen,
            forall|j: int| 0 <= j < from ==> is_whitespace(s@[j]),
            forall|j: int| to <= j < seen ==> is_whitespace(s@[j]),
            to > 0 ==> from < to && !is_whitespace(s@[from as int]) && !is_whitespace(s@[to - 1]),
            to == 0 ==> from == seen,
        ensures
            seen == n,
        decreases chars.decrease()->0,
    {
        let ghost before = chars;
        let next = chars.next();
        proof {
            vstd::string::next_postcondition(&before, &chars, next);
        }
        match next {
            Some(c) => {
                assert(c == s@[seen as int]);
                assert(s@.skip(seen as int).drop_first() =~= s@.skip(seen + 1));
                if !char_is_whitespace(c) {
                    to = seen + 1;
                } else if to == 0 {
                    from = seen + 1;
                }
                seen += 1;
            },
            None => {
                break;
            },
        }
    }
    proof {
        lemma_trim_start_at(s@, from as int);
        let inner = s@.skip(from as int);
        if to > 0 {
            assert forall|j: int| to - from <= j < inner.len() implies is_whitespace(inner[j]) by {
                assert(inner[j] == s@[j + from]);
            }
            assert(inner[to - from - 1] == s@[to - 1]);
            lemma_trim_end_at(inner, to - from);
            assert(inner.take(to - from) =~= s@.subrange(from as int, to as int));
        } else {
            assert(inner =~= Seq::<char>::empty());
            assert(s@.subrange(from as int, from as int) =~= Seq::<char>::empty());
        }
    }
    if to > 0 {
        s.substring_char(from, to)
    } else {
        s.substring_char(from, from)
    }
}

/// `core::str::from_utf8`: the bytes are taken as text exactly when they
/// are valid UTF-8, and the text is then made of those very bytes.
#[verifier::external_body]
pub(crate) fn utf8_text(bytes: &[u8]) -> (text: Option<&str>)
    ensures
        text.is_some() == valid_utf8(bytes@),
        text matches Some(t) ==> t.spec_bytes() == bytes@,
{
    core::str::from_utf8(bytes).ok()
}

/// The text that `String::from_utf8_lossy` makes of `bytes`: text that is
/// valid is kept, and each part that is not is replaced.
pub uninterp spec fn lossy_text(bytes: Seq<u8>) -> Seq<char>;

/// `String::from_utf8_lossy`: the result is a function of the bytes alone.
#[verifier::external_body]
pub(crate) fn utf8_lossy(bytes: &[u8]) -> (text: String)
    ensures
        text@ == lossy_text(bytes@),
{
    String::from_utf8_lossy(bytes).into_owned()
}

/// In valid UTF-8 a character begins at every byte below 128, and the next
/// one begins right behind it.
pub proof fn lemma_ascii_is_boundary(bytes: Seq<u8>, i: int)
    requires
        valid_utf8(bytes),
        0 <= i < bytes.len(),
        bytes[i] < 0x80,
    ensures
        is_char_boundary(bytes, i),
        is_char_boundary(bytes, i + 1),
{
    is_char_boundary_iff_not_is_continuation_byte(bytes, i);
    if i + 1 == bytes.len() {
        is_char_boundary_start_end_of_seq(bytes);
    } else {
        valid_utf8_split(bytes, i);
        let tail = bytes.subrange(i, bytes.len() as int);
        assert(tail[0] == bytes[i]);
        assert(valid_utf8(tail));
        let next = vstd::utf8::pop_first_scalar(tail);
        assert(next =~= bytes.subrange(i + 1, bytes.len() as int));
        assert(valid_utf8(next));
        assert(next[0] == bytes[i + 1]);
        is_char_boundary_iff_not_is_continuation_byte(bytes, i + 1);
    }
}

/// Whether `i` is a place where text may be cut: an end of `bytes`, or next
/// to a byte below 128.
pub open spec fn cut_point(bytes: Seq<u8>, i: int) -> bool {
    ||| i == 0
    ||| i == bytes.len()
    ||| 0 < i <= bytes.len() && bytes[i - 1] < 0x80
    ||| 0 <= i < bytes.len() && bytes[i] < 0x80
}

/// Every cut point of valid UTF-8 is where a character begins.
pub proof fn lemma_cut_point_is_boundary(bytes: Seq<u8>, i: int)
    requires
        valid_utf8(bytes),
        cut_point(bytes, i),
    ensures
        is_char_boundary(bytes, i),
{
    is_char_boundary_start_end_of_seq(bytes);
    if 0 < i <= bytes.len() && bytes[i - 1] < 0x80 {
        lemma_ascii_is_boundary(bytes, i - 1);
    } else if 0 <= i < bytes.len() && bytes[i] < 0x80 {
        lemma_ascii_is_boundary(bytes, i);
    }
}

/// The part of valid UTF-8 between two cut points is valid UTF-8.
pub proof fn lemma_cut_is_valid(bytes: Seq<u8>, from: int, to: int)
    requires
        valid_utf8(bytes),
        0 <= from <= to <= bytes.len(),
        cut_point(bytes, from),
        cut_point(bytes, to),
    ensures
        valid_utf8(bytes.subrange(from, to)),
        is_char_boundary(bytes, to),
        is_char_boundary(bytes.subrange(0, to), from),
{
    lemma_cut_point_is_boundary(bytes, to);
    valid_utf8_split(bytes, to);
    let left = bytes.subrange(0, to);
    assert(cut_point(left, from)) by {
        if from < to && from < bytes.len() && bytes[from] < 0x80 {
            assert(left[from] == bytes[from]);
        }
        if 0 < from && bytes[from - 1] < 0x80 {
            assert(left[from - 1] == bytes[from - 1]);
        }
    }
    lemma_cut_point_is_boundary(left, from);
    valid_utf8_split(left, from);
    assert(left.subrange(from, left.len() as int) =~= bytes.subrange(from, to));
}

/// The text between the cut points `from` and `to` of the bytes of `s`.
pub fn cut(s: &str, from: usize, to: usize) -> (part: &str)
    requires
        from <= to <= s.spec_bytes().len(),
        cut_point(s.spec_bytes(), from as int),
        cut_point(s.spec_bytes(), to as int),
    ensures
        part.spec_bytes() == s.spec_bytes().subrange(from as int, to as int),
        part@ == decode_utf8(s.spec_bytes().subrange(from as int, to as int)),
{
    proof {
        vstd::utf8::encode_utf8_valid_utf8(s@);
        lemma_cut_is_valid(s.spec_bytes(), from as int, to as int);
    }
    let (left, _) = s.split_at(to);
    let (_, part) = left.split_at(from);
    proof {
        assert(part.spec_bytes() =~= s.spec_bytes().subrange(from as int, to as int));
        encode_utf8_decode_utf8(part@);
    }
    part
}

} // verus!
