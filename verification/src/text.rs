//! ASCII text as bytes.
use vstd::prelude::*;
use vstd::string::StringSliceAdditionalSpecFns;
use vstd::utf8::{valid_utf8, decode_utf8, encode_utf8, is_ascii_chars, is_ascii_chars_encode_utf8, encode_utf8_valid_utf8, encode_utf8_decode_utf8};

verus! {

broadcast use vstd::string::group_string_axioms;

/// The bytes of an ASCII character sequence, one per character.
pub open spec fn ascii_bytes(chars: Seq<char>) -> Seq<u8> {
    Seq::new(chars.len(), |i: int| chars[i] as u8)
}

/// Appends the bytes of the ASCII text `s` to `out`.
pub fn push_ascii(out: &mut Vec<u8>, s: &str)
    requires
        s.is_ascii(),
    ensures
        final(out)@ == old(out)@ + ascii_bytes(s@),
{
    let bytes = s.as_bytes();
    let n = bytes.len();
    assert(bytes@ =~= ascii_bytes(s@));
    for i in 0..n
        invariant
            n == bytes@.len(),
            bytes@ == ascii_bytes(s@),
            out@ =~= old(out)@ + bytes@.take(i as int),
    {
        out.push(bytes[i]);
        assert(bytes@.take(i + 1) =~= bytes@.take(i as int).push(bytes@[i as int]));
    }
    assert(bytes@.take(n as int) =~= bytes@);
}

/// Appends the UTF-8 bytes of `s` to `out`.
pub fn push_str_bytes(out: &mut Vec<u8>, s: &str)
    ensures
        final(out)@ == old(out)@ + s.spec_bytes(),
{
    let bytes = s.as_bytes();
    let n = bytes.len();
    for i in 0..n
        invariant
            n == bytes@.len(),
            bytes@ == s.spec_bytes(),
            out@ =~= old(out)@ + bytes@.take(i as int),
    {
        out.push(bytes[i]);
        assert(bytes@.take(i + 1) =~= bytes@.take(i as int).push(bytes@[i as int]));
    }
    assert(bytes@.take(n as int) =~= bytes@);
}

/// How many times the byte `b` occurs in `s`.
pub open spec fn count_byte(s: Seq<u8>, b: u8) -> nat
    decreases s.len(),
{
    if s.len() == 0 {
        0
    } else {
        count_byte(s.drop_last(), b) + if s.last() == b { 1nat } else { 0nat }
    }
}

/// Occurrences add up over a concatenation.
pub proof fn lemma_count_byte_concat(s: Seq<u8>, t: Seq<u8>, b: u8)
    ensures
        count_byte(s + t, b) == count_byte(s, b) + count_byte(t, b),
    decreases t.len(),
{
    if t.len() == 0 {
        assert(s + t =~= s);
    } else {
        assert((s + t).drop_last() =~= s + t.drop_last());
        lemma_count_byte_concat(s, t.drop_last(), b);
    }
}

/// A byte that no position holds does not occur.
pub proof fn lemma_count_byte_absent(s: Seq<u8>, b: u8)
    requires
        forall|i: int| 0 <= i < s.len() ==> s[i] != b,
    ensures
        count_byte(s, b) == 0,
    decreases s.len(),
{
    if s.len() > 0 {
        lemma_count_byte_absent(s.drop_last(), b);
    }
}

/// Whether every byte of `s` is an ASCII code.
pub open spec fn all_ascii(s: Seq<u8>) -> bool {
    forall|i: int| 0 <= i < s.len() ==> #[trigger] s[i] < 128
}

/// The characters that the ASCII codes in `s` stand for.
pub open spec fn ascii_chars(s: Seq<u8>) -> Seq<char> {
    Seq::new(s.len(), |i: int| s[i] as char)
}

/// ASCII codes are valid UTF-8, each code standing for one character.
pub proof fn lemma_ascii_is_utf8(s: Seq<u8>)
    requires
        all_ascii(s),
    ensures
        valid_utf8(s),
        decode_utf8(s) == ascii_chars(s),
{
    let chars = ascii_chars(s);
    assert forall|i: int| 0 <= i < chars.len() implies '\0' <= #[trigger] chars[i] <= '\u{7f}' by {
        assert(s[i] < 128);
    }
    assert(is_ascii_chars(chars));
    is_ascii_chars_encode_utf8(chars);
    assert(encode_utf8(chars) =~= s);
    encode_utf8_valid_utf8(chars);
    encode_utf8_decode_utf8(chars);
}

/// The bytes of ASCII text are ASCII codes.
pub proof fn lemma_ascii_text_bytes(s: &str)
    requires
        s.is_ascii(),
    ensures
        all_ascii(ascii_bytes(s@)),
{
    assert forall|i: int| 0 <= i < ascii_bytes(s@).len() implies #[trigger] ascii_bytes(s@)[i] < 128 by {
        assert('\0' <= s@[i] <= '\u{7f}');
    }
}

/// ASCII codes stay ASCII codes when put together.
pub proof fn lemma_all_ascii_concat(a: Seq<u8>, b: Seq<u8>)
    requires
        all_ascii(a),
        all_ascii(b),
    ensures
        all_ascii(a + b),
{
    assert forall|i: int| 0 <= i < (a + b).len() implies #[trigger] (a + b)[i] < 128 by {
        if i < a.len() {
            assert((a + b)[i] == a[i]);
        } else {
            assert((a + b)[i] == b[i - a.len()]);
        }
    }
}

/// Where the first `b` stands in `s` (`s.len()` when there is none).
pub open spec fn index_of(s: Seq<u8>, b: u8) -> nat
    decreases s.len(),
{
    if s.len() == 0 {
        0
    } else if s[0] == b {
        0
    } else {
        1 + index_of(s.drop_first(), b)
    }
}

/// What comes before the first `b` in `s`.
pub open spec fn before_byte(s: Seq<u8>, b: u8) -> Seq<u8> {
    s.take(index_of(s, b) as int)
}

/// What comes after the first `b` in `s`.
pub open spec fn after_byte(s: Seq<u8>, b: u8) -> Seq<u8> {
    s.skip(index_of(s, b) as int + 1)
}

/// The lines of `s`: the pieces between line feeds, without them; a last
/// piece with no line feed after it counts as a line too.
pub open spec fn split_lines(s: Seq<u8>) -> Seq<Seq<u8>>
    decreases s.len(),
{
    if s.len() == 0 {
        Seq::empty()
    } else if index_of(s, 10u8) >= s.len() {
        seq![s]
    } else {
        seq![before_byte(s, 10u8)] + split_lines(after_byte(s, 10u8))
    }
}

/// Cutting at the first `b`: when `a` holds no `b`, the first `b` of
/// `a`, `b`, `c` is the one after `a`.
pub proof fn lemma_cut(a: Seq<u8>, b: u8, c: Seq<u8>)
    requires
        forall|i: int| 0 <= i < a.len() ==> a[i] != b,
    ensures
        index_of(a + seq![b] + c, b) == a.len(),
        before_byte(a + seq![b] + c, b) == a,
        after_byte(a + seq![b] + c, b) == c,
    decreases a.len(),
{
    let s = a + seq![b] + c;
    if a.len() == 0 {
        assert(s[0] == b);
    } else {
        assert(s[0] == a[0]);
        assert(s.drop_first() =~= a.drop_first() + seq![b] + c);
        lemma_cut(a.drop_first(), b, c);
    }
    assert(before_byte(s, b) =~= a);
    assert(after_byte(s, b) =~= c);
}

/// The lines of a run of pieces that each end with their only line feed are
/// those pieces without it.
pub proof fn lemma_split_lines_flatten(lines: Seq<Seq<u8>>)
    requires
        forall|k: int| 0 <= k < lines.len() ==> (#[trigger] lines[k]).len() >= 1 && lines[k].last() == 10u8,
        forall|k: int, j: int| 0 <= k < lines.len() && 0 <= j < lines[k].len() - 1 ==> #[trigger] lines[k][j] != 10u8,
    ensures
        split_lines(lines.flatten()) == Seq::new(lines.len(), |k: int| lines[k].drop_last()),
    decreases lines.len(),
{
    if lines.len() == 0 {
        assert(split_lines(lines.flatten()) =~= Seq::new(lines.len(), |k: int| lines[k].drop_last()));
    } else {
        let first = lines[0];
        let rest = lines.drop_first();
        assert forall|k: int| 0 <= k < rest.len() implies (#[trigger] rest[k]).len() >= 1 && rest[k].last() == 10u8 by {
            assert(rest[k] == lines[k + 1]);
        }
        assert forall|k: int, j: int| 0 <= k < rest.len() && 0 <= j < rest[k].len() - 1 implies #[trigger] rest[k][j] != 10u8 by {
            assert(rest[k] == lines[k + 1]);
        }
        lemma_split_lines_flatten(rest);
        let body = first.drop_last();
        assert(first =~= body + seq![10u8]);
        assert forall|j: int| 0 <= j < body.len() implies body[j] != 10u8 by {
            assert(body[j] == lines[0][j]);
        }
        let whole = lines.flatten();
        assert(whole == first + rest.flatten());
        assert(whole =~= body + seq![10u8] + rest.flatten());
        lemma_cut(body, 10u8, rest.flatten());
        assert(split_lines(whole) == seq![body] + split_lines(rest.flatten()));
        assert(split_lines(whole) =~= Seq::new(lines.len(), |k: int| lines[k].drop_last()));
    }
}

/// Whether `s` never holds the byte `b`.
pub open spec fn lacks(s: Seq<u8>, b: u8) -> bool {
    forall|i: int| 0 <= i < s.len() ==> s[i] != b
}

/// A byte missing from two pieces is missing from them put together.
pub proof fn lemma_lacks_concat(a: Seq<u8>, c: Seq<u8>, b: u8)
    requires
        lacks(a, b),
        lacks(c, b),
    ensures
        lacks(a + c, b),
{
    assert forall|i: int| 0 <= i < (a + c).len() implies (a + c)[i] != b by {
        if i < a.len() {
            assert((a + c)[i] == a[i]);
        } else {
            assert((a + c)[i] == c[i - a.len()]);
        }
    }
}

/// Whether `s` is a non-empty run of decimal digits.
pub open spec fn is_digits(s: Seq<u8>) -> bool {
    s.len() >= 1 && forall|i: int| 0 <= i < s.len() ==> 48 <= #[trigger] s[i] <= 57
}

} // verus!
