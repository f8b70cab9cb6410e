//! Character-level facts shared by the text formatting and parsing code:
//! UTF-8 byte lengths and the Unicode `White_Space` property.
use vstd::prelude::*;
use vstd::string::*;
use vstd::utf8::*;

verus! {

/// Number of bytes in the UTF-8 encoding of `c`.
pub open spec fn char_width(c: char) -> nat {
    encode_scalar(c as u32).len()
}

/// Number of bytes in the UTF-8 encoding of `s` (what `str::len` returns).
pub open spec fn utf8_len(s: Seq<char>) -> nat {
    encode_utf8(s).len()
}

/// The Unicode `White_Space` property, which `char::is_whitespace` tests.
pub open spec fn is_space(c: char) -> bool {
    let u = c as u32;
    ||| 0x09 <= u <= 0x0D
    ||| u == 0x20
    ||| u == 0x85
    ||| u == 0xA0
    ||| u == 0x1680
    ||| 0x2000 <= u <= 0x200A
    ||| u == 0x2028
    ||| u == 0x2029
    ||| u == 0x202F
    ||| u == 0x205F
    ||| u == 0x3000
}

pub proof fn lemma_char_width_bounds(c: char)
    ensures
        1 <= char_width(c) <= 4,
        (c as u32) < 0x80 ==> char_width(c) == 1,
{
    vstd::utf8::char_is_scalar(c);
}

pub proof fn lemma_encode_utf8_concat(a: Seq<char>, b: Seq<char>)
    ensures
        encode_utf8(a + b) == encode_utf8(a) + encode_utf8(b),
    decreases a.len(),
{
    if a.len() == 0 {
        assert(a + b =~= b);
        assert(encode_utf8(a) =~= Seq::<u8>::empty());
        assert(encode_utf8(a) + encode_utf8(b) =~= encode_utf8(b));
    } else {
        assert((a + b).drop_first() =~= a.drop_first() + b);
        lemma_encode_utf8_concat(a.drop_first(), b);
        assert(encode_utf8(a + b) =~= encode_scalar(a[0] as u32) + encode_utf8(
            a.drop_first() + b,
        ));
        assert(encode_utf8(a + b) =~= encode_utf8(a) + encode_utf8(b));
    }
}

pub proof fn lemma_utf8_len_concat(a: Seq<char>, b: Seq<char>)
    ensures
        utf8_len(a + b) == utf8_len(a) + utf8_len(b),
{
    lemma_encode_utf8_concat(a, b);
}

pub proof fn lemma_utf8_len_push(a: Seq<char>, c: char)
    ensures
        utf8_len(a.push(c)) == utf8_len(a) + char_width(c),
{
    lemma_encode_utf8_concat(a, seq![c]);
    assert(a.push(c) =~= a + seq![c]);
    assert(seq![c].drop_first() =~= Seq::<char>::empty());
    assert(encode_utf8(seq![c]) =~= encode_scalar(c as u32) + encode_utf8(
        Seq::<char>::empty(),
    ));
}

pub proof fn lemma_utf8_len_empty()
    ensures
        utf8_len(Seq::<char>::empty()) == 0,
{
}

/// The byte length of a sequence is at least its number of characters.
pub proof fn lemma_utf8_len_ge_len(s: Seq<char>)
    ensures
        utf8_len(s) >= s.len(),
    decreases s.len(),
{
    if s.len() > 0 {
        lemma_utf8_len_ge_len(s.drop_last());
        assert(s.drop_last().push(s.last()) =~= s);
        lemma_utf8_len_push(s.drop_last(), s.last());
        lemma_char_width_bounds(s.last());
    }
}

/// An ASCII sequence takes one byte per character.
pub proof fn lemma_utf8_len_ascii(s: Seq<char>)
    requires
        forall|i: int| 0 <= i < s.len() ==> (#[trigger] s[i] as u32) < 0x80,
    ensures
        utf8_len(s) == s.len(),
    decreases s.len(),
{
    if s.len() > 0 {
        let p = s.drop_last();
        assert forall|i: int| 0 <= i < p.len() implies (#[trigger] p[i] as u32) < 0x80 by {
            assert(p[i] == s[i]);
        }
        lemma_utf8_len_ascii(p);
        assert(p.push(s.last()) =~= s);
        lemma_utf8_len_push(p, s.last());
        lemma_char_width_bounds(s.last());
    }
}

/// `char::len_utf8`.
pub(crate) fn char_width_exec(c: char) -> (w: usize)
    ensures
        w == char_width(c),
        1 <= w <= 4,
{
    proof {
        vstd::utf8::char_is_scalar(c);
    }
    let u = c as u32;
    if u <= 0x7F {
        1
    } else if u <= 0x7FF {
        2
    } else if u <= 0xFFFF {
        3
    } else {
        4
    }
}

/// `char::is_whitespace`.
pub(crate) fn is_space_exec(c: char) -> (b: bool)
    ensures
        b == is_space(c),
{
    let u = c as u32;
    (0x09 <= u && u <= 0x0D) || u == 0x20 || u == 0x85 || u == 0xA0 || u == 0x1680 || (0x2000
        <= u && u <= 0x200A) || u == 0x2028 || u == 0x2029 || u == 0x202F || u == 0x205F || u
        == 0x3000
}

/// The byte length of `s` (`str::len`).
pub(crate) fn byte_len(s: &str) -> (n: usize)
    ensures
        n == utf8_len(s@),
{
    s.as_bytes().len()
}

/// The characters of `s`, one by one.
pub(crate) fn chars_of(s: &str) -> (v: Vec<char>)
    ensures
        v@ == s@,
{
    let n = s.unicode_len();
    let mut v: Vec<char> = Vec::new();
    let mut i: usize = 0;
    while i < n
        invariant
            n == s@.len(),
            i <= n,
            v@ == s@.take(i as int),
        decreases n - i,
    {
        v.push(s.get_char(i));
        i = i + 1;
        assert(v@ =~= s@.take(i as int));
    }
    assert(s@.take(n as int) =~= s@);
    v
}

} // verus!
