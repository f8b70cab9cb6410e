//! The fixed-capacity strings and vectors of `heapless` that this library
//! builds its results in, and the calls it makes on them.
//!
//! A `heapless::String<N>` holds at most `N` bytes of UTF-8 text; its contents
//! are named by one spec function per capacity (`text16`, `text64`, ...).
use vstd::prelude::*;
use vstd::utf8::*;

verus! {

#[verifier::external_type_specification]
#[verifier::external_body]
pub struct ExHeaplessString<const N: usize>(heapless::String<N>);

#[verifier::external_type_specification]
#[verifier::external_body]
#[verifier::reject_recursive_types(T)]
pub struct ExHeaplessVec<T, const N: usize>(heapless::Vec<T, N>);

/// The text held by a 16-byte string.
pub uninterp spec fn text16(s: heapless::String<16>) -> Seq<char>;

/// The text held by a 64-byte string.
pub uninterp spec fn text64(s: heapless::String<64>) -> Seq<char>;

/// The text held by a 128-byte string.
pub uninterp spec fn text128(s: heapless::String<128>) -> Seq<char>;

/// The text held by a 512-byte string.
pub uninterp spec fn text512(s: heapless::String<512>) -> Seq<char>;

/// The lines held by a vector of at most eight 64-byte strings, in order.
pub uninterp spec fn lines_text(v: heapless::Vec<heapless::String<64>, 8>) -> Seq<Seq<char>>;

/// `heapless::String::<16>::new`: the empty string.
#[verifier::external_body]
pub(crate) fn text16_new() -> (s: heapless::String<16>)
    ensures
        text16(s) == Seq::<char>::empty(),
{
    heapless::String::new()
}

/// `heapless::String::<16>::push`: appends `c` when its UTF-8 bytes still fit
/// in the 16-byte buffer, and otherwise leaves the string as it was and fails.
#[verifier::external_body]
pub(crate) fn text16_push(s: &mut heapless::String<16>, c: char) -> (r: Result<(), ()>)
    ensures
        encode_utf8(text16(*old(s))).len() + encode_scalar(c as u32).len() <= 16 ==> r is Ok
            && text16(*final(s)) == text16(*old(s)).push(c),
        encode_utf8(text16(*old(s))).len() + encode_scalar(c as u32).len() > 16 ==> r is Err
            && text16(*final(s)) == text16(*old(s)),
{
    s.push(c)
}

/// `heapless::String::<64>::new`: the empty string.
#[verifier::external_body]
pub(crate) fn text64_new() -> (s: heapless::String<64>)
    ensures
        text64(s) == Seq::<char>::empty(),
{
    heapless::String::new()
}

/// `heapless::String::<64>::push`: appends `c` when its UTF-8 bytes still fit
/// in the 64-byte buffer, and otherwise leaves the string as it was and fails.
#[verifier::external_body]
pub(crate) fn text64_push(s: &mut heapless::String<64>, c: char) -> (r: Result<(), ()>)
    ensures
        encode_utf8(text64(*old(s))).len() + encode_scalar(c as u32).len() <= 64 ==> r is Ok
            && text64(*final(s)) == text64(*old(s)).push(c),
        encode_utf8(text64(*old(s))).len() + encode_scalar(c as u32).len() > 64 ==> r is Err
            && text64(*final(s)) == text64(*old(s)),
{
    s.push(c)
}

/// `heapless::String::<64>::push_str`: appends all of `t` when its UTF-8
/// bytes still fit in the 64-byte buffer, and otherwise appends nothing and fails.
#[verifier::external_body]
pub(crate) fn text64_push_str(s: &mut heapless::String<64>, t: &str) -> (r: Result<(), ()>)
    ensures
        encode_utf8(text64(*old(s))).len() + encode_utf8(t@).len() <= 64 ==> r is Ok && text64(
            *final(s),
        ) == text64(*old(s)) + t@,
        encode_utf8(text64(*old(s))).len() + encode_utf8(t@).len() > 64 ==> r is Err && text64(
            *final(s),
        ) == text64(*old(s)),
{
    s.push_str(t)
}

/// `<heapless::String<64> as TryFrom<&str>>::try_from`: a copy of `t` when its
/// UTF-8 bytes fit in 64 bytes, and an error otherwise.
#[verifier::external_body]
pub(crate) fn text64_try_from(t: &str) -> (r: Result<heapless::String<64>, ()>)
    ensures
        encode_utf8(t@).len() <= 64 ==> r is Ok && text64(r->Ok_0) == t@,
        encode_utf8(t@).len() > 64 ==> r is Err,
{
    heapless::String::try_from(t)
}

/// `heapless::String::<64>::as_str`: the text as a string slice.
#[verifier::external_body]
pub(crate) fn text64_as_str(s: &heapless::String<64>) -> (r: &str)
    ensures
        r@ == text64(*s),
{
    s.as_str()
}

/// `heapless::String::<16>::as_str`: the text as a string slice.
#[verifier::external_body]
pub(crate) fn text16_as_str(s: &heapless::String<16>) -> (r: &str)
    ensures
        r@ == text16(*s),
{
    s.as_str()
}

/// `<heapless::String<128> as TryFrom<&str>>::try_from`: a copy of `t` when its
/// UTF-8 bytes fit in 128 bytes, and an error otherwise.
#[verifier::external_body]
pub(crate) fn text128_try_from(t: &str) -> (r: Result<heapless::String<128>, ()>)
    ensures
        encode_utf8(t@).len() <= 128 ==> r is Ok && text128(r->Ok_0) == t@,
        encode_utf8(t@).len() > 128 ==> r is Err,
{
    heapless::String::try_from(t)
}

/// `heapless::String::<128>::as_str`: the text as a string slice, which
/// never takes more than the 128 bytes of the buffer.
#[verifier::external_body]
pub(crate) fn text128_as_str(s: &heapless::String<128>) -> (r: &str)
    ensures
        r@ == text128(*s),
        encode_utf8(r@).len() <= 128,
{
    s.as_str()
}

/// `heapless::String::<512>::new`: the empty string.
#[verifier::external_body]
pub(crate) fn text512_new() -> (s: heapless::String<512>)
    ensures
        text512(s) == Seq::<char>::empty(),
{
    heapless::String::new()
}

/// `heapless::String::<512>::push_str`: appends all of `t` when its UTF-8
/// bytes still fit in the 512-byte buffer, and otherwise appends nothing and fails.
#[verifier::external_body]
pub(crate) fn text512_push_str(s: &mut heapless::String<512>, t: &str) -> (r: Result<(), ()>)
    ensures
        encode_utf8(text512(*old(s))).len() + encode_utf8(t@).len() <= 512 ==> r is Ok
            && text512(*final(s)) == text512(*old(s)) + t@,
        encode_utf8(text512(*old(s))).len() + encode_utf8(t@).len() > 512 ==> r is Err
            && text512(*final(s)) == text512(*old(s)),
{
    s.push_str(t)
}

/// `heapless::Vec::<heapless::String<64>, 8>::new`: no lines.
#[verifier::external_body]
pub(crate) fn lines_new() -> (v: heapless::Vec<heapless::String<64>, 8>)
    ensures
        lines_text(v) == Seq::<Seq<char>>::empty(),
{
    heapless::Vec::new()
}

/// `heapless::Vec::<heapless::String<64>, 8>::push`: appends `line` while fewer
/// than eight lines are held, and otherwise hands it back unchanged.
#[verifier::external_body]
pub(crate) fn lines_push(v: &mut heapless::Vec<heapless::String<64>, 8>, line: heapless::String<64>) -> (r:
    Result<(), heapless::String<64>>)
    ensures
        lines_text(*old(v)).len() < 8 ==> r is Ok && lines_text(*final(v)) == lines_text(
            *old(v),
        ).push(text64(line)),
        lines_text(*old(v)).len() >= 8 ==> r is Err && lines_text(*final(v)) == lines_text(
            *old(v),
        ) && text64(r->Err_0) == text64(line),
{
    v.push(line)
}

/// `heapless::Vec::<heapless::String<64>, 8>::len`: the number of lines held.
#[verifier::external_body]
pub(crate) fn lines_len(v: &heapless::Vec<heapless::String<64>, 8>) -> (n: usize)
    ensures
        n == lines_text(*v).len(),
        n <= 8,
{
    v.len()
}

/// Indexing a `heapless::Vec<heapless::String<64>, 8>`: the line at `i`.
#[verifier::external_body]
pub(crate) fn lines_get(v: &heapless::Vec<heapless::String<64>, 8>, i: usize) -> (line:
    &heapless::String<64>)
    requires
        i < lines_text(*v).len(),
    ensures
        text64(*line) == lines_text(*v)[i as int],
{
    &v[i]
}

} // verus!
