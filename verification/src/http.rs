//! HTTP/1.1 request building and response parsing.
//!
//! The request text and the response format are this library's own; the
//! transport (DNS, TCP, TLS) lives with the caller, which hands the received
//! bytes to [`parse_http_response`] and drives its read loop by [`recv_step`].
use vstd::prelude::*;
use vstd::utf8::*;

use crate::bounded::{text512, text512_new, text512_push_str};
use crate::text::{chars_of, lemma_utf8_len_concat, utf8_len};

verus! {

/// Errors that can occur during HTTP operations.
#[derive(Debug, Clone, Copy, PartialEq, Eq, Structural)]
pub enum HttpError {
    ConnectionFailed,
    SendFailed,
    RecvFailed,
    ParseError,
    InvalidUrl,
    BodyTooLarge,
    DnsFailed,
    TlsFailed,
}

/// A parsed HTTP response.
#[derive(Debug, Clone, Copy, PartialEq, Eq, Structural)]
pub struct HttpResponse {
    pub status_code: u16,
    pub body_len: usize,
}

// ---------------------------------------------------------------------------
// Request building

/// `s` holds a character that would break a request line or header.
pub open spec fn has_line_break(s: Seq<char>) -> bool {
    exists|i: int| 0 <= i < s.len() && (s[i] == '\r' || s[i] == '\n' || s[i] == '\0')
}

/// The text of a GET request for `path` on `host`.
pub open spec fn get_request_text(host: Seq<char>, path: Seq<char>) -> Seq<char> {
    "GET "@ + path + " HTTP/1.1\r\nHost: "@ + host
        + "\r\nConnection: close\r\nUser-Agent: blink/0.1\r\n\r\n"@
}

/// Reject HTTP request tokens that contain control characters which could
/// break the request line or headers (`\r`, `\n`, `\0`).
fn validate_http_token(s: &str) -> (r: Result<(), HttpError>)
    ensures
        r is Ok <==> !has_line_break(s@),
        r is Err ==> r->Err_0 == HttpError::InvalidUrl,
{
    let cs = chars_of(s);
    let mut i: usize = 0;
    while i < cs.len()
        invariant
            cs@ == s@,
            i <= cs.len(),
            forall|j: int| 0 <= j < i ==> !(s@[j] == '\r' || s@[j] == '\n' || s@[j] == '\0'),
        decreases cs.len() - i,
    {
        let c = cs[i];
        if c == '\r' || c == '\n' || c == '\0' {
            return Err(HttpError::InvalidUrl);
        }
        i = i + 1;
    }
    Ok(())
}

/// Build an HTTP/1.1 GET request string.
///
/// Fails with `InvalidUrl` when `host` or `path` holds `\r`, `\n` or `\0`
/// (the host is checked first), and with `SendFailed` when the request does
/// not fit in 512 bytes.
pub fn build_get_request(host: &str, path: &str) -> (r: Result<heapless::String<512>, HttpError>)
    ensures
        has_line_break(host@) || has_line_break(path@) <==> r == Err::<
            heapless::String<512>,
            HttpError,
        >(HttpError::InvalidUrl),
        !has_line_break(host@) && !has_line_break(path@) ==> {
            let req = get_request_text(host@, path@);
            &&& utf8_len(req) <= 512 ==> r is Ok && text512(r->Ok_0) == req
            &&& utf8_len(req) > 512 ==> r == Err::<heapless::String<512>, HttpError>(
                HttpError::SendFailed,
            )
        },
{
    validate_http_token(host)?;
    validate_http_token(path)?;
    let ghost p1 = "GET "@;
    let ghost p2 = p1 + path@;
    let ghost p3 = p2 + " HTTP/1.1\r\nHost: "@;
    let ghost p4 = p3 + host@;
    let ghost p5 = p4 + "\r\nConnection: close\r\nUser-Agent: blink/0.1\r\n\r\n"@;
    proof {
        lemma_utf8_len_concat(p1, path@);
        lemma_utf8_len_concat(p2, " HTTP/1.1\r\nHost: "@);
        lemma_utf8_len_concat(p3, host@);
        lemma_utf8_len_concat(p4, "\r\nConnection: close\r\nUser-Agent: blink/0.1\r\n\r\n"@);
        assert(p5 == get_request_text(host@, path@));
        assert(Seq::<char>::empty() + p1 =~= p1);
    }
    let mut req = text512_new();
    if text512_push_str(&mut req, "GET ").is_err() {
        return Err(HttpError::SendFailed);
    }
    if text512_push_str(&mut req, path).is_err() {
        return Err(HttpError::SendFailed);
    }
    if text512_push_str(&mut req, " HTTP/1.1\r\nHost: ").is_err() {
        return Err(HttpError::SendFailed);
    }
    if text512_push_str(&mut req, host).is_err() {
        return Err(HttpError::SendFailed);
    }
    if text512_push_str(&mut req, "\r\nConnection: close\r\nUser-Agent: blink/0.1\r\n\r\n").is_err() {
        return Err(HttpError::SendFailed);
    }
    Ok(req)
}

// ---------------------------------------------------------------------------
// Response parsing

/// The bytes `\r\n\r\n` start at `p` in `raw`.
pub open spec fn blank_line_at(raw: Seq<u8>, p: int) -> bool {
    0 <= p && p + 4 <= raw.len() && raw[p] == 13u8 && raw[p + 1] == 10u8 && raw[p + 2] == 13u8
        && raw[p + 3] == 10u8
}

/// Where the headers end: the first `\r\n\r\n`, or the end of `raw`.
#[verifier::opaque]
pub open spec fn header_end(raw: Seq<u8>) -> int {
    if exists|p: int| blank_line_at(raw, p) {
        choose|p: int| blank_line_at(raw, p) && forall|q: int| 0 <= q < p ==> !blank_line_at(raw, q)
    } else {
        raw.len() as int
    }
}

/// The first index at or after `from` where `b` occurs in `s`, or `s.len()`.
pub open spec fn find_byte(s: Seq<u8>, from: int, b: u8) -> int
    decreases s.len() - from,
{
    if from >= s.len() {
        s.len() as int
    } else if s[from] == b {
        from
    } else {
        find_byte(s, from + 1, b)
    }
}

/// The bytes `\r\n` start at `p` in `s`.
pub open spec fn crlf_at(s: Seq<u8>, p: int) -> bool {
    0 <= p && p + 1 < s.len() && s[p] == 13u8 && s[p + 1] == 10u8
}

/// The first index where `\r\n` starts in `s`, or `s.len()`.
#[verifier::opaque]
pub open spec fn line_end(s: Seq<u8>) -> int {
    if exists|p: int| crlf_at(s, p) {
        choose|p: int| crlf_at(s, p) && forall|q: int| 0 <= q < p ==> !crlf_at(s, q)
    } else {
        s.len() as int
    }
}

pub open spec fn is_digit(b: u8) -> bool {
    48u8 <= b <= 57u8
}

/// The value of a string of decimal digits.
pub open spec fn decimal_value(d: Seq<u8>) -> nat
    decreases d.len(),
{
    if d.len() == 0 {
        0
    } else {
        decimal_value(d.drop_last()) * 10 + (d.last() - 48u8) as nat
    }
}

/// The digits of an unsigned decimal: `s` without a leading `+`.
pub open spec fn unsigned_digits(s: Seq<u8>) -> Seq<u8> {
    if s.len() > 1 && s[0] == 43u8 {
        s.skip(1)
    } else {
        s
    }
}

/// What `str::parse::<u16>` gives for the bytes `s`: an optional `+` followed
/// by one or more decimal digits whose value is at most 65535.
pub open spec fn parse_u16_spec(s: Seq<u8>) -> Option<u16> {
    let d = unsigned_digits(s);
    if d.len() > 0 && (forall|i: int| 0 <= i < d.len() ==> is_digit(d[i])) && decimal_value(d)
        <= 65535 {
        Some(decimal_value(d) as u16)
    } else {
        None
    }
}

pub open spec fn http_1_1() -> Seq<u8> {
    seq![72u8, 84u8, 84u8, 80u8, 47u8, 49u8, 46u8, 49u8]
}

pub open spec fn http_1_0() -> Seq<u8> {
    seq![72u8, 84u8, 84u8, 80u8, 47u8, 49u8, 46u8, 48u8]
}

/// The status code of the response in `raw`, or `None` when its status line
/// is not `HTTP/1.1 <code>` or `HTTP/1.0 <code>` (the code ended by a space
/// or the end of the line) or its headers are not UTF-8.
pub open spec fn response_status(raw: Seq<u8>) -> Option<u16> {
    let header = raw.take(header_end(raw));
    let status = header.take(line_end(header));
    let sp1 = find_byte(status, 0, 32u8);
    let version = status.take(sp1);
    let sp2 = find_byte(status, sp1 + 1, 32u8);
    if !valid_utf8(header) {
        None
    } else if version != http_1_1() && version != http_1_0() {
        None
    } else if sp1 >= status.len() {
        None
    } else {
        parse_u16_spec(status.subrange(sp1 + 1, sp2))
    }
}

/// The body of the response in `raw`: what follows the first `\r\n\r\n`.
pub open spec fn response_body(raw: Seq<u8>) -> Seq<u8> {
    let h = header_end(raw);
    if h < raw.len() {
        raw.skip(h + 4)
    } else {
        Seq::empty()
    }
}

proof fn lemma_find_byte_at(s: Seq<u8>, from: int, b: u8, k: int)
    requires
        0 <= from <= k < s.len(),
        s[k] == b,
        forall|i: int| from <= i < k ==> s[i] != b,
    ensures
        find_byte(s, from, b) == k,
    decreases k - from,
{
    if from < k {
        lemma_find_byte_at(s, from + 1, b, k);
    }
}

proof fn lemma_find_byte_none(s: Seq<u8>, from: int, b: u8)
    requires
        0 <= from,
        forall|i: int| from <= i < s.len() ==> s[i] != b,
    ensures
        find_byte(s, from, b) == s.len(),
    decreases s.len() - from,
{
    if from < s.len() {
        lemma_find_byte_none(s, from + 1, b);
    }
}

/// The status code is read from the status line alone: a UTF-8 response
/// whose first line is `HTTP/1.1 <code>` or `HTTP/1.0 <code>`, the code
/// ending the line, has that code, whatever header lines and body follow.
#[verifier::rlimit(30)]
pub proof fn law_status_from_status_line(version: Seq<u8>, digits: Seq<u8>, rest: Seq<u8>)
    requires
        version == http_1_1() || version == http_1_0(),
        digits.len() > 0,
        forall|i: int| 0 <= i < digits.len() ==> is_digit(#[trigger] digits[i]),
        decimal_value(digits) <= 65535,
        valid_utf8(version + seq![32u8] + digits + seq![13u8, 10u8] + rest),
    ensures
        response_status(version + seq![32u8] + digits + seq![13u8, 10u8] + rest) == Some(
            decimal_value(digits) as u16,
        ),
{
    let raw = version + seq![32u8] + digits + seq![13u8, 10u8] + rest;
    let p: int = 9 + digits.len() as int;
    assert(raw[p] == 13u8 && raw[p + 1] == 10u8);
    assert forall|i: int| 0 <= i < p implies raw[i] != 13u8 && raw[i] != 32u8 || i == 8 by {
        if 9 <= i {
            assert(raw[i] == digits[i - 9]);
            assert(is_digit(digits[i - 9]));
        }
    }
    assert(raw[8] == 32u8);
    // The headers end at the first blank line, which cannot start before `p`.
    let h = header_end(raw);
    assert(p <= h <= raw.len() && (h < raw.len() ==> raw[h] == 13u8)) by {
        reveal(header_end);
        if exists|q: int| blank_line_at(raw, q) {
            let w = choose|q: int| blank_line_at(raw, q);
            lemma_least_blank_line(raw, w);
            let c = choose|q: int|
                blank_line_at(raw, q) && forall|r: int| 0 <= r < q ==> !blank_line_at(raw, r);
            assert(blank_line_at(raw, c));
            if c < p {
                assert(raw[c] == 13u8);
            }
        }
    }
    assert(h != p + 1) by {
        if h == p + 1 {
            reveal(header_end);
        }
    }
    let header = raw.take(h);
    // The headers are UTF-8: they end on a character boundary.
    assert(valid_utf8(header)) by {
        if h < raw.len() {
            is_char_boundary_iff_not_is_continuation_byte(raw, h);
            valid_utf8_split(raw, h);
            assert(raw.subrange(0, h) =~= header);
        } else {
            assert(header =~= raw);
        }
    }
    // The status line ends at `p`.
    assert(line_end(header) == p) by {
        reveal(line_end);
        if h >= p + 2 {
            assert(crlf_at(header, p));
            lemma_least_crlf(header, p);
            let c = choose|q: int| crlf_at(header, q) && forall|r: int| 0 <= r < q ==> !crlf_at(header, r);
            assert(crlf_at(header, c));
            if c < p {
                assert(header[c] == raw[c]);
            }
        } else {
            assert(h == p);
            assert forall|q: int| !crlf_at(header, q) by {
                if crlf_at(header, q) {
                    assert(header[q] == raw[q]);
                }
            }
        }
    }
    let status = header.take(p);
    assert(status =~= version + seq![32u8] + digits);
    lemma_find_byte_at(status, 0, 32u8, 8);
    assert(status.take(8) =~= version);
    assert forall|i: int| 9 <= i < status.len() implies status[i] != 32u8 by {
        assert(status[i] == digits[i - 9]);
        assert(is_digit(digits[i - 9]));
    }
    lemma_find_byte_none(status, 9, 32u8);
    assert(status.subrange(9, p) =~= digits);
    assert(unsigned_digits(digits) == digits) by {
        assert(is_digit(digits[0]));
    }
}

proof fn lemma_least_blank_line(raw: Seq<u8>, w: int)
    requires
        blank_line_at(raw, w),
    ensures
        exists|q: int| blank_line_at(raw, q) && forall|r: int| 0 <= r < q ==> !blank_line_at(raw, r),
    decreases w,
{
    if exists|r: int| 0 <= r < w && blank_line_at(raw, r) {
        let r = choose|r: int| 0 <= r < w && blank_line_at(raw, r);
        lemma_least_blank_line(raw, r);
    }
}

proof fn lemma_least_crlf(s: Seq<u8>, w: int)
    requires
        crlf_at(s, w),
    ensures
        exists|q: int| crlf_at(s, q) && forall|r: int| 0 <= r < q ==> !crlf_at(s, r),
    decreases w,
{
    if exists|r: int| 0 <= r < w && crlf_at(s, r) {
        let r = choose|r: int| 0 <= r < w && crlf_at(s, r);
        lemma_least_crlf(s, r);
    }
}

/// `core::str::from_utf8(b).ok()`: the text that the bytes `b` encode, when
/// they are well-formed UTF-8.
#[verifier::external_body]
pub(crate) fn str_from_utf8(b: &[u8]) -> (r: Option<&str>)
    ensures
        r is Some <==> valid_utf8(b@),
        r matches Some(s) ==> s@ == decode_utf8(b@),
{
    core::str::from_utf8(b).ok()
}

fn find_blank_line(raw: &[u8]) -> (p: usize)
    ensures
        p == header_end(raw@),
        p <= raw@.len(),
        p < raw@.len() ==> blank_line_at(raw@, p as int),
{
    reveal(header_end);
    let n = raw.len();
    let mut i: usize = 0;
    while i < n && n - i >= 4
        invariant
            n == raw@.len(),
            i <= n,
            forall|q: int| 0 <= q < i ==> !blank_line_at(raw@, q),
        decreases n - i,
    {
        if raw[i] == 13u8 && raw[i + 1] == 10u8 && raw[i + 2] == 13u8 && raw[i + 3] == 10u8 {
            assert(blank_line_at(raw@, i as int) && forall|q: int|
                0 <= q < i ==> !blank_line_at(raw@, q));
            let ghost c = choose|p: int|
                blank_line_at(raw@, p) && forall|q: int| 0 <= q < p ==> !blank_line_at(raw@, q);
            assert(blank_line_at(raw@, c) && forall|q: int|
                0 <= q < c ==> !blank_line_at(raw@, q));
            assert(c == i as int);
            reveal(header_end);
            return i;
        }
        i = i + 1;
    }
    assert forall|p: int| !blank_line_at(raw@, p) by {
        if blank_line_at(raw@, p) {
            assert(p < i);
        }
    }
    n
}

fn find_line_end(s: &[u8], len: usize) -> (p: usize)
    requires
        len <= s@.len(),
    ensures
        p == line_end(s@.take(len as int)),
        p <= len,
{
    reveal(line_end);
    let ghost h = s@.take(len as int);
    let mut i: usize = 0;
    while i < len && len - i > 1
        invariant
            len <= s@.len(),
            i <= len,
            h == s@.take(len as int),
            forall|q: int| 0 <= q < i ==> !crlf_at(h, q),
        decreases len - i,
    {
        if s[i] == 13u8 && s[i + 1] == 10u8 {
            assert(crlf_at(h, i as int) && forall|q: int| 0 <= q < i ==> !crlf_at(h, q));
            let ghost c = choose|p: int| crlf_at(h, p) && forall|q: int| 0 <= q < p ==> !crlf_at(h, q);
            assert(crlf_at(h, c) && forall|q: int| 0 <= q < c ==> !crlf_at(h, q));
            assert(c == i as int);
            reveal(line_end);
            return i;
        }
        i = i + 1;
    }
    assert forall|p: int| !crlf_at(h, p) by {
        if crlf_at(h, p) {
            assert(p < i);
        }
    }
    len
}

fn find_space(s: &[u8], from: usize, len: usize) -> (p: usize)
    requires
        len <= s@.len(),
        from <= len,
    ensures
        p == find_byte(s@.take(len as int), from as int, 32u8),
        from <= p <= len,
    decreases len - from,
{
    if from >= len {
        from
    } else if s[from] == 32u8 {
        from
    } else {
        find_space(s, from + 1, len)
    }
}

proof fn lemma_decimal_value_push(d: Seq<u8>, b: u8)
    ensures
        decimal_value(d.push(b)) == decimal_value(d) * 10 + (b - 48u8) as nat,
{
    assert(d.push(b).drop_last() =~= d);
}

/// `str::parse::<u16>` on the bytes `s[start..end]`.
fn parse_u16_bytes(s: &[u8], start: usize, end: usize) -> (r: Option<u16>)
    requires
        start <= end <= s@.len(),
    ensures
        r == parse_u16_spec(s@.subrange(start as int, end as int)),
{
    let ghost t = s@.subrange(start as int, end as int);
    let mut i = start;
    if end - start > 1 && s[start] == 43u8 {
        i = start + 1;
    }
    let ghost d = s@.subrange(i as int, end as int);
    assert(d =~= unsigned_digits(t));
    if i == end {
        return None;
    }
    let mut v: u32 = 0;
    let mut k = i;
    while k < end
        invariant
            i <= k <= end <= s@.len(),
            d == s@.subrange(i as int, end as int),
            t == s@.subrange(start as int, end as int),
            d == unsigned_digits(t),
            forall|j: int| i <= j < k ==> is_digit(s@[j]),
            v == decimal_value(s@.subrange(i as int, k as int)),
            v <= 65535,
        decreases end - k,
    {
        let b = s[k];
        if !(48u8 <= b && b <= 57u8) {
            assert(d[k - i] == b);
            assert(!is_digit(d[k - i]));
            assert(!(forall|j: int| 0 <= j < d.len() ==> is_digit(d[j])));
            proof {
                lemma_parse_u16_non_digit(t, d, (k - i) as int);
            }
            return None;
        }
        proof {
            assert(s@.subrange(i as int, k + 1) =~= s@.subrange(i as int, k as int).push(b));
            lemma_decimal_value_push(s@.subrange(i as int, k as int), b);
        }
        let nv = v * 10 + (b - 48u8) as u32;
        if nv > 65535 {
            proof {
                if forall|j: int| 0 <= j < d.len() ==> is_digit(d[j]) {
                    lemma_decimal_value_prefix_le(d, (k + 1 - i) as int);
                    assert(d.take((k + 1 - i) as int) =~= s@.subrange(i as int, k + 1));
                }
            }
            return None;
        }
        v = nv;
        k = k + 1;
    }
    assert(s@.subrange(i as int, end as int) =~= d);
    assert forall|j: int| 0 <= j < d.len() implies is_digit(d[j]) by {
        assert(d[j] == s@[i + j]);
    }
    Some(v as u16)
}

proof fn lemma_parse_u16_non_digit(t: Seq<u8>, d: Seq<u8>, j: int)
    requires
        d == unsigned_digits(t),
        0 <= j < d.len(),
        !is_digit(d[j]),
    ensures
        parse_u16_spec(t) is None,
{
}

/// A prefix of a digit string never has a larger value than the whole string.
proof fn lemma_decimal_value_prefix_le(d: Seq<u8>, k: int)
    requires
        0 <= k <= d.len(),
        forall|j: int| 0 <= j < d.len() ==> is_digit(d[j]),
    ensures
        decimal_value(d.take(k)) <= decimal_value(d),
    decreases d.len() - k,
{
    if k < d.len() {
        lemma_decimal_value_prefix_le(d, k + 1);
        let p = d.take(k);
        assert(d.take(k + 1) =~= p.push(d[k]));
        lemma_decimal_value_push(p, d[k]);
    } else {
        assert(d.take(k) =~= d);
    }
}

/// The status code of `raw`, given where its headers end.
fn parse_status(raw: &[u8], h: usize) -> (r: Option<u16>)
    requires
        h == header_end(raw@),
        h <= raw@.len(),
    ensures
        r == response_status(raw@),
{
    let ghost raw_s = raw@;
    let ghost header = raw_s.take(h as int);
    let header_bytes = vstd::slice::slice_subrange(raw, 0, h);
    if str_from_utf8(header_bytes).is_none() {
        return None;
    }
    let status_end = find_line_end(raw, h);
    proof {
        assert(header.take(status_end as int) =~= raw_s.take(status_end as int));
    }
    let sp1 = find_space(raw, 0, status_end);
    let ghost status = raw_s.take(status_end as int);
    // The version is the status line up to its first space.
    let is_11 = sp1 == 8 && raw[0] == 72u8 && raw[1] == 84u8 && raw[2] == 84u8 && raw[3] == 80u8
        && raw[4] == 47u8 && raw[5] == 49u8 && raw[6] == 46u8 && raw[7] == 49u8;
    let is_10 = sp1 == 8 && raw[0] == 72u8 && raw[1] == 84u8 && raw[2] == 84u8 && raw[3] == 80u8
        && raw[4] == 47u8 && raw[5] == 49u8 && raw[6] == 46u8 && raw[7] == 48u8;
    proof {
        let version = status.take(sp1 as int);
        if sp1 == 8 {
            assert(is_11 <==> version =~= http_1_1());
            assert(is_10 <==> version =~= http_1_0());
        } else {
            assert(version.len() != http_1_1().len());
        }
    }
    if !is_11 && !is_10 {
        return None;
    }
    if sp1 >= status_end {
        return None;
    }
    let sp2 = find_space(raw, sp1 + 1, status_end);
    proof {
        assert(status.subrange(sp1 + 1, sp2 as int) =~= raw_s.subrange(sp1 + 1, sp2 as int));
    }
    parse_u16_bytes(raw, sp1 + 1, sp2)
}

/// Copies `src[start..start + n]` over the start of `dst`.
fn copy_into(src: &[u8], start: usize, n: usize, dst: &mut [u8])
    requires
        start + n <= src@.len(),
        n <= old(dst)@.len(),
    ensures
        final(dst)@ == src@.subrange(start as int, start + n) + old(dst)@.skip(n as int),
{
    let mut i: usize = 0;
    while i < n
        invariant
            start + n <= src.len(),
            n <= old(dst)@.len(),
            dst@.len() == old(dst)@.len(),
            i <= n,
            forall|j: int| 0 <= j < i ==> dst@[j] == src@[start + j],
            forall|j: int| i <= j < dst@.len() ==> dst@[j] == old(dst)@[j],
        decreases n - i,
    {
        assert(start + i < src@.len());
        let b = src[start + i];
        dst[i] = b;
        i = i + 1;
    }
    assert(dst@ =~= src@.subrange(start as int, start + n) + old(dst)@.skip(n as int));
}

/// Parse an HTTP/1.1 response from raw bytes.
///
/// Extracts the status code and copies the start of everything after the
/// headers into `body_buf`, as much as fits; the rest of `body_buf` is left
/// as it was. On error `body_buf` is not touched.
pub fn parse_http_response(raw: &[u8], body_buf: &mut [u8]) -> (r: Result<
    HttpResponse,
    HttpError,
>)
    ensures
        r is Ok <==> response_status(raw@) is Some,
        r is Err ==> r->Err_0 == HttpError::ParseError && final(body_buf)@ == old(body_buf)@,
        r is Ok ==> {
            let body = response_body(raw@);
            let n = if body.len() < old(body_buf)@.len() {
                body.len()
            } else {
                old(body_buf)@.len()
            };
            &&& r->Ok_0.status_code == response_status(raw@)->Some_0
            &&& r->Ok_0.body_len == n
            &&& final(body_buf)@ == body.take(n as int) + old(body_buf)@.skip(n as int)
        },
{
    let h = find_blank_line(raw);
    let status_code = match parse_status(raw, h) {
        Some(c) => c,
        None => {
            return Err(HttpError::ParseError);
        },
    };
    let body_start = if h < raw.len() {
        h + 4
    } else {
        raw.len()
    };
    proof {
        if h < raw@.len() {
            assert(blank_line_at(raw@, h as int));
        }
    }
    let body_len = raw.len() - body_start;
    let copy_len = if body_len < body_buf.len() {
        body_len
    } else {
        body_buf.len()
    };
    let ghost body = response_body(raw@);
    proof {
        assert(body =~= raw@.subrange(body_start as int, raw@.len() as int));
        assert(body.take(copy_len as int) =~= raw@.subrange(
            body_start as int,
            body_start + copy_len,
        ));
    }
    copy_into(raw, body_start, copy_len, body_buf);
    Ok(HttpResponse { status_code, body_len: copy_len })
}

// ---------------------------------------------------------------------------
// Receiving

/// What one read from the connection gave.
#[derive(Debug, Clone, Copy, PartialEq, Eq, Structural)]
pub enum ReadOutcome {
    /// This many bytes were read (0 means the peer closed the connection).
    Data(usize),
    /// The read failed.
    Failed,
}

/// What to do after a read.
#[derive(Debug, Clone, Copy, PartialEq, Eq, Structural)]
pub enum RecvStep {
    /// Read again; this many bytes are held now.
    Continue(usize),
    /// Stop reading and parse what is held.
    Finished,
    /// Give up with this error.
    Abort(HttpError),
}

/// The read loop of a request: reads go on until the buffer of `cap` bytes
/// is full, the server closes the connection, or a read fails. A failed read
/// ends the loop normally when some data already arrived, and fails the
/// request otherwise.
pub fn recv_step(total: usize, cap: usize, outcome: ReadOutcome) -> (s: RecvStep)
    requires
        total < cap,
        outcome matches ReadOutcome::Data(n) ==> n <= cap - total,
    ensures
        outcome == ReadOutcome::Data(0) ==> s == RecvStep::Finished,
        outcome is Data && outcome->Data_0 > 0 ==> s == RecvStep::Continue(
            (total + outcome->Data_0) as usize,
        ),
        outcome == ReadOutcome::Failed && total > 0 ==> s == RecvStep::Finished,
        outcome == ReadOutcome::Failed && total == 0 ==> s == RecvStep::Abort(
            HttpError::RecvFailed,
        ),
        s matches RecvStep::Continue(t) ==> total < t <= cap,
{
    match outcome {
        ReadOutcome::Data(0) => RecvStep::Finished,  // EOF: server closed connection
        ReadOutcome::Data(n) => RecvStep::Continue(total + n),
        ReadOutcome::Failed => {
            // If we already have some data, try to parse it
            if total > 0 {
                RecvStep::Finished
            } else {
                RecvStep::Abort(HttpError::RecvFailed)
            }
        },
    }
}

/// The response in the first `total` bytes received: `RecvFailed` when
/// nothing arrived, and otherwise what [`parse_http_response`] makes of them.
pub fn finish_response(raw: &[u8], total: usize, resp_body: &mut [u8]) -> (r: Result<
    HttpResponse,
    HttpError,
>)
    requires
        total <= raw@.len(),
    ensures
        total == 0 ==> r == Err::<HttpResponse, HttpError>(HttpError::RecvFailed)
            && final(resp_body)@ == old(resp_body)@,
        total > 0 ==> {
            let got = raw@.take(total as int);
            let body = response_body(got);
            let n = if body.len() < old(resp_body)@.len() {
                body.len()
            } else {
                old(resp_body)@.len()
            };
            &&& r is Ok <==> response_status(got) is Some
            &&& r is Err ==> r->Err_0 == HttpError::ParseError && final(resp_body)@ == old(
                resp_body,
            )@
            &&& r is Ok ==> r->Ok_0.status_code == response_status(got)->Some_0
                && r->Ok_0.body_len == n && final(resp_body)@ == body.take(n as int) + old(
                resp_body,
            )@.skip(n as int)
        },
{
    if total == 0 {
        return Err(HttpError::RecvFailed);
    }
    let got = vstd::slice::slice_subrange(raw, 0, total);
    assert(got@ =~= raw@.take(total as int));
    parse_http_response(got, resp_body)
}

/// A blocking HTTPS client. Without a network stack it cannot connect: the
/// connection itself is made by the board's network code (see
/// [`recv_step`] and [`finish_response`] for what it decides).
pub struct HttpClient;

impl HttpClient {
    pub fn new() -> (c: Self) {
        Self
    }

    /// Perform an HTTPS GET request; with no network stack this always
    /// fails with `ConnectionFailed` and leaves `resp_body` as it was.
    pub fn get_https(&mut self, resp_body: &mut [u8], host: &str, path: &str) -> (r: Result<
        HttpResponse,
        HttpError,
    >)
        ensures
            r == Err::<HttpResponse, HttpError>(HttpError::ConnectionFailed),
            final(resp_body)@ == old(resp_body)@,
    {
        Err(HttpError::ConnectionFailed)
    }
}

impl Default for HttpClient {
    fn default() -> (c: Self) {
        Self::new()
    }
}

} // verus!
