//! Asset price module for blink.
//!
//! Supports BTC, CKB, and Gold (via PAXGUSDT proxy on Binance) for a basic
//! price-display mode. The module builds Binance API paths and finds the
//! `"price"` field of the standard ticker response.
use vstd::prelude::*;
use vstd::string::*;
use vstd::utf8::{decode_utf8, valid_utf8};

use crate::bounded::{text64, text64_new, text64_push_str};
use crate::http::{str_from_utf8, HttpError, HttpResponse};
use crate::text::{chars_of, is_space, is_space_exec, lemma_utf8_len_ascii, lemma_utf8_len_concat, utf8_len};

verus! {

/// Assets shown on the price display mode.
#[derive(Debug, Clone, Copy, PartialEq, Eq, Structural)]
pub enum Asset {
    Btc,
    Ckb,
    Gold,
}

/// The Binance trading symbol of an asset.
pub open spec fn symbol_of(a: Asset) -> Seq<char> {
    match a {
        Asset::Btc => "BTCUSDT"@,
        Asset::Ckb => "CKBUSDT"@,
        Asset::Gold => "PAXGUSDT"@,
    }
}

/// The label of an asset on the display.
pub open spec fn name_of(a: Asset) -> Seq<char> {
    match a {
        Asset::Btc => "BTC"@,
        Asset::Ckb => "CKB"@,
        Asset::Gold => "GOLD"@,
    }
}

/// Position of an asset in [`ALL_ASSETS`].
pub open spec fn index_of(a: Asset) -> usize {
    match a {
        Asset::Btc => 0,
        Asset::Ckb => 1,
        Asset::Gold => 2,
    }
}

impl Asset {
    /// Position of this asset in [`ALL_ASSETS`].
    pub fn index(&self) -> (i: usize)
        ensures
            i == index_of(*self),
            ALL_ASSETS@[i as int] == *self,
    {
        match self {
            Asset::Btc => 0,
            Asset::Ckb => 1,
            Asset::Gold => 2,
        }
    }

    /// Binance trading symbol used for the price endpoint.
    pub fn binance_symbol(&self) -> (s: &'static str)
        ensures
            s@ == symbol_of(*self),
    {
        match self {
            Asset::Btc => "BTCUSDT",
            Asset::Ckb => "CKBUSDT",
            Asset::Gold => "PAXGUSDT",
        }
    }

    /// Human-readable label shown on the OLED.
    pub fn display_name(&self) -> (s: &'static str)
        ensures
            s@ == name_of(*self),
    {
        match self {
            Asset::Btc => "BTC",
            Asset::Ckb => "CKB",
            Asset::Gold => "GOLD",
        }
    }
}

/// All assets cycled by the price mode, in order.
pub const ALL_ASSETS: [Asset; 3] = [Asset::Btc, Asset::Ckb, Asset::Gold];

/// Errors that can occur when fetching a real price from Binance.
#[derive(Debug, Clone, Copy, PartialEq, Eq, Structural)]
pub enum FetchError {
    Http(HttpError),
    BadStatus(u16),
    ParseError,
}

/// The request path of the Binance ticker endpoint for `symbol`.
pub open spec fn price_path(symbol: Seq<char>) -> Seq<char> {
    "/api/v3/ticker/price?symbol="@ + symbol
}

/// Build the Binance `/api/v3/ticker/price` request path for a symbol.
///
/// The path must fit in 64 bytes: the fixed prefix takes 28, so the symbol
/// may take at most 36.
pub fn binance_price_path(symbol: &str) -> (p: heapless::String<64>)
    requires
        utf8_len(symbol@) <= 36,
    ensures
        text64(p) == price_path(symbol@),
{
    let prefix = "/api/v3/ticker/price?symbol=";
    proof {
        reveal_strlit("/api/v3/ticker/price?symbol=");
        lemma_utf8_len_ascii(prefix@);
        lemma_utf8_len_concat(Seq::<char>::empty(), prefix@);
        assert(Seq::<char>::empty() + prefix@ =~= prefix@);
    }
    let mut s = text64_new();
    let _ = text64_push_str(&mut s, prefix);
    let _ = text64_push_str(&mut s, symbol);
    s
}

// ---------------------------------------------------------------------------
// The ticker response: a small JSON object walker over the characters of the
// body. Positions are character indices; each function starts by skipping
// whitespace, as `str::trim_start` does.

/// The first position at or after `i` that does not hold whitespace.
pub open spec fn skip_ws(s: Seq<char>, i: int) -> int
    decreases s.len() - i,
{
    if i < 0 || i >= s.len() || !is_space(s[i]) {
        i
    } else {
        skip_ws(s, i + 1)
    }
}

/// The position of the quote that closes a string whose contents start at
/// `k`; a backslash escapes the character after it.
pub open spec fn string_close(s: Seq<char>, k: int) -> Option<int>
    decreases s.len() - k,
{
    if k < 0 || k >= s.len() {
        None
    } else if s[k] == '\\' {
        if k + 2 > s.len() {
            None
        } else {
            string_close(s, k + 2)
        }
    } else if s[k] == '"' {
        Some(k)
    } else {
        string_close(s, k + 1)
    }
}

/// The string that starts at the first non-whitespace position at or after
/// `i`: the positions where its contents start and where its closing quote
/// stands. What follows the string starts one past the closing quote.
pub open spec fn json_string(s: Seq<char>, i: int) -> Option<(int, int)> {
    let j = skip_ws(s, i);
    if 0 <= j < s.len() && s[j] == '"' {
        match string_close(s, j + 1) {
            Some(e) => Some((j + 1, e)),
            None => None,
        }
    } else {
        None
    }
}

/// `s` holds the characters of `lit` from position `j` on.
pub open spec fn has_at(s: Seq<char>, j: int, lit: Seq<char>) -> bool {
    0 <= j && j + lit.len() <= s.len() && s.subrange(j, j + lit.len()) == lit
}

pub open spec fn is_delim(c: char) -> bool {
    c == ',' || c == '}' || c == ']'
}

/// The first position at or after `j` that holds `,`, `}` or `]`, or the end.
pub open spec fn find_delim(s: Seq<char>, j: int) -> int
    decreases s.len() - j,
{
    if j < 0 || j >= s.len() || is_delim(s[j]) {
        j
    } else {
        find_delim(s, j + 1)
    }
}

/// Where the JSON value that starts at the first non-whitespace position at
/// or after `i` ends: a string, an object, an array, `true`, `false`, `null`,
/// or a number (anything up to the next `,`, `}` or `]`).
pub open spec fn value_end(s: Seq<char>, i: int) -> Option<int>
    decreases s.len() - i, 0int,
{
    let j = skip_ws(s, i);
    if i < 0 || j < i || j >= s.len() {
        None
    } else if s[j] == '"' {
        match json_string(s, j) {
            Some((a, e)) => Some(e + 1),
            None => None,
        }
    } else if s[j] == '{' {
        members_end(s, j + 1)
    } else if s[j] == '[' {
        elements_end(s, j + 1)
    } else if s[j] == 't' {
        if has_at(s, j, "true"@) {
            Some(j + 4)
        } else {
            None
        }
    } else if s[j] == 'f' {
        if has_at(s, j, "false"@) {
            Some(j + 5)
        } else {
            None
        }
    } else if s[j] == 'n' {
        if has_at(s, j, "null"@) {
            Some(j + 4)
        } else {
            None
        }
    } else {
        let e = find_delim(s, j);
        if e == j {
            None
        } else {
            Some(e)
        }
    }
}

/// Where an object ends whose members start at `p` (just after its `{`).
pub open spec fn members_end(s: Seq<char>, p: int) -> Option<int>
    decreases s.len() - p, 1int,
{
    let q = skip_ws(s, p);
    if p < 0 || q < p || q > s.len() {
        None
    } else if q < s.len() && s[q] == '}' {
        Some(q + 1)
    } else {
        match json_string(s, q) {
            None => None,
            Some((a, e)) => {
                proof {
                    lemma_json_string(s, q);
                }
                let r = skip_ws(s, e + 1);
                if !(e + 1 <= r < s.len() && s[r] == ':') {
                    None
                } else {
                    match value_end(s, r + 1) {
                        None => None,
                        Some(v) => {
                            let w = skip_ws(s, v);
                            if p < w < s.len() && s[w] == ',' {
                                members_end(s, w + 1)
                            } else if w < s.len() && s[w] == '}' {
                                Some(w + 1)
                            } else {
                                None
                            }
                        },
                    }
                }
            },
        }
    }
}

/// Where an array ends whose elements start at `p` (just after its `[`).
pub open spec fn elements_end(s: Seq<char>, p: int) -> Option<int>
    decreases s.len() - p, 1int,
{
    let q = skip_ws(s, p);
    if p < 0 || q < p || q > s.len() {
        None
    } else if q < s.len() && s[q] == ']' {
        Some(q + 1)
    } else {
        match value_end(s, q) {
            None => None,
            Some(v) => {
                let w = skip_ws(s, v);
                if p < w < s.len() && s[w] == ',' {
                    elements_end(s, w + 1)
                } else if w < s.len() && s[w] == ']' {
                    Some(w + 1)
                } else {
                    None
                }
            },
        }
    }
}

/// The contents of the `"price"` string among the members of the top-level
/// object that start at `p`: their start and end positions.
pub open spec fn price_in_members(s: Seq<char>, p: int) -> Option<(int, int)>
    decreases s.len() - p,
{
    let q = skip_ws(s, p);
    if p < 0 || q < p || q >= s.len() || s[q] == '}' {
        None
    } else {
        match json_string(s, q) {
            None => None,
            Some((a, e)) => {
                let r = skip_ws(s, e + 1);
                if !(e + 1 <= r < s.len() && s[r] == ':') {
                    None
                } else if s.subrange(a, e) == "price"@ {
                    json_string(s, r + 1)
                } else {
                    match value_end(s, r + 1) {
                        None => None,
                        Some(v) => {
                            let w = skip_ws(s, v);
                            if p < w < s.len() && s[w] == ',' {
                                price_in_members(s, w + 1)
                            } else {
                                None
                            }
                        },
                    }
                }
            },
        }
    }
}

/// The contents of the `"price"` string field of the JSON object in `s`:
/// their start and end positions. `None` when `s` is not an object (after
/// leading whitespace), when a member before `"price"` is malformed, or when
/// the object has no such member.
pub open spec fn price_field_spec(s: Seq<char>) -> Option<(int, int)> {
    let j = skip_ws(s, 0);
    if j < s.len() && s[j] == '{' {
        price_in_members(s, j + 1)
    } else {
        None
    }
}

proof fn lemma_skip_ws(s: Seq<char>, i: int)
    requires
        0 <= i <= s.len(),
    ensures
        i <= skip_ws(s, i) <= s.len(),
        skip_ws(s, i) < s.len() ==> !is_space(s[skip_ws(s, i)]),
    decreases s.len() - i,
{
    if i < s.len() && is_space(s[i]) {
        lemma_skip_ws(s, i + 1);
    }
}

proof fn lemma_string_close(s: Seq<char>, k: int)
    ensures
        string_close(s, k) matches Some(e) ==> 0 <= k <= e < s.len() && s[e] == '"',
    decreases s.len() - k,
{
    if 0 <= k < s.len() {
        if s[k] == '\\' {
            if k + 2 <= s.len() {
                lemma_string_close(s, k + 2);
            }
        } else if s[k] != '"' {
            lemma_string_close(s, k + 1);
        }
    }
}

pub proof fn lemma_json_string(s: Seq<char>, i: int)
    requires
        0 <= i <= s.len(),
    ensures
        json_string(s, i) matches Some((a, e)) ==> i < a <= e < s.len(),
{
    lemma_skip_ws(s, i);
    let j = skip_ws(s, i);
    lemma_string_close(s, j + 1);
}

proof fn lemma_find_delim(s: Seq<char>, j: int)
    requires
        0 <= j <= s.len(),
    ensures
        j <= find_delim(s, j) <= s.len(),
    decreases s.len() - j,
{
    if j < s.len() && !is_delim(s[j]) {
        lemma_find_delim(s, j + 1);
    }
}

/// A value, once found, ends past where the search for it started.
proof fn lemma_value_end(s: Seq<char>, i: int)
    requires
        0 <= i <= s.len(),
    ensures
        value_end(s, i) matches Some(v) ==> i < v <= s.len(),
    decreases s.len() - i, 0int,
{
    lemma_skip_ws(s, i);
    reveal_strlit("true");
    reveal_strlit("false");
    reveal_strlit("null");
    let j = skip_ws(s, i);
    if j < s.len() {
        if s[j] == '"' {
            lemma_json_string(s, j);
        } else if s[j] == '{' {
            lemma_members_end(s, j + 1);
        } else if s[j] == '[' {
            lemma_elements_end(s, j + 1);
        } else {
            lemma_find_delim(s, j);
        }
    }
}

proof fn lemma_members_end(s: Seq<char>, p: int)
    requires
        0 <= p <= s.len(),
    ensures
        members_end(s, p) matches Some(v) ==> p < v <= s.len(),
    decreases s.len() - p, 1int,
{
    lemma_skip_ws(s, p);
    let q = skip_ws(s, p);
    if !(q < s.len() && s[q] == '}') {
        lemma_json_string(s, q);
        if let Some((a, e)) = json_string(s, q) {
            lemma_skip_ws(s, e + 1);
            let r = skip_ws(s, e + 1);
            if e + 1 <= r < s.len() && s[r] == ':' {
                lemma_value_end(s, r + 1);
                if let Some(v) = value_end(s, r + 1) {
                    lemma_skip_ws(s, v);
                    let w = skip_ws(s, v);
                    if p < w < s.len() && s[w] == ',' {
                        lemma_members_end(s, w + 1);
                    }
                }
            }
        }
    }
}

proof fn lemma_elements_end(s: Seq<char>, p: int)
    requires
        0 <= p <= s.len(),
    ensures
        elements_end(s, p) matches Some(v) ==> p < v <= s.len(),
    decreases s.len() - p, 1int,
{
    lemma_skip_ws(s, p);
    let q = skip_ws(s, p);
    if !(q < s.len() && s[q] == ']') {
        lemma_value_end(s, q);
        if let Some(v) = value_end(s, q) {
            lemma_skip_ws(s, v);
            let w = skip_ws(s, v);
            if p < w < s.len() && s[w] == ',' {
                lemma_elements_end(s, w + 1);
            }
        }
    }
}

/// Position `k` starts a member key that is exactly `price` (its opening
/// quote before `k`, its closing quote five characters on), and the string
/// whose contents start at `a` is that member's value: after the key come
/// whitespace, a colon, whitespace and the value's opening quote.
pub open spec fn price_key_before(s: Seq<char>, k: int, a: int) -> bool {
    let colon = skip_ws(s, k + 6);
    &&& 1 <= k
    &&& k + 6 <= a
    &&& a <= s.len()
    &&& s[k - 1] == '"'
    &&& s.subrange(k, k + 5) == "price"@
    &&& s[k + 5] == '"'
    &&& colon < s.len()
    &&& s[colon] == ':'
    &&& skip_ws(s, colon + 1) == a - 1
    &&& s[a - 1] == '"'
}

proof fn lemma_price_in_members_key(s: Seq<char>, p: int)
    requires
        0 <= p <= s.len(),
    ensures
        price_in_members(s, p) matches Some((a, e)) ==> (exists|k: int| #[trigger]
            price_key_before(s, k, a)) && a <= e < s.len() && s[e] == '"',
    decreases s.len() - p,
{
    lemma_skip_ws(s, p);
    let q = skip_ws(s, p);
    if !(q >= s.len() || s[q] == '}') {
        lemma_json_string(s, q);
        if let Some((ka, ke)) = json_string(s, q) {
            lemma_skip_ws(s, q);
            lemma_string_close(s, ka);
            lemma_skip_ws(s, ke + 1);
            let r = skip_ws(s, ke + 1);
            if colon_at(s, r) {
                if s.subrange(ka, ke) == "price"@ {
                    reveal_strlit("price");
                    assert("price"@.len() == 5);
                    assert(s.subrange(ka, ke).len() == ke - ka);
                    assert(ke == ka + 5);
                    lemma_json_string(s, r + 1);
                    lemma_skip_ws(s, r + 1);
                    if let Some((a, e)) = json_string(s, r + 1) {
                        lemma_string_close(s, a);
                        assert(price_key_before(s, ka, a));
                    }
                } else {
                    lemma_value_end(s, r + 1);
                    if let Some(v) = value_end(s, r + 1) {
                        lemma_skip_ws(s, v);
                        let w = skip_ws(s, v);
                        if p < w < s.len() && s[w] == ',' {
                            lemma_price_in_members_key(s, w + 1);
                        }
                    }
                }
            }
        }
    }
}

spec fn colon_at(s: Seq<char>, r: int) -> bool {
    0 <= r < s.len() && s[r] == ':'
}

/// The text found is the value of a member whose key is exactly `price`:
/// a key that only begins with `price` (say `priceChange`) is never taken
/// for it. Whitespace, a colon and whitespace stand between that key and the
/// value's opening quote, and the value ends at its closing quote.
pub proof fn law_price_field_key(s: Seq<char>)
    ensures
        price_field_spec(s) matches Some((a, e)) ==> (exists|k: int| #[trigger]
            price_key_before(s, k, a)) && a <= e < s.len() && s[e] == '"',
{
    lemma_skip_ws(s, 0);
    let j = skip_ws(s, 0);
    if j < s.len() && s[j] == '{' {
        lemma_price_in_members_key(s, j + 1);
    }
}

/// `str::trim_start` on `s[i..]`: the first position that holds no whitespace.
fn trim_start(s: &Vec<char>, i: usize) -> (j: usize)
    requires
        i <= s@.len(),
    ensures
        j == skip_ws(s@, i as int),
        i <= j <= s@.len(),
    decreases s@.len() - i,
{
    proof {
        lemma_skip_ws(s@, i as int);
    }
    if i < s.len() && is_space_exec(s[i]) {
        trim_start(s, i + 1)
    } else {
        i
    }
}

/// Parse a JSON string value at `i`: the positions where its contents start
/// and where its closing quote stands.
fn parse_json_string(s: &Vec<char>, i: usize) -> (r: Option<(usize, usize)>)
    requires
        i <= s@.len(),
    ensures
        match r {
            Some((a, e)) => json_string(s@, i as int) == Some((a as int, e as int)),
            None => json_string(s@, i as int) is None,
        },
        r matches Some((a, e)) ==> i < a <= e < s@.len(),
{
    proof {
        lemma_json_string(s@, i as int);
    }
    let j = trim_start(s, i);
    if !(j < s.len() && s[j] == '"') {
        return None;
    }
    let mut k = j + 1;
    while k < s.len()
        invariant
            i <= j < s@.len(),
            j == skip_ws(s@, i as int),
            s@[j as int] == '"',
            j + 1 <= k <= s@.len(),
            string_close(s@, j + 1) == string_close(s@, k as int),
        decreases s@.len() - k,
    {
        let c = s[k];
        if c == '\\' {
            if s.len() - k < 2 {
                return None;
            }
            k = k + 2;
        } else if c == '"' {
            return Some((j + 1, k));
        } else {
            k = k + 1;
        }
    }
    None
}

/// `s` holds the characters of `lit` from position `j` on.
fn has_at_exec(s: &Vec<char>, j: usize, lit: &str) -> (b: bool)
    requires
        j <= s@.len(),
    ensures
        b == has_at(s@, j as int, lit@),
{
    let l = chars_of(lit);
    if s.len() - j < l.len() {
        return false;
    }
    let mut k: usize = 0;
    while k < l.len()
        invariant
            l@ == lit@,
            j + l.len() <= s.len(),
            k <= l@.len(),
            forall|m: int| 0 <= m < k ==> s@[j + m] == l@[m],
        decreases l@.len() - k,
    {
        if s[j + k] != l[k] {
            assert(s@.subrange(j as int, j + l@.len())[k as int] != lit@[k as int]);
            return false;
        }
        k = k + 1;
    }
    assert(s@.subrange(j as int, j + l@.len()) =~= lit@);
    true
}

/// Skip a single JSON value (string, number, object, array, true, false,
/// null) that starts at `i`: the position just past it.
fn skip_json_value(s: &Vec<char>, i: usize) -> (r: Option<usize>)
    requires
        i <= s@.len(),
    ensures
        match r {
            Some(v) => value_end(s@, i as int) == Some(v as int),
            None => value_end(s@, i as int) is None,
        },
    decreases s@.len() - i, 0int,
{
    proof {
        lemma_value_end(s@, i as int);
    }
    let j = trim_start(s, i);
    if j >= s.len() {
        return None;
    }
    let c = s[j];
    if c == '"' {
        match parse_json_string(s, j) {
            Some((a, e)) => Some(e + 1),
            None => None,
        }
    } else if c == '{' {
        skip_members(s, j + 1)
    } else if c == '[' {
        skip_elements(s, j + 1)
    } else if c == 't' {
        if has_at_exec(s, j, "true") {
            proof {
                reveal_strlit("true");
            }
            Some(j + 4)
        } else {
            None
        }
    } else if c == 'f' {
        if has_at_exec(s, j, "false") {
            proof {
                reveal_strlit("false");
            }
            Some(j + 5)
        } else {
            None
        }
    } else if c == 'n' {
        if has_at_exec(s, j, "null") {
            proof {
                reveal_strlit("null");
            }
            Some(j + 4)
        } else {
            None
        }
    } else {
        // Number: consume until the next comma, closing brace, or bracket.
        let mut e = j;
        while e < s.len() && !(s[e] == ',' || s[e] == '}' || s[e] == ']')
            invariant
                j <= e <= s@.len(),
                find_delim(s@, j as int) == find_delim(s@, e as int),
            decreases s@.len() - e,
        {
            e = e + 1;
        }
        if e == j {
            None
        } else {
            Some(e)
        }
    }
}

/// Skip the members of an object that start at `p`, up to and including
/// the closing `}`.
fn skip_members(s: &Vec<char>, p: usize) -> (r: Option<usize>)
    requires
        p <= s@.len(),
    ensures
        match r {
            Some(v) => members_end(s@, p as int) == Some(v as int),
            None => members_end(s@, p as int) is None,
        },
    decreases s@.len() - p, 1int,
{
    proof {
        lemma_members_end(s@, p as int);
    }
    let q = trim_start(s, p);
    if q < s.len() && s[q] == '}' {
        return Some(q + 1);
    }
    let (a, e) = match parse_json_string(s, q) {
        Some(x) => x,
        None => {
            return None;
        },
    };
    let r = trim_start(s, e + 1);
    if !(r < s.len() && s[r] == ':') {
        return None;
    }
    proof {
        lemma_value_end(s@, r + 1);
    }
    let v = match skip_json_value(s, r + 1) {
        Some(v) => v,
        None => {
            return None;
        },
    };
    let w = trim_start(s, v);
    if w < s.len() && s[w] == ',' {
        skip_members(s, w + 1)
    } else if w < s.len() && s[w] == '}' {
        Some(w + 1)
    } else {
        None
    }
}

/// Skip the elements of an array that start at `p`, up to and including
/// the closing `]`.
fn skip_elements(s: &Vec<char>, p: usize) -> (r: Option<usize>)
    requires
        p <= s@.len(),
    ensures
        match r {
            Some(v) => elements_end(s@, p as int) == Some(v as int),
            None => elements_end(s@, p as int) is None,
        },
    decreases s@.len() - p, 1int,
{
    proof {
        lemma_elements_end(s@, p as int);
    }
    let q = trim_start(s, p);
    if q < s.len() && s[q] == ']' {
        return Some(q + 1);
    }
    proof {
        lemma_value_end(s@, q as int);
    }
    let v = match skip_json_value(s, q) {
        Some(v) => v,
        None => {
            return None;
        },
    };
    let w = trim_start(s, v);
    if w < s.len() && s[w] == ',' {
        skip_elements(s, w + 1)
    } else if w < s.len() && s[w] == ']' {
        Some(w + 1)
    } else {
        None
    }
}

/// `s[a..e]` holds exactly the characters of `price`.
fn is_price_key(s: &Vec<char>, a: usize, e: usize) -> (b: bool)
    requires
        a <= e <= s@.len(),
    ensures
        b == (s@.subrange(a as int, e as int) == "price"@),
{
    proof {
        reveal_strlit("price");
    }
    if e - a != 5 {
        assert(s@.subrange(a as int, e as int).len() != "price"@.len());
        return false;
    }
    has_at_exec(s, a, "price")
}

fn price_members(s: &Vec<char>, p: usize) -> (r: Option<(usize, usize)>)
    requires
        p <= s@.len(),
    ensures
        match r {
            Some((a, e)) => price_in_members(s@, p as int) == Some((a as int, e as int)),
            None => price_in_members(s@, p as int) is None,
        },
        r matches Some((a, e)) ==> a <= e <= s@.len(),
    decreases s@.len() - p,
{
    let q = trim_start(s, p);
    if q >= s.len() || s[q] == '}' {
        return None;
    }
    let (a, e) = match parse_json_string(s, q) {
        Some(x) => x,
        None => {
            return None;
        },
    };
    let r = trim_start(s, e + 1);
    if !(r < s.len() && s[r] == ':') {
        return None;
    }
    if is_price_key(s, a, e) {
        return parse_json_string(s, r + 1);
    }
    proof {
        lemma_value_end(s@, r + 1);
    }
    let v = match skip_json_value(s, r + 1) {
        Some(v) => v,
        None => {
            return None;
        },
    };
    let w = trim_start(s, v);
    if w < s.len() && s[w] == ',' {
        price_members(s, w + 1)
    } else {
        None
    }
}

/// Find the `"price"` string field of a Binance ticker response body:
/// `{"symbol":"...","price":"..."}`. Returns the text between its quotes.
///
/// This is a small JSON object walker. It tolerates whitespace and different
/// field ordering, and it will not be fooled by the substring `"price":"`
/// appearing inside another string value.
pub fn price_field<'a>(body: &'a str) -> (r: Option<&'a str>)
    ensures
        match price_field_spec(body@) {
            Some((a, e)) => r is Some && r->Some_0@ == body@.subrange(a, e),
            None => r is None,
        },
{
    let s = chars_of(body);
    let j = trim_start(&s, 0);
    if !(j < s.len() && s[j] == '{') {
        return None;
    }
    match price_members(&s, j + 1) {
        Some((a, e)) => Some(body.substring_char(a, e)),
        None => None,
    }
}

/// The price text in a ticker response: the server must have answered 200,
/// and the body received (the first `body_len` bytes of `body_buf`) must be
/// UTF-8 text holding a `"price"` field.
pub fn price_text<'a>(resp: &HttpResponse, body_buf: &'a [u8]) -> (r: Result<&'a str, FetchError>)
    requires
        resp.body_len <= body_buf@.len(),
    ensures
        resp.status_code != 200 ==> r == Err::<&str, FetchError>(
            FetchError::BadStatus(resp.status_code),
        ),
        resp.status_code == 200 ==> {
            let bytes = body_buf@.take(resp.body_len as int);
            &&& !valid_utf8(bytes) ==> r == Err::<&str, FetchError>(FetchError::ParseError)
            &&& valid_utf8(bytes) ==> match price_field_spec(decode_utf8(bytes)) {
                Some((a, e)) => r is Ok && r->Ok_0@ == decode_utf8(bytes).subrange(a, e),
                None => r == Err::<&str, FetchError>(FetchError::ParseError),
            }
        },
{
    if resp.status_code != 200 {
        return Err(FetchError::BadStatus(resp.status_code));
    }
    let bytes = vstd::slice::slice_subrange(body_buf, 0, resp.body_len);
    assert(bytes@ =~= body_buf@.take(resp.body_len as int));
    let body = match str_from_utf8(bytes) {
        Some(b) => b,
        None => {
            return Err(FetchError::ParseError);
        },
    };
    match price_field(body) {
        Some(p) => Ok(p),
        None => Err(FetchError::ParseError),
    }
}

} // verus!
