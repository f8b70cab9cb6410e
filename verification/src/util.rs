//! Utility functions for formatting text and time.
use vstd::prelude::*;

use crate::bounded::{
    lines_new,
    lines_push,
    lines_text,
    text16,
    text16_new,
    text16_push,
    text64,
    text64_new,
    text64_push,
    text64_push_str,
    text64_try_from,
};
use crate::text::{
    byte_len,
    char_width,
    char_width_exec,
    chars_of,
    is_space,
    is_space_exec,
    lemma_char_width_bounds,
    lemma_utf8_len_ascii,
    lemma_utf8_len_concat,
    lemma_utf8_len_push,
    utf8_len,
};

verus! {

// ---------------------------------------------------------------------------
// Time

/// The decimal digit for `d < 10`.
pub open spec fn digit_char(d: nat) -> char {
    (48 + d) as char
}

/// The decimal representation of `n`, without leading zeros.
pub open spec fn decimal(n: nat) -> Seq<char>
    decreases n,
{
    if n < 10 {
        seq![digit_char(n)]
    } else {
        decimal(n / 10).push(digit_char(n % 10))
    }
}

/// `n` in decimal, padded with a leading zero to at least two digits (`{:02}`).
pub open spec fn two_digits(n: nat) -> Seq<char> {
    if n < 10 {
        seq!['0'].add(decimal(n))
    } else {
        decimal(n)
    }
}

/// The text of `format_time`: `HH:MM:SS` with hours, `MM:SS` without.
pub open spec fn time_text(total_seconds: nat, show_hours: bool) -> Seq<char> {
    let hours = total_seconds / 3600;
    let minutes = (total_seconds % 3600) / 60;
    let seconds = total_seconds % 60;
    let ms = two_digits(minutes) + seq![':'] + two_digits(seconds);
    if show_hours {
        two_digits(hours) + seq![':'] + ms
    } else {
        ms
    }
}

pub open spec fn is_ascii_seq(s: Seq<char>) -> bool {
    forall|i: int| 0 <= i < s.len() ==> (#[trigger] s[i] as u32) < 0x80
}

proof fn lemma_decimal_ascii(n: nat)
    ensures
        is_ascii_seq(decimal(n)),
        1 <= decimal(n).len(),
        n < 10 ==> decimal(n).len() == 1,
        n < 100 ==> decimal(n).len() <= 2,
        n < 1000 ==> decimal(n).len() <= 3,
        n < 10000 ==> decimal(n).len() <= 4,
        n < 100000 ==> decimal(n).len() <= 5,
        n < 1000000 ==> decimal(n).len() <= 6,
        n < 10000000 ==> decimal(n).len() <= 7,
    decreases n,
{
    if n >= 10 {
        lemma_decimal_ascii(n / 10);
    }
}

/// The decimal digits of `n`.
fn decimal_chars(n: u32) -> (v: Vec<char>)
    ensures
        v@ == decimal(n as nat),
    decreases n,
{
    if n < 10 {
        let c = ((48 + n) as u8) as char;
        let mut v: Vec<char> = Vec::new();
        v.push(c);
        assert(v@ =~= seq![digit_char(n as nat)]);
        v
    } else {
        let mut v = decimal_chars(n / 10);
        let d = n % 10;
        let c = ((48 + d) as u8) as char;
        v.push(c);
        v
    }
}

/// Appends the ASCII characters `cs` to `s`.
fn push_ascii16(s: &mut heapless::String<16>, cs: &Vec<char>)
    requires
        is_ascii_seq(text16(*old(s))),
        is_ascii_seq(cs@),
        text16(*old(s)).len() + cs@.len() <= 16,
    ensures
        text16(*final(s)) == text16(*old(s)) + cs@,
        is_ascii_seq(text16(*final(s))),
{
    let mut i: usize = 0;
    while i < cs.len()
        invariant
            is_ascii_seq(cs@),
            text16(*old(s)).len() + cs@.len() <= 16,
            i <= cs@.len(),
            text16(*s) == text16(*old(s)) + cs@.take(i as int),
            is_ascii_seq(text16(*s)),
        decreases cs@.len() - i,
    {
        let c = cs[i];
        proof {
            lemma_utf8_len_ascii(text16(*s));
            lemma_char_width_bounds(c);
        }
        let _ = text16_push(s, c);
        assert(cs@.take(i + 1) =~= cs@.take(i as int).push(c));
        assert(text16(*s) =~= text16(*old(s)) + cs@.take(i + 1));
        i = i + 1;
    }
    assert(cs@.take(cs@.len() as int) =~= cs@);
}

/// `n` with at least two digits.
fn two_digit_chars(n: u32) -> (v: Vec<char>)
    ensures
        v@ == two_digits(n as nat),
{
    let d = decimal_chars(n);
    if n < 10 {
        let mut v: Vec<char> = Vec::new();
        v.push('0');
        v.push(d[0]);
        assert(v@ =~= seq!['0'].add(decimal(n as nat)));
        v
    } else {
        d
    }
}

proof fn lemma_two_digits_len(n: nat)
    ensures
        two_digits(n).len() >= 2,
        n < 10 ==> two_digits(n) == seq!['0', digit_char(n)],
{
    lemma_decimal_ascii(n);
    if n >= 10 {
        lemma_decimal_ascii(n / 10);
        assert(decimal(n) == decimal(n / 10).push(digit_char(n % 10)));
    } else {
        assert(seq!['0'].add(decimal(n)) =~= seq!['0', digit_char(n)]);
    }
}

/// With hours asked for, the time always has three fields: the hours (two
/// digits at least, `00` below an hour), a colon, then the minutes and
/// seconds exactly as they are shown without hours; so the text is at least
/// `HH:MM:SS` long, and below an hour it starts with `00:`.
pub proof fn law_time_text_hours(t: nat)
    ensures
        time_text(t, true) == two_digits(t / 3600) + seq![':'] + time_text(t, false),
        time_text(t, false) == two_digits((t % 3600) / 60) + seq![':'] + two_digits(t % 60),
        time_text(t, true).len() >= 8,
        time_text(t, false).len() >= 5,
        t < 3600 ==> time_text(t, true).take(3) == seq!['0', '0', ':'],
{
    lemma_two_digits_len(t / 3600);
    lemma_two_digits_len((t % 3600) / 60);
    lemma_two_digits_len(t % 60);
    if t < 3600 {
        assert(t / 3600 == 0);
        assert(digit_char(0) == '0');
        assert(time_text(t, true).take(3) =~= seq!['0', '0', ':']);
    }
}

/// Formats elapsed seconds into a time string with configurable format
///
/// # Arguments
/// * `total_seconds` - Total seconds to format
/// * `show_hours` - Whether to include hours in the format (true: HH:MM:SS, false: MM:SS)
pub fn format_time(total_seconds: u32, show_hours: bool) -> (s: heapless::String<16>)
    ensures
        text16(s) == time_text(total_seconds as nat, show_hours),
{
    let hours = total_seconds / 3600;
    let minutes = (total_seconds % 3600) / 60;
    let seconds = total_seconds % 60;
    let h = two_digit_chars(hours);
    let m = two_digit_chars(minutes);
    let sec = two_digit_chars(seconds);
    let mut colon: Vec<char> = Vec::new();
    colon.push(':');
    proof {
        lemma_decimal_ascii(hours as nat);
        lemma_decimal_ascii(minutes as nat);
        lemma_decimal_ascii(seconds as nat);
        assert(is_ascii_seq(colon@));
        assert(is_ascii_seq(h@));
        assert(is_ascii_seq(m@));
        assert(is_ascii_seq(sec@));
        assert(m@.len() <= 2 && sec@.len() <= 2 && h@.len() <= 7);
    }
    let mut time_str = text16_new();
    if show_hours {
        push_ascii16(&mut time_str, &h);
        push_ascii16(&mut time_str, &colon);
    }
    push_ascii16(&mut time_str, &m);
    push_ascii16(&mut time_str, &colon);
    push_ascii16(&mut time_str, &sec);
    proof {
        let ms = two_digits(minutes as nat) + seq![':'] + two_digits(seconds as nat);
        assert(colon@ =~= seq![':']);
        if show_hours {
            assert(text16(time_str) =~= two_digits(hours as nat) + seq![':'] + ms);
        } else {
            assert(text16(time_str) =~= ms);
        }
    }
    time_str
}

// ---------------------------------------------------------------------------
// Quote lines

/// The words of `s` found so far, and the word being read at its end.
pub open spec fn words_acc(s: Seq<char>) -> (Seq<Seq<char>>, Seq<char>)
    decreases s.len(),
{
    if s.len() == 0 {
        (Seq::empty(), Seq::empty())
    } else {
        let (ws, cur) = words_acc(s.drop_last());
        let c = s.last();
        if is_space(c) {
            (
                if cur.len() > 0 {
                    ws.push(cur)
                } else {
                    ws
                },
                Seq::empty(),
            )
        } else {
            (ws, cur.push(c))
        }
    }
}

/// The words of `s`: its maximal runs of non-whitespace characters, in
/// order (what `str::split_whitespace` yields).
pub open spec fn words(s: Seq<char>) -> Seq<Seq<char>> {
    let (ws, cur) = words_acc(s);
    if cur.len() > 0 {
        ws.push(cur)
    } else {
        ws
    }
}

/// How many characters at the start of `w` fit in `max` bytes.
pub open spec fn fit_prefix(w: Seq<char>, max: int) -> nat
    decreases w.len(),
{
    if w.len() == 0 || char_width(w[0]) > max {
        0
    } else {
        1 + fit_prefix(w.drop_first(), max - char_width(w[0]))
    }
}

/// `lines` followed by the pieces of a word too long for one line: each
/// piece is the longest start of what is left that fits in `max` bytes,
/// until the word is used up or `max_lines` (or eight) lines are held.
pub open spec fn split_word(lines: Seq<Seq<char>>, rem: Seq<char>, max: nat, max_lines: nat) -> Seq<
    Seq<char>,
>
    decreases 8 - lines.len(),
{
    if rem.len() == 0 || lines.len() >= max_lines || lines.len() >= 8 {
        lines
    } else {
        let k = fit_prefix(rem, max as int);
        split_word(lines.push(rem.take(k as int)), rem.skip(k as int), max, max_lines)
    }
}

/// Where the wrapping stands: the finished lines, the line being filled,
/// and whether wrapping has stopped.
pub struct Wrap {
    pub lines: Seq<Seq<char>>,
    pub cur: Seq<char>,
    pub done: bool,
}

/// `t` appended to a 64-byte line buffer holding `cur`: added when it fits,
/// and otherwise the buffer is left as it was.
pub open spec fn append64(cur: Seq<char>, t: Seq<char>) -> Seq<char> {
    if utf8_len(cur) + utf8_len(t) <= 64 {
        cur + t
    } else {
        cur
    }
}

/// The line being filled with `w` added, after a space if it is not empty;
/// the line buffer takes each of them only if it fits.
pub open spec fn joined(cur: Seq<char>, w: Seq<char>) -> Seq<char> {
    if cur.len() == 0 {
        append64(cur, w)
    } else {
        append64(append64(cur, seq![' ']), w)
    }
}

/// `lines` with the line being filled added, if it is not empty.
pub open spec fn flushed(lines: Seq<Seq<char>>, cur: Seq<char>) -> Seq<Seq<char>> {
    if cur.len() > 0 {
        lines.push(cur)
    } else {
        lines
    }
}

/// One word laid out. A word longer than a line closes the current line and
/// is split over lines of its own; any other word joins the current line if
/// it fits, or starts a new one. Wrapping stops when `max_lines` lines are
/// held after a short word, or when a line cannot be added to the eight held.
pub open spec fn wrap_word(st: Wrap, w: Seq<char>, max: nat, max_lines: nat) -> Wrap {
    if st.done {
        st
    } else if utf8_len(w) > max {
        if st.cur.len() > 0 && st.lines.len() >= 8 {
            Wrap { done: true, ..st }
        } else {
            Wrap {
                lines: split_word(flushed(st.lines, st.cur), w, max, max_lines),
                cur: Seq::empty(),
                done: false,
            }
        }
    } else {
        let space: nat = if st.cur.len() == 0 {
            0
        } else {
            1
        };
        if utf8_len(st.cur) + space + utf8_len(w) <= max {
            let t = Wrap { cur: joined(st.cur, w), ..st };
            Wrap { done: t.lines.len() >= max_lines, ..t }
        } else if st.cur.len() > 0 && st.lines.len() >= 8 {
            Wrap { done: true, ..st }
        } else {
            let t = Wrap { lines: flushed(st.lines, st.cur), cur: w, done: false };
            Wrap { done: t.lines.len() >= max_lines, ..t }
        }
    }
}

/// The layout of the words `ws`, one after the other.
pub open spec fn wrap_words(ws: Seq<Seq<char>>, max: nat, max_lines: nat) -> Wrap
    decreases ws.len(),
{
    if ws.len() == 0 {
        Wrap { lines: Seq::empty(), cur: Seq::empty(), done: false }
    } else {
        wrap_word(wrap_words(ws.drop_last(), max, max_lines), ws.last(), max, max_lines)
    }
}

/// The lines `format_quote_lines` gives for `quote`: the layout of its
/// words, with the last line added while fewer than `max_lines` (and eight)
/// lines are held.
pub open spec fn quote_lines(quote: Seq<char>, max: nat, max_lines: nat) -> Seq<Seq<char>> {
    let st = wrap_words(words(quote), max, max_lines);
    if st.cur.len() > 0 && st.lines.len() < max_lines && st.lines.len() < 8 {
        st.lines.push(st.cur)
    } else {
        st.lines
    }
}

/// Every piece `split_word` cuts from `rem` fits in a 64-byte line buffer.
pub open spec fn pieces_fit(lines: Seq<Seq<char>>, rem: Seq<char>, max: nat, max_lines: nat) -> bool
    decreases 8 - lines.len(),
{
    if rem.len() == 0 || lines.len() >= max_lines || lines.len() >= 8 {
        true
    } else {
        let k = fit_prefix(rem, max as int);
        utf8_len(rem.take(k as int)) <= 64 && pieces_fit(
            lines.push(rem.take(k as int)),
            rem.skip(k as int),
            max,
            max_lines,
        )
    }
}

/// Laying out `w` never puts more than 64 bytes in a line buffer at once: a
/// word that starts a new line fits, and so does each piece of a split word.
pub open spec fn word_fits_buffer(st: Wrap, w: Seq<char>, max: nat, max_lines: nat) -> bool {
    if st.done {
        true
    } else if utf8_len(w) > max {
        (st.cur.len() > 0 && st.lines.len() >= 8) || pieces_fit(
            flushed(st.lines, st.cur),
            w,
            max,
            max_lines,
        )
    } else {
        let space: nat = if st.cur.len() == 0 {
            0
        } else {
            1
        };
        ||| utf8_len(st.cur) + space + utf8_len(w) <= max
        ||| st.cur.len() > 0 && st.lines.len() >= 8
        ||| utf8_len(w) <= 64
    }
}

/// The layout of `ws` never overruns a 64-byte line buffer. This always
/// holds when lines are at most 64 bytes long.
pub open spec fn layout_fits(ws: Seq<Seq<char>>, max: nat, max_lines: nat) -> bool
    decreases ws.len(),
{
    ws.len() == 0 || (layout_fits(ws.drop_last(), max, max_lines) && word_fits_buffer(
        wrap_words(ws.drop_last(), max, max_lines),
        ws.last(),
        max,
        max_lines,
    ))
}

proof fn lemma_pieces_fit(lines: Seq<Seq<char>>, rem: Seq<char>, max: nat, max_lines: nat)
    requires
        max <= 64,
    ensures
        pieces_fit(lines, rem, max, max_lines),
    decreases 8 - lines.len(),
{
    if !(rem.len() == 0 || lines.len() >= max_lines || lines.len() >= 8) {
        let k = fit_prefix(rem, max as int);
        lemma_fit_prefix(rem, max as int);
        lemma_pieces_fit(lines.push(rem.take(k as int)), rem.skip(k as int), max, max_lines);
    }
}

/// With lines of at most 64 bytes, no layout overruns a line buffer.
pub proof fn lemma_layout_fits(ws: Seq<Seq<char>>, max: nat, max_lines: nat)
    requires
        max <= 64,
    ensures
        layout_fits(ws, max, max_lines),
    decreases ws.len(),
{
    if ws.len() > 0 {
        lemma_layout_fits(ws.drop_last(), max, max_lines);
        let st = wrap_words(ws.drop_last(), max, max_lines);
        if !st.done && utf8_len(ws.last()) > max {
            lemma_pieces_fit(flushed(st.lines, st.cur), ws.last(), max, max_lines);
        }
    }
}

proof fn lemma_layout_fits_prefix(ws: Seq<Seq<char>>, j: int, max: nat, max_lines: nat)
    requires
        0 <= j <= ws.len(),
        layout_fits(ws, max, max_lines),
    ensures
        layout_fits(ws.take(j), max, max_lines),
    decreases ws.len() - j,
{
    if j < ws.len() {
        assert(ws.drop_last().take(j) =~= ws.take(j));
        lemma_layout_fits_prefix(ws.drop_last(), j, max, max_lines);
    } else {
        assert(ws.take(j) =~= ws);
    }
}

proof fn lemma_words_acc_count(s: Seq<char>)
    ensures
        words_acc(s).1.len() == 0 ==> 2 * words_acc(s).0.len() <= s.len(),
        words_acc(s).1.len() > 0 ==> 2 * words_acc(s).0.len() + 2 <= s.len() + 1,
        words_acc(s).1.len() <= s.len(),
    decreases s.len(),
{
    if s.len() > 0 {
        lemma_words_acc_count(s.drop_last());
    }
}

/// Words are separated by whitespace, so a text holds at most half as many
/// words as characters, rounded up.
pub proof fn lemma_words_count(s: Seq<char>)
    ensures
        2 * words(s).len() <= s.len() + 1,
{
    lemma_words_acc_count(s);
}

/// A text of at most 128 bytes holds at most 64 words.
pub proof fn lemma_words_fit(s: Seq<char>)
    requires
        utf8_len(s) <= 128,
    ensures
        words(s).len() <= 64,
{
    lemma_words_count(s);
    crate::text::lemma_utf8_len_ge_len(s);
}

/// Once wrapping has stopped, later words change nothing.
proof fn lemma_wrap_done(ws: Seq<Seq<char>>, j: int, max: nat, max_lines: nat)
    requires
        0 <= j <= ws.len(),
        wrap_words(ws.take(j), max, max_lines).done,
    ensures
        wrap_words(ws, max, max_lines) == wrap_words(ws.take(j), max, max_lines),
    decreases ws.len() - j,
{
    if j < ws.len() {
        assert(ws.take(j + 1).drop_last() =~= ws.take(j));
        lemma_wrap_done(ws, j + 1, max, max_lines);
    } else {
        assert(ws.take(j) =~= ws);
    }
}

/// The start of `w` that `fit_prefix` picks fits in `max` bytes.
proof fn lemma_fit_prefix(w: Seq<char>, max: int)
    requires
        max >= 0,
    ensures
        fit_prefix(w, max) <= w.len(),
        utf8_len(w.take(fit_prefix(w, max) as int)) <= max,
    decreases w.len(),
{
    let k = fit_prefix(w, max);
    if w.len() == 0 || char_width(w[0]) > max {
        assert(w.take(0) =~= Seq::<char>::empty());
    } else {
        let m = max - char_width(w[0]);
        lemma_fit_prefix(w.drop_first(), m);
        let t = w.drop_first().take((k - 1) as int);
        assert(w.take(k as int) =~= seq![w[0]] + t);
        lemma_utf8_len_concat(seq![w[0]], t);
        lemma_utf8_len_push(Seq::<char>::empty(), w[0]);
        assert(Seq::<char>::empty().push(w[0]) =~= seq![w[0]]);
    }
}

/// Every line fits in `max` bytes.
pub open spec fn lines_fit(lines: Seq<Seq<char>>, max: nat) -> bool {
    forall|i: int| 0 <= i < lines.len() ==> utf8_len(#[trigger] lines[i]) <= max
}

proof fn lemma_split_word_bounds(lines: Seq<Seq<char>>, rem: Seq<char>, max: nat, max_lines: nat)
    requires
        lines_fit(lines, max),
        lines.len() <= max_lines || rem.len() == 0,
        lines.len() <= 8,
    ensures
        lines_fit(split_word(lines, rem, max, max_lines), max),
        split_word(lines, rem, max, max_lines).len() <= 8,
        split_word(lines, rem, max, max_lines).len() <= max_lines || split_word(
            lines,
            rem,
            max,
            max_lines,
        ).len() == lines.len(),
    decreases 8 - lines.len(),
{
    if !(rem.len() == 0 || lines.len() >= max_lines || lines.len() >= 8) {
        let k = fit_prefix(rem, max as int);
        lemma_fit_prefix(rem, max as int);
        let l2 = lines.push(rem.take(k as int));
        assert forall|i: int| 0 <= i < l2.len() implies utf8_len(#[trigger] l2[i]) <= max by {
            if i < lines.len() {
                assert(l2[i] == lines[i]);
            }
        }
        lemma_split_word_bounds(l2, rem.skip(k as int), max, max_lines);
    }
}

/// What holds of the layout at every word: lines and the line being filled
/// fit, no more than `max_lines` (and eight) lines are held, and a line is
/// only being filled while there is room for it.
pub open spec fn wrap_inv(st: Wrap, max: nat, max_lines: nat) -> bool {
    &&& lines_fit(st.lines, max)
    &&& utf8_len(st.cur) <= max
    &&& st.lines.len() <= max_lines
    &&& st.lines.len() <= 8
    &&& !st.done && st.cur.len() > 0 ==> st.lines.len() < max_lines
}

proof fn lemma_joined_len(cur: Seq<char>, w: Seq<char>)
    ensures
        utf8_len(joined(cur, w)) <= utf8_len(cur) + (if cur.len() == 0 {
            0nat
        } else {
            1nat
        }) + utf8_len(w),
{
    lemma_utf8_len_concat(cur, w);
    lemma_utf8_len_concat(cur, seq![' ']);
    lemma_utf8_len_push(Seq::<char>::empty(), ' ');
    assert(Seq::<char>::empty().push(' ') =~= seq![' ']);
    lemma_char_width_bounds(' ');
    lemma_utf8_len_concat(cur + seq![' '], w);
}

proof fn lemma_wrap_inv(ws: Seq<Seq<char>>, max: nat, max_lines: nat)
    ensures
        wrap_inv(wrap_words(ws, max, max_lines), max, max_lines),
    decreases ws.len(),
{
    if ws.len() > 0 {
        lemma_wrap_inv(ws.drop_last(), max, max_lines);
        let st = wrap_words(ws.drop_last(), max, max_lines);
        let w = ws.last();
        if !st.done {
            let fl = flushed(st.lines, st.cur);
            assert(lines_fit(fl, max)) by {
                assert forall|i: int| 0 <= i < fl.len() implies utf8_len(#[trigger] fl[i]) <= max by {
                    if i < st.lines.len() {
                        assert(fl[i] == st.lines[i]);
                    }
                }
            }
            if utf8_len(w) > max {
                if !(st.cur.len() > 0 && st.lines.len() >= 8) {
                    lemma_split_word_bounds(fl, w, max, max_lines);
                    assert(utf8_len(Seq::<char>::empty()) == 0) by {
                        crate::text::lemma_utf8_len_empty();
                    }
                }
            } else {
                let space: nat = if st.cur.len() == 0 {
                    0
                } else {
                    1
                };
                if utf8_len(st.cur) + space + utf8_len(w) <= max {
                    lemma_joined_len(st.cur, w);
                }
            }
        }
    }
}

/// The layout of a quote keeps to its limits: every line fits in
/// `max_chars_per_line` bytes, and there are at most `max_lines` lines (and
/// at most eight).
pub proof fn law_quote_lines_bounds(quote: Seq<char>, max: nat, max_lines: nat)
    ensures
        lines_fit(quote_lines(quote, max, max_lines), max),
        quote_lines(quote, max, max_lines).len() <= max_lines,
        quote_lines(quote, max, max_lines).len() <= 8,
{
    let st = wrap_words(words(quote), max, max_lines);
    lemma_wrap_inv(words(quote), max, max_lines);
    let out = quote_lines(quote, max, max_lines);
    assert forall|i: int| 0 <= i < out.len() implies utf8_len(#[trigger] out[i]) <= max by {
        if i < st.lines.len() {
            assert(out[i] == st.lines[i]);
        }
    }
}

/// The characters of `s` that are not whitespace, in order.
pub open spec fn strip(s: Seq<char>) -> Seq<char> {
    s.filter(|c: char| !is_space(c))
}

/// `s` holds no whitespace.
pub open spec fn no_space(s: Seq<char>) -> bool {
    forall|i: int| 0 <= i < s.len() ==> !is_space(#[trigger] s[i])
}

/// The line limit is reached: `max_lines` lines, or the eight the result
/// can hold.
pub open spec fn lines_full(n: nat, max_lines: nat) -> bool {
    n >= max_lines || n >= 8
}

proof fn lemma_strip_push(s: Seq<char>, c: char)
    ensures
        strip(s.push(c)) == if is_space(c) {
            strip(s)
        } else {
            strip(s).push(c)
        },
{
    reveal(Seq::filter);
    assert(s.push(c).drop_last() =~= s);
}

proof fn lemma_strip_add(a: Seq<char>, b: Seq<char>)
    ensures
        strip(a + b) == strip(a) + strip(b),
{
    Seq::filter_distributes_over_add(a, b, |c: char| !is_space(c));
}

proof fn lemma_strip_no_space(s: Seq<char>)
    requires
        no_space(s),
    ensures
        strip(s) == s,
    decreases s.len(),
{
    reveal(Seq::filter);
    if s.len() > 0 {
        assert(no_space(s.drop_last()));
        lemma_strip_no_space(s.drop_last());
        assert(s.drop_last().push(s.last()) =~= s);
        lemma_strip_push(s.drop_last(), s.last());
    }
}

proof fn lemma_strip_space()
    ensures
        strip(seq![' ']) == Seq::<char>::empty(),
{
    lemma_strip_push(Seq::<char>::empty(), ' ');
    assert(Seq::<char>::empty().push(' ') =~= seq![' ']);
    reveal(Seq::filter);
}

/// The words found so far, followed by the word being read, are the text
/// read so far without its whitespace; none of them holds whitespace.
proof fn lemma_words_acc_text(s: Seq<char>)
    ensures
        words_acc(s).0.flatten() + words_acc(s).1 == strip(s),
        no_space(words_acc(s).1),
        forall|j: int| 0 <= j < words_acc(s).0.len() ==> no_space(#[trigger] words_acc(s).0[j]),
    decreases s.len(),
{
    reveal(Seq::filter);
    if s.len() == 0 {
        assert(Seq::<Seq<char>>::empty().flatten() + Seq::<char>::empty() =~= Seq::<char>::empty());
    } else {
        let p = s.drop_last();
        let c = s.last();
        lemma_words_acc_text(p);
        let (ws, cur) = words_acc(p);
        assert(p.push(c) =~= s);
        lemma_strip_push(p, c);
        if is_space(c) {
            if cur.len() > 0 {
                ws.lemma_flatten_push(cur);
                assert(ws.push(cur).flatten() + Seq::<char>::empty() =~= ws.flatten() + cur);
                assert forall|j: int| 0 <= j < ws.push(cur).len() implies no_space(
                    #[trigger] ws.push(cur)[j],
                ) by {
                    if j < ws.len() {
                        assert(ws.push(cur)[j] == ws[j]);
                    }
                }
            } else {
                assert(ws.flatten() + Seq::<char>::empty() =~= ws.flatten() + cur);
            }
        } else {
            assert(ws.flatten() + cur.push(c) =~= (ws.flatten() + cur).push(c));
            assert forall|i: int| 0 <= i < cur.push(c).len() implies !is_space(
                #[trigger] cur.push(c)[i],
            ) by {
                if i < cur.len() {
                    assert(cur.push(c)[i] == cur[i]);
                }
            }
        }
    }
}

/// The words of `s`, run together, are `s` without its whitespace, and no
/// word holds whitespace.
pub proof fn lemma_words_text(s: Seq<char>)
    ensures
        words(s).flatten() == strip(s),
        forall|j: int| 0 <= j < words(s).len() ==> no_space(#[trigger] words(s)[j]),
{
    lemma_words_acc_text(s);
    let (ws, cur) = words_acc(s);
    if cur.len() > 0 {
        ws.lemma_flatten_push(cur);
        assert forall|j: int| 0 <= j < ws.push(cur).len() implies no_space(
            #[trigger] ws.push(cur)[j],
        ) by {
            if j < ws.len() {
                assert(ws.push(cur)[j] == ws[j]);
            }
        }
    } else {
        assert(ws.flatten() + cur =~= ws.flatten());
    }
}

/// Splitting a word never drops lines, and either reaches the line limit or
/// places all of the word.
proof fn lemma_split_word_text(lines: Seq<Seq<char>>, rem: Seq<char>, max: nat, max_lines: nat)
    ensures
        split_word(lines, rem, max, max_lines).len() >= lines.len(),
        lines_full(split_word(lines, rem, max, max_lines).len(), max_lines) || split_word(
            lines,
            rem,
            max,
            max_lines,
        ).flatten() == lines.flatten() + rem,
    decreases 8 - lines.len(),
{
    if rem.len() == 0 {
        assert(lines.flatten() + rem =~= lines.flatten());
    } else if !(lines.len() >= max_lines || lines.len() >= 8) {
        let k = fit_prefix(rem, max as int);
        lemma_fit_prefix(rem, max as int);
        let l2 = lines.push(rem.take(k as int));
        lemma_split_word_text(l2, rem.skip(k as int), max, max_lines);
        lines.lemma_flatten_push(rem.take(k as int));
        assert(lines.flatten() + rem.take(k as int) + rem.skip(k as int) =~= lines.flatten() + rem);
    }
}

proof fn lemma_flushed_text(lines: Seq<Seq<char>>, cur: Seq<char>)
    ensures
        flushed(lines, cur).flatten() == lines.flatten() + cur,
        flushed(lines, cur).len() >= lines.len(),
{
    if cur.len() > 0 {
        lines.lemma_flatten_push(cur);
    } else {
        assert(lines.flatten() + cur =~= lines.flatten());
    }
}

proof fn lemma_utf8_len_space()
    ensures
        utf8_len(seq![' ']) == 1,
{
    lemma_utf8_len_push(Seq::<char>::empty(), ' ');
    assert(Seq::<char>::empty().push(' ') =~= seq![' ']);
    lemma_char_width_bounds(' ');
}

/// What the layout keeps of its words: once the line limit is reached the
/// lines never shrink, and until then the lines and the line being filled
/// hold the words read so far, without their whitespace.
proof fn lemma_wrap_text(ws: Seq<Seq<char>>, max: nat, max_lines: nat)
    requires
        max <= 64,
        forall|j: int| 0 <= j < ws.len() ==> no_space(#[trigger] ws[j]),
    ensures
        ({
            let st = wrap_words(ws, max, max_lines);
            lines_full(st.lines.len(), max_lines) || (!st.done && strip(st.lines.flatten() + st.cur)
                == ws.flatten())
        }),
    decreases ws.len(),
{
    if ws.len() == 0 {
        assert(Seq::<Seq<char>>::empty().flatten() + Seq::<char>::empty() =~= Seq::<char>::empty());
        reveal(Seq::filter);
    } else {
        let p = ws.drop_last();
        let w = ws.last();
        assert forall|j: int| 0 <= j < p.len() implies no_space(#[trigger] p[j]) by {
            assert(p[j] == ws[j]);
        }
        lemma_wrap_text(p, max, max_lines);
        let st = wrap_words(p, max, max_lines);
        let nst = wrap_word(st, w, max, max_lines);
        assert(nst == wrap_words(ws, max, max_lines));
        assert(p.push(w) =~= ws);
        p.lemma_flatten_push(w);
        assert(no_space(w)) by {
            assert(ws[ws.len() - 1] == w);
        }
        lemma_strip_no_space(w);
        lemma_flushed_text(st.lines, st.cur);
        if !lines_full(st.lines.len(), max_lines) {
            let fl = flushed(st.lines, st.cur);
            if utf8_len(w) > max {
                lemma_split_word_text(fl, w, max, max_lines);
                if !lines_full(nst.lines.len(), max_lines) {
                    assert(nst.cur == Seq::<char>::empty());
                    assert(nst.lines.flatten() + nst.cur =~= st.lines.flatten() + st.cur + w);
                    lemma_strip_add(st.lines.flatten() + st.cur, w);
                }
            } else {
                let space: nat = if st.cur.len() == 0 {
                    0
                } else {
                    1
                };
                if utf8_len(st.cur) + space + utf8_len(w) <= max {
                    lemma_utf8_len_space();
                    lemma_utf8_len_concat(st.cur, seq![' ']);
                    if st.cur.len() == 0 {
                        assert(joined(st.cur, w) =~= w);
                        assert(st.lines.flatten() + joined(st.cur, w) =~= st.lines.flatten()
                            + st.cur + w);
                        lemma_strip_add(st.lines.flatten() + st.cur, w);
                    } else {
                        assert(joined(st.cur, w) =~= st.cur + seq![' '] + w);
                        let base = st.lines.flatten() + st.cur;
                        assert(st.lines.flatten() + joined(st.cur, w) =~= base + seq![' '] + w);
                        lemma_strip_add(base + seq![' '], w);
                        lemma_strip_add(base, seq![' ']);
                        lemma_strip_space();
                        assert(strip(base) + Seq::<char>::empty() =~= strip(base));
                    }
                } else {
                    assert(nst.lines.flatten() + nst.cur =~= st.lines.flatten() + st.cur + w);
                    lemma_strip_add(st.lines.flatten() + st.cur, w);
                }
            }
        } else {
            if !st.done && utf8_len(w) > max && !(st.cur.len() > 0 && st.lines.len() >= 8) {
                lemma_split_word_text(flushed(st.lines, st.cur), w, max, max_lines);
            }
        }
    }
}

/// Long words are broken over lines rather than cut, and no word is left
/// out: unless the line limit (`max_lines`, and at most eight) is reached,
/// the lines hold all of the quote's text, in order, but for whitespace.
/// This needs lines of at most 64 bytes, the size of a line buffer.
pub proof fn law_quote_lines_keep_text(quote: Seq<char>, max: nat, max_lines: nat)
    requires
        max <= 64,
        !lines_full(quote_lines(quote, max, max_lines).len(), max_lines),
    ensures
        strip(quote_lines(quote, max, max_lines).flatten()) == strip(quote),
{
    lemma_words_text(quote);
    lemma_wrap_text(words(quote), max, max_lines);
    let st = wrap_words(words(quote), max, max_lines);
    let out = quote_lines(quote, max, max_lines);
    lemma_flushed_text(st.lines, st.cur);
    if st.cur.len() > 0 && st.lines.len() < max_lines && st.lines.len() < 8 {
        assert(out == flushed(st.lines, st.cur));
    } else {
        assert(out == st.lines);
        assert(st.lines.flatten() + st.cur =~= st.lines.flatten());
    }
}

proof fn lemma_prefix_trans(a: Seq<char>, b: Seq<char>, c: Seq<char>)
    requires
        a.is_prefix_of(b),
        b.is_prefix_of(c),
    ensures
        a.is_prefix_of(c),
{
    assert(a =~= c.subrange(0, a.len() as int));
}

proof fn lemma_prefix_add(a: Seq<char>, b: Seq<char>)
    ensures
        a.is_prefix_of(a + b),
{
    assert(a =~= (a + b).subrange(0, a.len() as int));
}

/// Whitespace removed, a prefix stays a prefix.
proof fn lemma_strip_prefix(a: Seq<char>, b: Seq<char>)
    requires
        a.is_prefix_of(b),
    ensures
        strip(a).is_prefix_of(strip(b)),
{
    assert(b =~= a + b.skip(a.len() as int));
    lemma_strip_add(a, b.skip(a.len() as int));
    lemma_prefix_add(strip(a), strip(b.skip(a.len() as int)));
}

/// The pieces of a split word are a start of the word.
proof fn lemma_split_word_prefix(lines: Seq<Seq<char>>, rem: Seq<char>, max: nat, max_lines: nat)
    ensures
        split_word(lines, rem, max, max_lines).flatten().is_prefix_of(lines.flatten() + rem),
    decreases 8 - lines.len(),
{
    if rem.len() == 0 || lines.len() >= max_lines || lines.len() >= 8 {
        lemma_prefix_add(lines.flatten(), rem);
    } else {
        let k = fit_prefix(rem, max as int);
        lemma_fit_prefix(rem, max as int);
        let l2 = lines.push(rem.take(k as int));
        lemma_split_word_prefix(l2, rem.skip(k as int), max, max_lines);
        lines.lemma_flatten_push(rem.take(k as int));
        assert(l2.flatten() + rem.skip(k as int) =~= lines.flatten() + rem);
    }
}

/// Once the line limit is reached the lines stay as they are, and while
/// wrapping goes on at `max_lines` lines no line is being filled; the lines
/// hold a start of the words read, without whitespace.
proof fn lemma_wrap_prefix(ws: Seq<Seq<char>>, max: nat, max_lines: nat)
    requires
        max <= 64,
        forall|j: int| 0 <= j < ws.len() ==> no_space(#[trigger] ws[j]),
    ensures
        ({
            let st = wrap_words(ws, max, max_lines);
            &&& !st.done && st.lines.len() >= max_lines ==> st.cur.len() == 0
            &&& strip(st.lines.flatten()).is_prefix_of(ws.flatten())
        }),
    decreases ws.len(),
{
    if ws.len() == 0 {
        reveal(Seq::filter);
        assert(Seq::<Seq<char>>::empty().flatten() =~= Seq::<char>::empty());
    } else {
        let p = ws.drop_last();
        let w = ws.last();
        assert forall|j: int| 0 <= j < p.len() implies no_space(#[trigger] p[j]) by {
            assert(p[j] == ws[j]);
        }
        lemma_wrap_prefix(p, max, max_lines);
        lemma_wrap_text(p, max, max_lines);
        let st = wrap_words(p, max, max_lines);
        let nst = wrap_word(st, w, max, max_lines);
        assert(nst == wrap_words(ws, max, max_lines));
        assert(p.push(w) =~= ws);
        p.lemma_flatten_push(w);
        assert(no_space(w)) by {
            assert(ws[ws.len() - 1] == w);
        }
        lemma_strip_no_space(w);
        lemma_prefix_add(p.flatten(), w);
        lemma_flushed_text(st.lines, st.cur);
        if nst.lines == st.lines {
            lemma_prefix_trans(strip(st.lines.flatten()), p.flatten(), ws.flatten());
        } else {
            // The lines changed, so the limit was not reached before.
            assert(!lines_full(st.lines.len(), max_lines));
            let fl = flushed(st.lines, st.cur);
            assert(strip(fl.flatten()) == p.flatten());
            if utf8_len(w) > max {
                lemma_split_word_prefix(fl, w, max, max_lines);
                lemma_strip_prefix(nst.lines.flatten(), fl.flatten() + w);
                lemma_strip_add(fl.flatten(), w);
            } else {
                assert(nst.lines == fl);
                lemma_prefix_trans(strip(fl.flatten()), p.flatten(), ws.flatten());
            }
        }
    }
}

/// The lines never hold anything but the quote's text, in order: without
/// whitespace they are always a start of the quote without whitespace, also
/// when the line limit cut the quote short. This needs lines of at most 64
/// bytes, the size of a line buffer.
pub proof fn law_quote_lines_prefix(quote: Seq<char>, max: nat, max_lines: nat)
    requires
        max <= 64,
    ensures
        strip(quote_lines(quote, max, max_lines).flatten()).is_prefix_of(strip(quote)),
{
    lemma_words_text(quote);
    lemma_wrap_prefix(words(quote), max, max_lines);
    let st = wrap_words(words(quote), max, max_lines);
    let out = quote_lines(quote, max, max_lines);
    if st.cur.len() > 0 && st.lines.len() < max_lines && st.lines.len() < 8 {
        // Nothing was cut: the lines hold all of the quote's text.
        lemma_wrap_text(words(quote), max, max_lines);
        lemma_flushed_text(st.lines, st.cur);
        assert(out == flushed(st.lines, st.cur));
        lemma_prefix_add(strip(quote), Seq::<char>::empty());
        assert(strip(quote) + Seq::<char>::empty() =~= strip(quote));
    } else {
        assert(out == st.lines);
    }
}

/// A line as the layout makes it: not empty, with no whitespace at either
/// end, no whitespace but plain spaces, and never two spaces in a row.
pub open spec fn single_spaced(line: Seq<char>) -> bool {
    &&& line.len() > 0
    &&& !is_space(line[0])
    &&& !is_space(line[line.len() - 1])
    &&& forall|i: int| 0 <= i < line.len() && is_space(#[trigger] line[i]) ==> line[i] == ' '
    &&& forall|i: int, j: int|
        #![trigger line[i], line[j]]
        0 <= i && j == i + 1 && j < line.len() && is_space(line[i]) ==> !is_space(line[j])
}

proof fn lemma_no_space_spaced(s: Seq<char>)
    requires
        no_space(s),
        s.len() > 0,
    ensures
        single_spaced(s),
{
    assert(!is_space(s[0]));
    assert(!is_space(s[s.len() - 1]));
}

/// Two single-spaced pieces of text joined by one space are single-spaced.
proof fn lemma_join_spaced(a: Seq<char>, b: Seq<char>)
    requires
        single_spaced(a),
        no_space(b),
        b.len() > 0,
    ensures
        single_spaced(a + seq![' '] + b),
{
    let t = a + seq![' '] + b;
    let n = a.len() as int;
    assert(t[0] == a[0]);
    assert(t[t.len() - 1] == b[b.len() - 1]);
    assert forall|i: int| 0 <= i < t.len() && is_space(#[trigger] t[i]) implies t[i] == ' ' by {
        if i < n {
            assert(t[i] == a[i]);
        } else if i > n {
            assert(t[i] == b[i - n - 1]);
        }
    }
    assert forall|i: int, j: int|
        #![trigger t[i], t[j]]
        0 <= i && j == i + 1 && j < t.len() && is_space(t[i]) implies !is_space(t[j]) by {
        if j < n {
            assert(t[i] == a[i] && t[j] == a[j]);
        } else if j == n {
            assert(t[i] == a[n - 1]);
        } else if i == n {
            assert(t[j] == b[0]);
        } else {
            assert(t[i] == b[i - n - 1]);
        }
    }
}

proof fn lemma_words_acc_nonempty(s: Seq<char>)
    ensures
        forall|j: int| 0 <= j < words_acc(s).0.len() ==> (#[trigger] words_acc(s).0[j]).len() > 0,
    decreases s.len(),
{
    if s.len() > 0 {
        lemma_words_acc_nonempty(s.drop_last());
        let (ws, cur) = words_acc(s.drop_last());
        if is_space(s.last()) && cur.len() > 0 {
            assert forall|j: int| 0 <= j < ws.push(cur).len() implies (
            #[trigger] ws.push(cur)[j]).len() > 0 by {
                if j < ws.len() {
                    assert(ws.push(cur)[j] == ws[j]);
                }
            }
        }
    }
}

/// No word is empty.
pub proof fn lemma_words_nonempty(s: Seq<char>)
    ensures
        forall|j: int| 0 <= j < words(s).len() ==> (#[trigger] words(s)[j]).len() > 0,
{
    lemma_words_acc_nonempty(s);
    let (ws, cur) = words_acc(s);
    if cur.len() > 0 {
        assert forall|j: int| 0 <= j < ws.push(cur).len() implies (#[trigger] ws.push(cur)[j]).len()
            > 0 by {
            if j < ws.len() {
                assert(ws.push(cur)[j] == ws[j]);
            }
        }
    }
}

/// Every line is single-spaced.
pub open spec fn all_spaced(lines: Seq<Seq<char>>) -> bool {
    forall|i: int| 0 <= i < lines.len() ==> single_spaced(#[trigger] lines[i])
}

proof fn lemma_push_spaced(lines: Seq<Seq<char>>, l: Seq<char>)
    requires
        all_spaced(lines),
        single_spaced(l),
    ensures
        all_spaced(lines.push(l)),
{
    assert forall|i: int| 0 <= i < lines.push(l).len() implies single_spaced(
        #[trigger] lines.push(l)[i],
    ) by {
        if i < lines.len() {
            assert(lines.push(l)[i] == lines[i]);
        }
    }
}

proof fn lemma_split_word_spaced(lines: Seq<Seq<char>>, rem: Seq<char>, max: nat, max_lines: nat)
    requires
        4 <= max,
        all_spaced(lines),
        no_space(rem),
    ensures
        all_spaced(split_word(lines, rem, max, max_lines)),
    decreases 8 - lines.len(),
{
    if !(rem.len() == 0 || lines.len() >= max_lines || lines.len() >= 8) {
        let k = fit_prefix(rem, max as int);
        lemma_fit_prefix(rem, max as int);
        lemma_char_width_bounds(rem[0]);
        assert(k >= 1);
        let piece = rem.take(k as int);
        assert(no_space(piece)) by {
            assert forall|i: int| 0 <= i < piece.len() implies !is_space(#[trigger] piece[i]) by {
                assert(piece[i] == rem[i]);
            }
        }
        lemma_no_space_spaced(piece);
        lemma_push_spaced(lines, piece);
        assert(no_space(rem.skip(k as int))) by {
            assert forall|i: int| 0 <= i < rem.skip(k as int).len() implies !is_space(
                #[trigger] rem.skip(k as int)[i],
            ) by {
                assert(rem.skip(k as int)[i] == rem[i + k]);
            }
        }
        lemma_split_word_spaced(lines.push(piece), rem.skip(k as int), max, max_lines);
    }
}

proof fn lemma_wrap_spaced(ws: Seq<Seq<char>>, max: nat, max_lines: nat)
    requires
        4 <= max <= 64,
        forall|j: int| 0 <= j < ws.len() ==> no_space(#[trigger] ws[j]) && ws[j].len() > 0,
    ensures
        all_spaced(wrap_words(ws, max, max_lines).lines),
        wrap_words(ws, max, max_lines).cur.len() == 0 || single_spaced(
            wrap_words(ws, max, max_lines).cur,
        ),
    decreases ws.len(),
{
    if ws.len() > 0 {
        let p = ws.drop_last();
        let w = ws.last();
        assert forall|j: int| 0 <= j < p.len() implies no_space(#[trigger] p[j]) && p[j].len()
            > 0 by {
            assert(p[j] == ws[j]);
        }
        lemma_wrap_spaced(p, max, max_lines);
        let st = wrap_words(p, max, max_lines);
        assert(no_space(w) && w.len() > 0) by {
            assert(ws[ws.len() - 1] == w);
        }
        lemma_no_space_spaced(w);
        let fl = flushed(st.lines, st.cur);
        assert(all_spaced(fl)) by {
            if st.cur.len() > 0 {
                lemma_push_spaced(st.lines, st.cur);
            }
        }
        if !st.done {
            if utf8_len(w) > max {
                lemma_split_word_spaced(fl, w, max, max_lines);
            } else {
                let space: nat = if st.cur.len() == 0 {
                    0
                } else {
                    1
                };
                if utf8_len(st.cur) + space + utf8_len(w) <= max {
                    lemma_utf8_len_space();
                    lemma_utf8_len_concat(st.cur, seq![' ']);
                    if st.cur.len() == 0 {
                        assert(joined(st.cur, w) =~= w);
                    } else {
                        assert(joined(st.cur, w) =~= st.cur + seq![' '] + w);
                        lemma_join_spaced(st.cur, w);
                    }
                }
            }
        }
    }
}

/// Every line the layout gives is single-spaced and not empty: words are
/// joined by one space, and the pieces of a split word are never empty.
/// This needs lines of at least 4 bytes (the widest character) and at most
/// 64 (a line buffer).
pub proof fn law_quote_lines_single_spaced(quote: Seq<char>, max: nat, max_lines: nat)
    requires
        4 <= max <= 64,
    ensures
        forall|i: int|
            0 <= i < quote_lines(quote, max, max_lines).len() ==> single_spaced(
                #[trigger] quote_lines(quote, max, max_lines)[i],
            ),
{
    lemma_words_text(quote);
    lemma_words_nonempty(quote);
    lemma_wrap_spaced(words(quote), max, max_lines);
    let st = wrap_words(words(quote), max, max_lines);
    if st.cur.len() > 0 && st.lines.len() < max_lines && st.lines.len() < 8 {
        lemma_push_spaced(st.lines, st.cur);
    }
    assert(all_spaced(quote_lines(quote, max, max_lines)));
}

/// Where the words of `cs` are: their start and end positions.
fn word_ranges(cs: &Vec<char>) -> (r: Vec<(usize, usize)>)
    ensures
        r@.len() == words(cs@).len(),
        forall|j: int|
            0 <= j < r@.len() ==> {
                let (a, b) = #[trigger] r@[j];
                &&& a <= b <= cs@.len()
                &&& cs@.subrange(a as int, b as int) == words(cs@)[j]
            },
{
    let mut r: Vec<(usize, usize)> = Vec::new();
    let mut start: usize = 0;
    let ghost mut gws: Seq<Seq<char>> = Seq::empty();
    let mut i: usize = 0;
    while i < cs.len()
        invariant
            start <= i <= cs@.len(),
            (gws, cs@.subrange(start as int, i as int)) == words_acc(cs@.take(i as int)),
            r@.len() == gws.len(),
            forall|j: int|
                0 <= j < r@.len() ==> {
                    let (a, b) = #[trigger] r@[j];
                    &&& a <= b <= cs@.len()
                    &&& cs@.subrange(a as int, b as int) == gws[j]
                },
        decreases cs@.len() - i,
    {
        let c = cs[i];
        proof {
            assert(cs@.take(i + 1).drop_last() =~= cs@.take(i as int));
            assert(cs@.take(i + 1).last() == c);
        }
        if is_space_exec(c) {
            if start < i {
                proof {
                    gws = gws.push(cs@.subrange(start as int, i as int));
                }
                r.push((start, i));
            }
            start = i + 1;
            assert(cs@.subrange(start as int, i + 1) =~= Seq::<char>::empty());
        } else {
            assert(cs@.subrange(start as int, i + 1) =~= cs@.subrange(start as int, i as int).push(
                c,
            ));
        }
        i = i + 1;
    }
    assert(cs@.take(cs@.len() as int) =~= cs@);
    if start < cs.len() {
        proof {
            gws = gws.push(cs@.subrange(start as int, cs@.len() as int));
        }
        r.push((start, cs.len()));
    }
    r
}

/// `fit_prefix(cs[from..to], max)`: how many characters from `from` on fit
/// in `max` bytes.
fn fit_prefix_exec(cs: &Vec<char>, from: usize, to: usize, max: usize) -> (k: usize)
    requires
        from <= to <= cs@.len(),
    ensures
        k == fit_prefix(cs@.subrange(from as int, to as int), max as int),
        from + k <= to,
{
    let ghost w = cs@.subrange(from as int, to as int);
    let mut k: usize = 0;
    let mut budget = max;
    assert(w.skip(0) =~= w);
    while from + k < to && char_width_exec(cs[from + k]) <= budget
        invariant
            from + k <= to <= cs@.len(),
            w == cs@.subrange(from as int, to as int),
            budget <= max,
            fit_prefix(w, max as int) == k + fit_prefix(w.skip(k as int), budget as int),
        decreases to - from - k,
    {
        let c = cs[from + k];
        let cw = char_width_exec(c);
        proof {
            assert(w.skip(k as int).drop_first() =~= w.skip(k + 1));
            assert(w.skip(k as int)[0] == c);
        }
        budget = budget - cw;
        k = k + 1;
    }
    proof {
        if from + k >= to {
            assert(w.skip(k as int).len() == 0);
        } else {
            assert(w.skip(k as int)[0] == cs@[from + k]);
        }
    }
    k
}

/// Formats a quote into displayable lines with configurable parameters
///
/// # Arguments
/// * `quote` - The quote text to format
/// * `max_chars_per_line` - Maximum bytes per line (default: 20)
/// * `max_lines` - Maximum number of lines to generate (default: 8); the
///   result holds at most eight
///
/// Words longer than a line are broken over several lines instead of being
/// truncated. The quote may hold at most 64 words, and each line is built in
/// a 64-byte buffer: with lines longer than 64 bytes, a word that starts a
/// line and each piece of a split word must fit in one (see
/// [`layout_fits`]; this always holds for lines of at most 64 bytes).
pub fn format_quote_lines(quote: &str, max_chars_per_line: usize, max_lines: usize) -> (lines:
    heapless::Vec<heapless::String<64>, 8>)
    requires
        words(quote@).len() <= 64,
        layout_fits(words(quote@), max_chars_per_line as nat, max_lines as nat),
    ensures
        lines_text(lines) == quote_lines(quote@, max_chars_per_line as nat, max_lines as nat),
{
    let cs = chars_of(quote);
    let ranges = word_ranges(&cs);
    let ghost all = words(quote@);
    let max = max_chars_per_line;
    let mut out = lines_new();
    let mut nlines: usize = 0;
    let mut current_line = text64_new();
    let mut cur_len: usize = 0;
    let mut done = false;
    let mut wi: usize = 0;
    while wi < ranges.len() && !done
        invariant
            cs@ == quote@,
            all == words(quote@),
            layout_fits(all, max as nat, max_lines as nat),
            ranges@.len() == all.len(),
            forall|j: int|
                0 <= j < ranges@.len() ==> {
                    let (a, b) = #[trigger] ranges@[j];
                    &&& a <= b <= cs@.len()
                    &&& cs@.subrange(a as int, b as int) == all[j]
                },
            wi <= ranges@.len(),
            wrap_words(all.take(wi as int), max as nat, max_lines as nat) == (Wrap {
                lines: lines_text(out),
                cur: text64(current_line),
                done: done,
            }),
            nlines == lines_text(out).len(),
            nlines <= 8,
            cur_len == utf8_len(text64(current_line)),
            cur_len <= 64,
        decreases ranges@.len() - wi,
    {
        let (a, b) = ranges[wi];
        let word = quote.substring_char(a, b);
        let ghost prev = wrap_words(all.take(wi as int), max as nat, max_lines as nat);
        let ghost w = all[wi as int];
        proof {
            assert(all.take(wi + 1).drop_last() =~= all.take(wi as int));
            assert(all.take(wi + 1).last() == w);
            assert(word@ == w);
            lemma_layout_fits_prefix(all, wi + 1, max as nat, max_lines as nat);
            assert(word_fits_buffer(prev, w, max as nat, max_lines as nat));
            crate::text::lemma_utf8_len_ge_len(prev.cur);
        }
        let word_len = byte_len(word);
        // Handle words that are too long to fit on a single line
        if word_len > max {
            if cur_len > 0 && nlines >= 8 {
                done = true;  // No more lines available
            } else {
                if cur_len > 0 {
                    let line = current_line;
                    current_line = text64_new();
                    let _ = lines_push(&mut out, line);
                    nlines = nlines + 1;
                }
                current_line = text64_new();
                cur_len = 0;
                // Break the long word into multiple lines instead of truncating
                let mut pos = a;
                assert(w.skip(0) =~= w);
                while pos < b && nlines < max_lines && nlines < 8
                    invariant
                        a <= pos <= b <= cs@.len(),
                        cs@ == quote@,
                        w == cs@.subrange(a as int, b as int),
                        nlines == lines_text(out).len(),
                        nlines <= 8,
                        pieces_fit(lines_text(out), w.skip(pos - a), max as nat, max_lines as nat),
                        split_word(flushed(prev.lines, prev.cur), w, max as nat, max_lines as nat)
                            == split_word(
                            lines_text(out),
                            w.skip(pos - a),
                            max as nat,
                            max_lines as nat,
                        ),
                    decreases 8 - nlines,
                {
                    let k = fit_prefix_exec(&cs, pos, b, max);
                    let chunk = quote.substring_char(pos, pos + k);
                    proof {
                        assert(cs@.subrange(pos as int, b as int) =~= w.skip(pos - a));
                        assert(w.skip(pos - a).take(k as int) =~= cs@.subrange(
                            pos as int,
                            pos + k,
                        ));
                        assert(w.skip(pos - a).skip(k as int) =~= w.skip(pos + k - a));
                    }
                    let piece = match text64_try_from(chunk) {
                        Ok(p) => p,
                        Err(_) => vstd::pervasive::unreached(),
                    };
                    let _ = lines_push(&mut out, piece);
                    nlines = nlines + 1;
                    pos = pos + k;
                }
                proof {
                    assert(w.skip(pos - a).len() == 0 || nlines >= max_lines || nlines >= 8);
                }
            }
        } else {
            // Account for space character when checking length
            let space_needed: usize = if cur_len == 0 {
                0
            } else {
                1
            };
            let used = cur_len + space_needed;
            if used <= max && word_len <= max - used {
                // Add word to current line
                let ghost before = text64(current_line);
                if cur_len > 0 {
                    proof {
                        lemma_utf8_len_push(before, ' ');
                        lemma_char_width_bounds(' ');
                        assert(before.push(' ') =~= before + seq![' ']);
                        lemma_utf8_len_push(Seq::<char>::empty(), ' ');
                        assert(Seq::<char>::empty().push(' ') =~= seq![' ']);
                    }
                    if text64_push(&mut current_line, ' ').is_ok() {
                        cur_len = cur_len + 1;
                    }
                }
                let ghost mid = text64(current_line);
                proof {
                    lemma_utf8_len_concat(mid, word@);
                }
                if text64_push_str(&mut current_line, word).is_ok() {
                    cur_len = cur_len + word_len;
                }
                if nlines >= max_lines {
                    done = true;
                }
            } else if cur_len > 0 && nlines >= 8 {
                done = true;  // No more lines available
            } else {
                if cur_len > 0 {
                    let line = current_line;
                    current_line = text64_new();
                    let _ = lines_push(&mut out, line);
                    nlines = nlines + 1;
                }
                current_line = match text64_try_from(word) {
                    Ok(l) => l,
                    Err(_) => vstd::pervasive::unreached(),
                };
                cur_len = word_len;
                // Stop once the maximum number of lines is reached
                if nlines >= max_lines {
                    done = true;
                }
            }
        }
        wi = wi + 1;
    }
    proof {
        if done {
            lemma_wrap_done(all, wi as int, max as nat, max_lines as nat);
        } else {
            assert(all.take(wi as int) =~= all);
        }
        crate::text::lemma_utf8_len_ge_len(text64(current_line));
    }
    if cur_len > 0 && nlines < max_lines {
        let _ = lines_push(&mut out, current_line);
    }
    out
}

} // verus!
