//! What the display shows in each state, as texts at positions on the
//! 128x32 screen (6x10 font); the caller draws them.
use vstd::prelude::*;

use crate::bounded::{lines_get, lines_len, lines_text, text128, text128_as_str, text16, text16_as_str, text64, text64_as_str};
use crate::text::{byte_len, utf8_len};
use crate::util::{format_quote_lines, format_time, lemma_layout_fits, lemma_words_fit, quote_lines, time_text, words};
use crate::{wf, GadgetView, SmartGadget, State};

verus! {

/// A text to draw with its baseline-left corner at `(x, y)`.
pub struct TextItem {
    pub text: String,
    pub x: i32,
    pub y: i32,
}

/// A text to draw and its position, as mathematical values.
pub struct TextAt {
    pub text: Seq<char>,
    pub x: int,
    pub y: int,
}

impl View for TextItem {
    type V = TextAt;

    open spec fn view(&self) -> TextAt {
        TextAt { text: self.text@, x: self.x as int, y: self.y as int }
    }
}

pub open spec fn texts_view(v: Seq<TextItem>) -> Seq<TextAt> {
    v.map_values(|t: TextItem| t@)
}

/// The lines of a quote as laid out for the screen: 20 bytes per line, at
/// most 8 lines.
pub open spec fn screen_lines(quote: Seq<char>) -> Seq<Seq<char>> {
    quote_lines(quote, 20, 8)
}

/// How many quote lines are shown at once: two when the quote scrolls (more
/// than three lines), three otherwise.
pub open spec fn lines_shown(n: int) -> int {
    if n > 3 {
        2
    } else {
        3
    }
}

/// The quote screen: the lines from `offset` on, as many as are shown, one
/// every 10 pixels from y = 8; a scroll indicator when the quote has more
/// than three lines; the instruction when it has at most two.
pub open spec fn quote_screen_spec(lines: Seq<Seq<char>>, offset: int) -> Seq<TextAt> {
    let n = lines.len() as int;
    let start = if offset < n {
        offset
    } else {
        n
    };
    let end = if start + lines_shown(n) < n {
        start + lines_shown(n)
    } else {
        n
    };
    Seq::new((end - start) as nat, |i: int| TextAt { text: lines[start + i], x: 2, y: 8 + 10 * i })
        + (if n > 3 {
        seq![TextAt { text: "..."@, x: 110, y: 28 }]
    } else {
        Seq::empty()
    }) + (if n <= 2 {
        seq![TextAt { text: "Press for next"@, x: 2, y: 28 }]
    } else {
        Seq::empty()
    })
}

/// The countdown screen: a label and the time left as `MM:SS`.
pub open spec fn countdown_screen_spec(seconds: u32) -> Seq<TextAt> {
    seq![
        TextAt { text: "COUNTDOWN"@, x: 20, y: 8 },
        TextAt { text: time_text(seconds as nat, false), x: 35, y: 22 },
    ]
}

/// What the screen shows in `state`.
pub open spec fn screen_spec(state: State, g: GadgetView) -> Seq<TextAt> {
    match state {
        State::DisplayingQuote => quote_screen_spec(screen_lines(g.quote), g.offset),
        State::DisplayingCountdown => countdown_screen_spec(g.seconds),
    }
}

fn item(text: &str, x: i32, y: i32) -> (t: TextItem)
    ensures
        t@ == (TextAt { text: text@, x: x as int, y: y as int }),
{
    TextItem { text: text.to_owned(), x, y }
}

/// The lines of the current quote, laid out for the screen.
fn quote_lines_of(gadget: &SmartGadget) -> (lines: heapless::Vec<heapless::String<64>, 8>)
    ensures
        lines_text(lines) == screen_lines(gadget@.quote),
{
    let q = text128_as_str(&gadget.current_quote);
    proof {
        lemma_words_fit(q@);
        lemma_layout_fits(words(q@), 20, 8);
    }
    format_quote_lines(q, 20, 8)
}

/// Render quote display state
fn render_quote(gadget: &SmartGadget) -> (items: Vec<TextItem>)
    ensures
        texts_view(items@) == quote_screen_spec(screen_lines(gadget@.quote), gadget@.offset),
{
    // Split quote into lines for display
    let lines = quote_lines_of(gadget);
    let n = lines_len(&lines);
    // Display current lines based on scroll offset
    let start = if gadget.quote_line_offset < n {
        gadget.quote_line_offset
    } else {
        n
    };
    // Optimized layout for 128x32 screen with 6x10 font
    let lines_to_display: usize = if n > 3 {
        2
    } else {
        3
    };
    let end = if start + lines_to_display < n {
        start + lines_to_display
    } else {
        n
    };
    let ghost expected = quote_screen_spec(screen_lines(gadget@.quote), gadget@.offset);
    let ghost shown = Seq::new(
        (end - start) as nat,
        |i: int| TextAt { text: lines_text(lines)[start + i], x: 2, y: 8 + 10 * i },
    );
    let mut items: Vec<TextItem> = Vec::new();
    let mut i = start;
    while i < end
        invariant
            start <= i <= end <= n <= 8,
            n == lines_text(lines).len(),
            texts_view(items@) =~= shown.take(i - start),
            shown == Seq::new(
                (end - start) as nat,
                |k: int| TextAt { text: lines_text(lines)[start + k], x: 2, y: 8 + 10 * k },
            ),
        decreases end - i,
    {
        let line = lines_get(&lines, i);
        // y=8 for first line, then +10 for each subsequent line
        let y: i32 = 8 + 10 * ((i - start) as i32);
        let t = item(text64_as_str(line), 2, y);
        let ghost before = items@;
        items.push(t);
        proof {
            assert(items@ =~= before.push(t));
            assert(texts_view(items@) =~= texts_view(before).push(t@));
            assert(t@ == shown[i - start]);
        }
        i = i + 1;
        assert(texts_view(items@) =~= shown.take(i - start));
    }
    assert(shown.take(end - start) =~= shown);
    let ghost base = texts_view(items@);
    // Show scroll indicator if there are more than 3 lines
    if n > 3 {
        let t = item("...", 110, 28);
        let ghost before = items@;
        items.push(t);
        assert(items@ =~= before.push(t));
        assert(texts_view(items@) =~= texts_view(before).push(t@));
    }
    let ghost mid = texts_view(items@);
    assert(mid =~= base + (if n > 3 {
        seq![TextAt { text: "..."@, x: 110, y: 28 }]
    } else {
        Seq::empty()
    }));
    // Show instruction only if we have 2 lines or less
    if n <= 2 {
        let t = item("Press for next", 2, 28);
        let ghost before = items@;
        items.push(t);
        assert(items@ =~= before.push(t));
        assert(texts_view(items@) =~= texts_view(before).push(t@));
    }
    assert(texts_view(items@) =~= mid + (if n <= 2 {
        seq![TextAt { text: "Press for next"@, x: 2, y: 28 }]
    } else {
        Seq::empty()
    }));
    assert(texts_view(items@) =~= expected);
    items
}

/// Render countdown display state
fn render_countdown(gadget: &SmartGadget) -> (items: Vec<TextItem>)
    ensures
        texts_view(items@) == countdown_screen_spec(gadget@.seconds),
{
    let mut items: Vec<TextItem> = Vec::new();
    // Display "COUNTDOWN" label - centered for 128x32 screen
    let t1 = item("COUNTDOWN", 20, 8);
    items.push(t1);
    // Format and display the countdown time
    let countdown_string = format_time(gadget.countdown_seconds, false);
    let t2 = item(text16_as_str(&countdown_string), 35, 22);
    items.push(t2);
    assert(items@ =~= seq![t1, t2]);
    assert(texts_view(items@) =~= countdown_screen_spec(gadget@.seconds));
    items
}

/// The texts to draw for `state`, after clearing the display.
pub fn screen_texts(state: &State, gadget: &SmartGadget) -> (items: Vec<TextItem>)
    ensures
        texts_view(items@) == screen_spec(*state, gadget@),
{
    match state {
        State::DisplayingQuote => render_quote(gadget),
        State::DisplayingCountdown => render_countdown(gadget),
    }
}

/// Width of a glyph of the large price font (`FONT_10X20`), in pixels.
pub const PRICE_FONT_WIDTH: i32 = 10;

/// Height of the row of the horizontal rule under the price screen's header.
pub const HEADER_RULE_Y: i32 = 10;

/// The longest price text, in bytes, whose width in pixels fits in an `i32`.
pub const MAX_PRICE_TEXT_LEN: usize = 214748364;

/// The price screen: the asset label at the top left, the status at the top
/// right (a 5-pixel font, 2 pixels from the edge), and the price in the
/// large font, centred on the 128-pixel width with its baseline on the last row.
pub open spec fn price_screen_spec(label: Seq<char>, price: Seq<char>) -> Seq<TextAt> {
    seq![
        TextAt { text: label, x: 2, y: 7 },
        TextAt { text: "LIVE"@, x: 128 - 4 * 5 - 2, y: 7 },
        TextAt { text: price, x: (128 - 10 * utf8_len(price)) / 2, y: 31 },
    ]
}

/// A quote of at most three lines is shown whole from its start: with the
/// offset at 0, each of its lines `i` stands at (2, 8 + 10 * i), one under
/// the other, before anything else on the screen.
pub proof fn law_short_quote_shown_whole(lines: Seq<Seq<char>>)
    requires
        lines.len() <= 3,
    ensures
        quote_screen_spec(lines, 0).len() >= lines.len(),
        forall|i: int|
            0 <= i < lines.len() ==> #[trigger] quote_screen_spec(lines, 0)[i] == (TextAt {
                text: lines[i],
                x: 2,
                y: 8 + 10 * i,
            }),
{
}

/// Scrolling a long quote (more than three lines, two shown at a time)
/// cycles its first shown line through the `n - 1` starts from which two
/// whole lines fit: after a scroll the screen shows the two lines from the
/// new offset, one under the other, and the scroll indicator.
pub proof fn law_scroll_window_full(lines: Seq<Seq<char>>, offset: int)
    requires
        lines.len() > 3,
        0 <= offset,
    ensures
        ({
            let o = (offset + 1) % (lines.len() - 1);
            &&& 0 <= o <= lines.len() - 2
            &&& quote_screen_spec(lines, o) == seq![
                TextAt { text: lines[o], x: 2, y: 8 },
                TextAt { text: lines[o + 1], x: 2, y: 18 },
                TextAt { text: "..."@, x: 110, y: 28 },
            ]
        }),
{
    let n = lines.len() as int;
    let o = (offset + 1) % (n - 1);
    vstd::arithmetic::div_mod::lemma_mod_bound(offset + 1, n - 1);
    assert(quote_screen_spec(lines, o) =~= seq![
        TextAt { text: lines[o], x: 2, y: 8 },
        TextAt { text: lines[o + 1], x: 2, y: 18 },
        TextAt { text: "..."@, x: 110, y: 28 },
    ]);
}

/// Where a price of `len` bytes starts so that it is centred on the screen.
fn price_text_x(len: usize) -> (x: i32)
    requires
        len <= MAX_PRICE_TEXT_LEN,
    ensures
        x == (128 - 10 * len) / 2,
{
    let price_width: i32 = (len as i32) * PRICE_FONT_WIDTH;
    if price_width <= 128 {
        (128 - price_width) / 2
    } else {
        // The width is even, so halving the overhang is exact.
        let over: i32 = price_width - 128;
        assert(over / 2 == 5 * len - 64);
        assert((128 - 10 * len) / 2 == 64 - 5 * len);
        0 - over / 2
    }
}

/// The texts of the price screen for `asset_label` and `price_text`; the
/// caller draws the label and status in the small font, the header rule at
/// [`HEADER_RULE_Y`], and the price in the large one.
pub fn price_screen_texts(asset_label: &str, price_text: &str) -> (items: Vec<TextItem>)
    requires
        utf8_len(price_text@) <= MAX_PRICE_TEXT_LEN,
    ensures
        texts_view(items@) == price_screen_spec(asset_label@, price_text@),
{
    proof {
        reveal_strlit("LIVE");
    }
    let status_x: i32 = 128 - 4 * 5 - 2;
    let price_x = price_text_x(byte_len(price_text));
    let mut items: Vec<TextItem> = Vec::new();
    let t1 = item(asset_label, 2, 7);
    items.push(t1);
    let t2 = item("LIVE", status_x, 7);
    items.push(t2);
    let t3 = item(price_text, price_x, 31);
    items.push(t3);
    assert(items@ =~= seq![t1, t2, t3]);
    assert(texts_view(items@) =~= price_screen_spec(asset_label@, price_text@));
    items
}

/// Handle auto-scrolling for long quotes
/// Returns true if scrolling occurred, false otherwise
pub fn handle_auto_scroll(gadget: &mut SmartGadget, counter: u32) -> (scrolled: bool)
    requires
        counter % 40 == 0 && screen_lines(old(gadget)@.quote).len() > 3
            ==> old(gadget).quote_line_offset < usize::MAX,
    ensures
        scrolled == (counter % 40 == 0 && screen_lines(old(gadget)@.quote).len() > 3),
        scrolled ==> final(gadget)@ == (GadgetView {
            offset: (old(gadget)@.offset + 1) % (screen_lines(old(gadget)@.quote).len() - 1),
            ..old(gadget)@
        }),
        !scrolled ==> final(gadget)@ == old(gadget)@,
{
    let lines = quote_lines_of(gadget);
    let n = lines_len(&lines);
    // Auto-scroll through long quotes every 4 seconds for better readability
    if counter % 40 == 0 && n > 3 {
        gadget.scroll_quote(n);
        return true;
    }
    false
}

} // verus!
