//! The logic of a small display gadget: a quote viewer with a countdown
//! timer and an asset price mode, with the text formatting, HTTP and JSON
//! handling it needs. Hardware access (display, timers, WiFi, TLS) stays with
//! the caller, which drives the decisions made here.
use vstd::prelude::*;

pub mod bounded;
pub mod hardware;
pub mod http;
pub mod price;
pub mod renderer;
pub mod text;
pub mod util;
pub mod wifi;

use crate::bounded::{text128, text128_try_from};
use crate::text::{lemma_utf8_len_ascii, utf8_len};

verus! {

#[derive(Debug, Clone, Copy, PartialEq, Eq, Structural)]
pub enum State {
    DisplayingQuote,
    DisplayingCountdown,
}

#[derive(Debug, Clone, Copy, PartialEq, Eq, Structural)]
pub enum Event {
    ButtonPress,
    StartCountdown,
    CountdownTick,
    CountdownFinished,
}

pub struct SmartGadget {
    pub state: State,
    pub current_quote: heapless::String<128>,
    pub quotes: &'static [&'static str],
    pub current_quote_index: usize,
    pub countdown_seconds: u32,
    pub countdown_original: u32,
    pub quote_line_offset: usize,  // For scrolling through long quotes
}

/// What a gadget holds, as mathematical values.
pub struct GadgetView {
    pub state: State,
    pub quote: Seq<char>,
    pub quotes: Seq<Seq<char>>,
    pub index: int,
    pub seconds: u32,
    pub duration: u32,
    pub offset: int,
}

/// The texts of a list of quotes.
pub open spec fn quote_texts(q: &[&str]) -> Seq<Seq<char>> {
    q@.map_values(|t: &str| t@)
}

impl View for SmartGadget {
    type V = GadgetView;

    open spec fn view(&self) -> GadgetView {
        GadgetView {
            state: self.state,
            quote: text128(self.current_quote),
            quotes: quote_texts(self.quotes),
            index: self.current_quote_index as int,
            seconds: self.countdown_seconds,
            duration: self.countdown_original,
            offset: self.quote_line_offset as int,
        }
    }
}

/// The duration of the countdown that `StartCountdown` starts: a
/// 25-minute session, in seconds.
pub open spec fn countdown_length() -> u32 {
    1500
}

/// A gadget can step through its quotes: there is at least one, the index
/// points at one, and each fits in the 128-byte current-quote buffer.
pub open spec fn wf(g: GadgetView) -> bool {
    &&& g.quotes.len() > 0
    &&& 0 <= g.index < g.quotes.len()
    &&& forall|i: int| 0 <= i < g.quotes.len() ==> utf8_len(#[trigger] g.quotes[i]) <= 128
}

/// The gadget can move on to the next quote: its index points at a quote,
/// and that quote fits in the 128-byte current-quote buffer.
pub open spec fn can_advance(g: GadgetView) -> bool {
    &&& 0 <= g.index < g.quotes.len()
    &&& utf8_len(g.quotes[g.index]) <= 128
}

/// The place of the quote on display: the one just before the index, which
/// always points at the quote a press shows next.
pub open spec fn displayed(g: GadgetView) -> int {
    (g.index + g.quotes.len() - 1) % (g.quotes.len() as int)
}

/// The index and the quote on display agree: the index points just past the
/// quote shown.
pub open spec fn in_step(g: GadgetView) -> bool {
    g.quote == g.quotes[displayed(g)]
}

/// The gadget after it has moved on to the next quote: the quote at the
/// index (the one after the quote on display) is shown, the index moves on
/// cyclically, and scrolling restarts.
pub open spec fn next_quote(g: GadgetView) -> GadgetView {
    GadgetView {
        quote: g.quotes[g.index],
        index: (g.index + 1) % (g.quotes.len() as int),
        offset: 0,
        ..g
    }
}

/// How the gadget answers an event.
pub open spec fn step(g: GadgetView, e: Event) -> GadgetView {
    match (g.state, e) {
        (State::DisplayingQuote, Event::ButtonPress) => next_quote(g),
        (State::DisplayingQuote, Event::StartCountdown) => GadgetView {
            state: State::DisplayingCountdown,
            seconds: countdown_length(),
            duration: countdown_length(),
            ..g
        },
        (State::DisplayingCountdown, Event::ButtonPress) => GadgetView {
            state: State::DisplayingQuote,
            ..g
        },
        (State::DisplayingCountdown, Event::CountdownTick) => if g.seconds > 0 {
            GadgetView { seconds: (g.seconds - 1) as u32, ..g }
        } else {
            GadgetView { state: State::DisplayingQuote, ..g }
        },
        (State::DisplayingCountdown, Event::CountdownFinished) => GadgetView {
            state: State::DisplayingQuote,
            ..g
        },
        _ => g,
    }
}

pub open spec fn event_rank(e: Event) -> nat {
    if e == Event::CountdownTick {
        1
    } else {
        0
    }
}

/// The quotes a new gadget shows.
pub open spec fn default_quotes() -> Seq<Seq<char>> {
    seq![
        "The only way to do great work is to love what you do."@,
        "Life is what happens when you're busy making other plans."@,
        "Success is not final, failure is not fatal: it is the courage to continue that counts."@,
        "The future belongs to those who believe in the beauty of their dreams."@,
        "In the middle of difficulty lies opportunity."@,
        "Don't watch the clock; do what it does. Keep going."@,
        "The best way to predict the future is to invent it."@,
        "Everything you've ever wanted is on the other side of fear."@,
    ]
}

proof fn lemma_default_quotes_fit(quotes: &[&str])
    requires
        quotes@ == seq![
            "The only way to do great work is to love what you do.",
            "Life is what happens when you're busy making other plans.",
            "Success is not final, failure is not fatal: it is the courage to continue that counts.",
            "The future belongs to those who believe in the beauty of their dreams.",
            "In the middle of difficulty lies opportunity.",
            "Don't watch the clock; do what it does. Keep going.",
            "The best way to predict the future is to invent it.",
            "Everything you've ever wanted is on the other side of fear.",
        ],
    ensures
        quote_texts(quotes) == default_quotes(),
        forall|i: int| 0 <= i < quote_texts(quotes).len() ==> utf8_len(#[trigger] quote_texts(quotes)[i]) <= 128,
{
    assert(quote_texts(quotes) =~= default_quotes());
    reveal_strlit("The only way to do great work is to love what you do.");
    lemma_utf8_len_ascii("The only way to do great work is to love what you do."@);
    reveal_strlit("Life is what happens when you're busy making other plans.");
    lemma_utf8_len_ascii("Life is what happens when you're busy making other plans."@);
    reveal_strlit("Success is not final, failure is not fatal: it is the courage to continue that counts.");
    lemma_utf8_len_ascii("Success is not final, failure is not fatal: it is the courage to continue that counts."@);
    reveal_strlit("The future belongs to those who believe in the beauty of their dreams.");
    lemma_utf8_len_ascii("The future belongs to those who believe in the beauty of their dreams."@);
    reveal_strlit("In the middle of difficulty lies opportunity.");
    lemma_utf8_len_ascii("In the middle of difficulty lies opportunity."@);
    reveal_strlit("Don't watch the clock; do what it does. Keep going.");
    lemma_utf8_len_ascii("Don't watch the clock; do what it does. Keep going."@);
    reveal_strlit("The best way to predict the future is to invent it.");
    lemma_utf8_len_ascii("The best way to predict the future is to invent it."@);
    reveal_strlit("Everything you've ever wanted is on the other side of fear.");
    lemma_utf8_len_ascii("Everything you've ever wanted is on the other side of fear."@);
    assert forall|i: int| 0 <= i < quote_texts(quotes).len() implies utf8_len(
        #[trigger] quote_texts(quotes)[i],
    ) <= 128 by {
        assert(quote_texts(quotes)[i] == default_quotes()[i]);
    }
}

impl SmartGadget {
    pub fn new() -> (g: Self)
        ensures
            wf(g@),
            g@.quotes == default_quotes(),
            g@.state == State::DisplayingQuote,
            g@.quote == default_quotes()[0],
            g@.index == 1,
            in_step(g@),
            displayed(g@) == 0,
            g@.seconds == 0,
            g@.duration == 0,
            g@.offset == 0,
    {
        let quotes: &'static [&'static str] = &[
            "The only way to do great work is to love what you do.",
            "Life is what happens when you're busy making other plans.",
            "Success is not final, failure is not fatal: it is the courage to continue that counts.",
            "The future belongs to those who believe in the beauty of their dreams.",
            "In the middle of difficulty lies opportunity.",
            "Don't watch the clock; do what it does. Keep going.",
            "The best way to predict the future is to invent it.",
            "Everything you've ever wanted is on the other side of fear.",
        ];
        proof {
            lemma_default_quotes_fit(quotes);
        }
        let q0 = quotes[0];
        let current_quote = match text128_try_from(q0) {
            Ok(s) => s,
            Err(_) => vstd::pervasive::unreached(),
        };
        Self {
            state: State::DisplayingQuote,
            current_quote,
            quotes,
            current_quote_index: 1,  // The next quote a press shows
            countdown_seconds: 0,
            countdown_original: 0,
            quote_line_offset: 0,
        }
    }

    pub fn handle_event(&mut self, event: Event)
        requires
            old(self).state == State::DisplayingQuote && event == Event::ButtonPress ==> can_advance(
                old(self)@,
            ),
        ensures
            wf(old(self)@) ==> wf(final(self)@),
            wf(old(self)@) && in_step(old(self)@) ==> in_step(final(self)@),
            final(self)@ == step(old(self)@, event),
        decreases event_rank(event),
    {
        proof {
            if wf(old(self)@) && in_step(old(self)@) {
                law_step_keeps_in_step(old(self)@, event);
            }
        }
        match (&self.state, event) {
            (State::DisplayingQuote, Event::ButtonPress) => {
                self.switch_to_next_quote();
            },
            (State::DisplayingQuote, Event::StartCountdown) => {
                self.start_countdown(25 * 60);  // Start the 25-minute countdown
                self.state = State::DisplayingCountdown;
            },
            (State::DisplayingCountdown, Event::ButtonPress) => {
                self.state = State::DisplayingQuote;
            },
            // Countdown tick event
            (State::DisplayingCountdown, Event::CountdownTick) => {
                if self.countdown_seconds > 0 {
                    self.countdown_seconds = self.countdown_seconds - 1;
                } else {
                    self.handle_event(Event::CountdownFinished);
                }
            },
            // Countdown finished
            (State::DisplayingCountdown, Event::CountdownFinished) => {
                self.state = State::DisplayingQuote;
            },
            // Catch-all for unhandled combinations
            _ => {},
        }
    }

    pub fn get_next_quote(&mut self) -> (q: heapless::String<128>)
        requires
            can_advance(old(self)@),
        ensures
            wf(old(self)@) ==> wf(final(self)@),
            text128(q) == old(self)@.quotes[old(self)@.index],
            final(self)@ == (GadgetView {
                index: (old(self)@.index + 1) % (old(self)@.quotes.len() as int),
                ..old(self)@
            }),
    {
        let quote = self.quotes[self.current_quote_index];
        proof {
            assert(quote_texts(self.quotes)[self.current_quote_index as int] == quote@);
        }
        self.current_quote_index = (self.current_quote_index + 1) % self.quotes.len();
        match text128_try_from(quote) {
            Ok(s) => s,
            Err(_) => vstd::pervasive::unreached(),
        }
    }

    pub fn switch_to_next_quote(&mut self)
        requires
            can_advance(old(self)@),
        ensures
            wf(old(self)@) ==> wf(final(self)@),
            final(self)@ == next_quote(old(self)@),
            in_step(final(self)@),
            in_step(old(self)@) ==> displayed(final(self)@) == (displayed(old(self)@) + 1) % (old(
                self,
            )@.quotes.len() as int),
    {
        proof {
            lemma_next_quote_in_step(old(self)@);
        }
        self.current_quote = self.get_next_quote();
        self.quote_line_offset = 0;  // Reset scroll position for new quote
    }

    pub fn start_countdown(&mut self, seconds: u32)
        ensures
            final(self)@ == (GadgetView { seconds: seconds, duration: seconds, ..old(self)@ }),
    {
        self.countdown_seconds = seconds;
        self.countdown_original = seconds;
    }

    pub fn tick_countdown(&mut self)
        ensures
            wf(old(self)@) ==> wf(final(self)@),
            final(self)@ == step(old(self)@, Event::CountdownTick),
    {
        self.handle_event(Event::CountdownTick);
    }

    /// One pass of the main loop, which runs every 100 ms: the pass numbered
    /// `counter` closes a second when it is a multiple of ten, and a running
    /// countdown then loses that second. Returns whether a second passed.
    pub fn on_loop_pass(&mut self, counter: u32) -> (second: bool)
        ensures
            second == (counter % 10 == 0),
            second && old(self)@.state == State::DisplayingCountdown ==> final(self)@ == step(
                old(self)@,
                Event::CountdownTick,
            ),
            !(second && old(self)@.state == State::DisplayingCountdown) ==> final(self)@ == old(
                self,
            )@,
            wf(old(self)@) ==> wf(final(self)@),
    {
        let second = counter % 10 == 0;
        if second && self.state == State::DisplayingCountdown {
            self.tick_countdown();
        }
        second
    }

    /// Scroll through quote lines. When `total_lines > 3`, two lines are
    /// shown at a time, so the first shown line cycles through the
    /// `total_lines - 1` possible starts.
    pub fn scroll_quote(&mut self, total_lines: usize)
        requires
            total_lines > 3 ==> old(self).quote_line_offset < usize::MAX,
        ensures
            total_lines > 3 ==> final(self)@ == (GadgetView {
                offset: (old(self)@.offset + 1) % (total_lines - 1),
                ..old(self)@
            }),
            total_lines <= 3 ==> final(self)@ == old(self)@,
            total_lines > 3 ==> final(self)@.offset < total_lines - 1,
    {
        if total_lines > 3 {
            self.quote_line_offset = (self.quote_line_offset + 1) % (total_lines - 1);
        }
    }
}

/// The gadget after it has answered `e` `k` times in a row.
pub open spec fn repeat(g: GadgetView, e: Event, k: nat) -> GadgetView
    decreases k,
{
    if k == 0 {
        g
    } else {
        step(repeat(g, e, (k - 1) as nat), e)
    }
}

/// Every event keeps a gadget able to step through its quotes.
pub proof fn law_step_keeps_wf(g: GadgetView, e: Event)
    requires
        wf(g),
    ensures
        wf(step(g, e)),
{
    vstd::arithmetic::div_mod::lemma_mod_bound(g.index + 1, g.quotes.len() as int);
}

/// The quote shown is always one of the gadget's quotes: no event shows
/// anything else.
pub proof fn law_quote_shown_is_a_quote(g: GadgetView, e: Event)
    requires
        wf(g),
        g.quotes.contains(g.quote),
    ensures
        step(g, e).quotes.contains(step(g, e).quote),
{
    if g.state == State::DisplayingQuote && e == Event::ButtonPress {
        assert(step(g, e).quote == g.quotes[g.index]);
    }
}

/// Moving on shows the quote the index pointed at, which is then the one on
/// display; it comes right after the quote displayed before.
proof fn lemma_next_quote_in_step(g: GadgetView)
    requires
        can_advance(g),
    ensures
        in_step(next_quote(g)),
        displayed(next_quote(g)) == g.index,
        in_step(g) ==> g.index == (displayed(g) + 1) % (g.quotes.len() as int),
{
    let n = g.quotes.len() as int;
    let i = g.index;
    if i + 1 < n {
        vstd::arithmetic::div_mod::lemma_small_mod((i + 1) as nat, n as nat);
        vstd::arithmetic::div_mod::lemma_mod_add_multiples_vanish(i, n);
        vstd::arithmetic::div_mod::lemma_small_mod(i as nat, n as nat);
    } else {
        vstd::arithmetic::div_mod::lemma_mod_self_0(n);
        vstd::arithmetic::div_mod::lemma_small_mod((n - 1) as nat, n as nat);
    }
    assert(displayed(next_quote(g)) == i);
    // The place before the index, moved on by one, is the index again.
    if i == 0 {
        vstd::arithmetic::div_mod::lemma_small_mod((n - 1) as nat, n as nat);
        vstd::arithmetic::div_mod::lemma_mod_self_0(n);
    } else {
        vstd::arithmetic::div_mod::lemma_mod_add_multiples_vanish(i - 1, n);
        vstd::arithmetic::div_mod::lemma_small_mod((i - 1) as nat, n as nat);
        vstd::arithmetic::div_mod::lemma_small_mod(i as nat, n as nat);
    }
}

/// A press while a quote is shown brings up the quote after the one on
/// display (wrapping around after the last), with scrolling restarted, and
/// the index keeps pointing just past it.
pub proof fn law_press_shows_next_quote(g: GadgetView)
    requires
        wf(g),
        in_step(g),
        g.state == State::DisplayingQuote,
    ensures
        step(g, Event::ButtonPress).quote == g.quotes[(displayed(g) + 1) % (g.quotes.len() as int)],
        displayed(step(g, Event::ButtonPress)) == (displayed(g) + 1) % (g.quotes.len() as int),
        in_step(step(g, Event::ButtonPress)),
        step(g, Event::ButtonPress).offset == 0,
{
    lemma_next_quote_in_step(g);
}

/// Every event keeps the index pointing just past the quote on display.
pub proof fn law_step_keeps_in_step(g: GadgetView, e: Event)
    requires
        wf(g),
        in_step(g),
    ensures
        in_step(step(g, e)),
{
    if g.state == State::DisplayingQuote && e == Event::ButtonPress {
        lemma_next_quote_in_step(g);
    }
}

proof fn lemma_mod_shift(a: int, k: int, m: int)
    requires
        0 <= a,
        0 <= k,
        0 < m,
    ensures
        ((a % m) + k) % m == (a + k) % m,
{
    vstd::arithmetic::div_mod::lemma_add_mod_noop(a, k, m);
    vstd::arithmetic::div_mod::lemma_add_mod_noop(a % m, k, m);
    vstd::arithmetic::div_mod::lemma_mod_twice(a, m);
}

proof fn lemma_mod_succ(x: int, m: int)
    requires
        0 <= x,
        0 < m,
    ensures
        ((x % m) + 1) % m == (x + 1) % m,
{
    vstd::arithmetic::div_mod::lemma_add_mod_noop(x, 1, m);
    vstd::arithmetic::div_mod::lemma_add_mod_noop(x % m, 1, m);
    vstd::arithmetic::div_mod::lemma_mod_twice(x, m);
}

/// Button presses while a quote is shown walk through the quotes in order
/// and wrap around: after `k` presses the index has moved on by `k` places,
/// the quote shown is the one at the place before it, and the gadget still
/// shows quotes. Counted from the quote on display, the `k`-th press shows
/// the `k`-th quote after it.
pub proof fn law_quotes_round_robin(g: GadgetView, k: nat)
    requires
        wf(g),
        g.state == State::DisplayingQuote,
    ensures
        wf(repeat(g, Event::ButtonPress, k)),
        repeat(g, Event::ButtonPress, k).state == State::DisplayingQuote,
        repeat(g, Event::ButtonPress, k).quotes == g.quotes,
        repeat(g, Event::ButtonPress, k).index == (g.index + k) % (g.quotes.len() as int),
        k > 0 ==> repeat(g, Event::ButtonPress, k).quote == g.quotes[(g.index + k - 1) % (
        g.quotes.len() as int)],
        k > 0 ==> repeat(g, Event::ButtonPress, k).offset == 0,
        in_step(g) ==> in_step(repeat(g, Event::ButtonPress, k)),
        in_step(g) ==> repeat(g, Event::ButtonPress, k).quote == g.quotes[(displayed(g) + k) % (
        g.quotes.len() as int)],
    decreases k,
{
    let n = g.quotes.len() as int;
    // The place on display, moved on by `k`, is the index moved on by `k - 1`.
    lemma_mod_shift(g.index + n - 1, k as int, n);
    vstd::arithmetic::div_mod::lemma_mod_add_multiples_vanish(g.index + k - 1, n);
    assert(g.index + n - 1 + k == (g.index + k - 1) + n);
    if k == 0 {
        vstd::arithmetic::div_mod::lemma_small_mod(g.index as nat, n as nat);
        if in_step(g) {
            assert(repeat(g, Event::ButtonPress, k) == g);
            vstd::arithmetic::div_mod::lemma_mod_bound(g.index + n - 1, n);
            vstd::arithmetic::div_mod::lemma_small_mod(displayed(g) as nat, n as nat);
        }
    } else {
        let q = repeat(g, Event::ButtonPress, (k - 1) as nat);
        law_quotes_round_robin(g, (k - 1) as nat);
        if in_step(g) {
            law_step_keeps_in_step(q, Event::ButtonPress);
        }
        law_step_keeps_wf(q, Event::ButtonPress);
        lemma_mod_succ(g.index + k - 1, n);
        vstd::arithmetic::div_mod::lemma_mod_bound(g.index + k - 1, n);
    }
}

/// After as many presses as there are quotes, the gadget is back at the
/// quote it started from.
pub proof fn law_quotes_cycle(g: GadgetView)
    requires
        wf(g),
        g.state == State::DisplayingQuote,
    ensures
        repeat(g, Event::ButtonPress, g.quotes.len()).index == g.index,
{
    let n = g.quotes.len() as int;
    law_quotes_round_robin(g, g.quotes.len());
    vstd::arithmetic::div_mod::lemma_mod_add_multiples_vanish(g.index, n);
    vstd::arithmetic::div_mod::lemma_small_mod(g.index as nat, n as nat);
}

proof fn lemma_countdown_ticks(g: GadgetView, k: nat)
    requires
        g.state == State::DisplayingCountdown,
        k <= g.seconds,
    ensures
        repeat(g, Event::CountdownTick, k) == (GadgetView { seconds: (g.seconds - k) as u32, ..g }),
    decreases k,
{
    if k > 0 {
        lemma_countdown_ticks(g, (k - 1) as nat);
    }
}

/// A running countdown loses one second per tick and leaves everything else
/// as it was; the tick after it has reached zero returns to the quote.
pub proof fn law_countdown_runs_out(g: GadgetView, k: nat)
    requires
        g.state == State::DisplayingCountdown,
        k <= g.seconds,
    ensures
        repeat(g, Event::CountdownTick, k) == (GadgetView { seconds: (g.seconds - k) as u32, ..g }),
        repeat(g, Event::CountdownTick, (g.seconds + 1) as nat) == (GadgetView {
            state: State::DisplayingQuote,
            seconds: 0,
            ..g
        }),
{
    lemma_countdown_ticks(g, k);
    lemma_countdown_ticks(g, g.seconds as nat);
}

impl Default for SmartGadget {
    fn default() -> (g: Self)
        ensures
            wf(g@),
            g@.quotes == default_quotes(),
            g@.state == State::DisplayingQuote,
            g@.quote == default_quotes()[0],
            g@.index == 1,
            in_step(g@),
            displayed(g@) == 0,
            g@.seconds == 0,
            g@.duration == 0,
            g@.offset == 0,
    {
        Self::new()
    }
}

} // verus!
