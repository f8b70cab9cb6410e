use blink::hardware::{flush_step, Button, FlushStep, Timer};
use blink::renderer::{handle_auto_scroll, price_screen_texts, screen_texts};
use blink::{Event, SmartGadget, State};

#[test]
fn new_gadget_shows_first_quote() {
    let g = SmartGadget::new();
    assert_eq!(g.state, State::DisplayingQuote);
    assert_eq!(g.current_quote.as_str(), "The only way to do great work is to love what you do.");
    // The index points at the quote a press shows next.
    assert_eq!(g.current_quote_index, 1);
    assert_eq!(g.quotes.len(), 8);
    assert_eq!(g.countdown_seconds, 0);
    assert_eq!(g.quote_line_offset, 0);
}

#[test]
fn button_cycles_through_quotes_and_wraps() {
    let mut g = SmartGadget::default();
    g.quote_line_offset = 2;
    g.handle_event(Event::ButtonPress);
    // The first press shows the quote after the one on display.
    assert_eq!(g.current_quote.as_str(), "Life is what happens when you're busy making other plans.");
    assert_eq!(g.current_quote.as_str(), g.quotes[1]);
    assert_eq!(g.current_quote_index, 2);
    assert_eq!(g.quote_line_offset, 0);
    for _ in 0..6 {
        g.handle_event(Event::ButtonPress);
    }
    assert_eq!(g.current_quote.as_str(), "Everything you've ever wanted is on the other side of fear.");
    assert_eq!(g.current_quote_index, 0);
    // After the last quote comes the first again.
    g.handle_event(Event::ButtonPress);
    assert_eq!(g.current_quote.as_str(), "The only way to do great work is to love what you do.");
    assert_eq!(g.current_quote_index, 1);
}

#[test]
fn switch_to_next_quote_from_new_gadget() {
    let mut g = SmartGadget::new();
    g.switch_to_next_quote();
    assert_eq!(g.current_quote.as_str(), g.quotes[1]);
    assert_eq!(g.quote_line_offset, 0);
}

#[test]
fn get_next_quote_returns_quote_at_index() {
    let mut g = SmartGadget::new();
    g.current_quote_index = 7;
    let q = g.get_next_quote();
    assert_eq!(q.as_str(), g.quotes[7]);
    assert_eq!(g.current_quote_index, 0);
}

#[test]
fn countdown_runs_out_and_returns_to_quote() {
    let mut g = SmartGadget::new();
    g.handle_event(Event::StartCountdown);
    assert_eq!(g.state, State::DisplayingCountdown);
    // A 25-minute session.
    assert_eq!(g.countdown_seconds, 1500);
    assert_eq!(g.countdown_original, 1500);
    for k in 1..=1500 {
        g.tick_countdown();
        assert_eq!(g.countdown_seconds, 1500 - k);
        assert_eq!(g.state, State::DisplayingCountdown);
    }
    g.tick_countdown();
    assert_eq!(g.state, State::DisplayingQuote);
    assert_eq!(g.countdown_seconds, 0);
}

#[test]
fn button_leaves_countdown_and_ignored_events() {
    let mut g = SmartGadget::new();
    g.handle_event(Event::CountdownTick);
    g.handle_event(Event::CountdownFinished);
    assert_eq!(g.state, State::DisplayingQuote);
    assert_eq!(g.current_quote_index, 1);
    g.handle_event(Event::StartCountdown);
    g.tick_countdown();
    g.handle_event(Event::StartCountdown);
    assert_eq!(g.countdown_seconds, 1499);
    g.handle_event(Event::ButtonPress);
    assert_eq!(g.state, State::DisplayingQuote);
    assert_eq!(g.countdown_seconds, 1499);
    assert_eq!(g.current_quote_index, 1);
}

#[test]
fn countdown_finished_event() {
    let mut g = SmartGadget::new();
    g.start_countdown(5);
    assert_eq!((g.countdown_seconds, g.countdown_original), (5, 5));
    g.state = State::DisplayingCountdown;
    g.handle_event(Event::CountdownFinished);
    assert_eq!(g.state, State::DisplayingQuote);
    assert_eq!(g.countdown_seconds, 5);
}

#[test]
fn scroll_quote_wraps_over_start_positions() {
    let mut g = SmartGadget::new();
    g.scroll_quote(3);
    assert_eq!(g.quote_line_offset, 0);
    g.scroll_quote(5);
    assert_eq!(g.quote_line_offset, 1);
    g.scroll_quote(5);
    g.scroll_quote(5);
    assert_eq!(g.quote_line_offset, 3);
    g.scroll_quote(5);
    assert_eq!(g.quote_line_offset, 0);
}

#[test]
fn quote_screen_layout() {
    let g = SmartGadget::new();
    // "The only way to do great work is to love what you do." wraps into
    // "The only way to do", "great work is to", "love what you do." (3 lines).
    let items = screen_texts(&State::DisplayingQuote, &g);
    let texts: Vec<(&str, i32, i32)> = items.iter().map(|t| (t.text.as_str(), t.x, t.y)).collect();
    assert_eq!(
        texts,
        vec![("The only way to do", 2, 8), ("great work is to", 2, 18), ("love what you do.", 2, 28)]
    );
}

#[test]
fn long_quote_scrolls_with_indicator() {
    let mut g = SmartGadget::new();
    g.current_quote_index = 2;
    g.switch_to_next_quote();
    // "Success is not final, failure is not fatal: it is the courage to
    // continue that counts." takes five lines of 20 bytes.
    let items = screen_texts(&State::DisplayingQuote, &g);
    let texts: Vec<(&str, i32, i32)> = items.iter().map(|t| (t.text.as_str(), t.x, t.y)).collect();
    assert_eq!(
        texts,
        vec![("Success is not", 2, 8), ("final, failure is", 2, 18), ("...", 110, 28)]
    );
    assert!(!handle_auto_scroll(&mut g, 39));
    assert!(handle_auto_scroll(&mut g, 40));
    assert_eq!(g.quote_line_offset, 1);
    let items = screen_texts(&State::DisplayingQuote, &g);
    assert_eq!(items[0].text, "final, failure is");
    g.quote_line_offset = 4;
    let items = screen_texts(&State::DisplayingQuote, &g);
    assert_eq!(items.len(), 2);
    assert_eq!(items[0].text, "that counts.");
    assert_eq!(items[1].text, "...");
}

#[test]
fn auto_scroll_always_shows_two_whole_lines() {
    let mut g = SmartGadget::new();
    g.current_quote_index = 2;
    g.switch_to_next_quote();
    let mut starts = Vec::new();
    for _ in 0..8 {
        assert!(handle_auto_scroll(&mut g, 80));
        starts.push(g.quote_line_offset);
        let items = screen_texts(&State::DisplayingQuote, &g);
        assert_eq!(items.len(), 3);
        assert_eq!((items[0].y, items[1].y), (8, 18));
        assert_eq!((items[2].text.as_str(), items[2].x, items[2].y), ("...", 110, 28));
    }
    // Five lines give four windows of two lines.
    assert_eq!(starts, vec![1, 2, 3, 0, 1, 2, 3, 0]);
}

#[test]
fn short_quote_shows_instruction() {
    let mut g = SmartGadget::new();
    g.current_quote_index = 4;
    g.switch_to_next_quote();
    let items = screen_texts(&State::DisplayingQuote, &g);
    let texts: Vec<(&str, i32, i32)> = items.iter().map(|t| (t.text.as_str(), t.x, t.y)).collect();
    assert_eq!(
        texts,
        vec![
            ("In the middle of", 2, 8),
            ("difficulty lies", 2, 18),
            ("opportunity.", 2, 28),
        ]
    );
    assert!(!handle_auto_scroll(&mut g, 40));
}

#[test]
fn countdown_screen_layout() {
    let mut g = SmartGadget::new();
    g.handle_event(Event::StartCountdown);
    let items = screen_texts(&State::DisplayingCountdown, &g);
    let texts: Vec<(&str, i32, i32)> = items.iter().map(|t| (t.text.as_str(), t.x, t.y)).collect();
    assert_eq!(texts, vec![("COUNTDOWN", 20, 8), ("25:00", 35, 22)]);
}

#[test]
fn price_screen_layout() {
    let items = price_screen_texts("BTC", "65432.10");
    let texts: Vec<(&str, i32, i32)> = items.iter().map(|t| (t.text.as_str(), t.x, t.y)).collect();
    // Eight 10-pixel glyphs centred on 128 pixels start at x = 24.
    assert_eq!(texts, vec![("BTC", 2, 7), ("LIVE", 106, 7), ("65432.10", 24, 31)]);
    // A price wider than the screen starts left of its edge.
    let wide = price_screen_texts("GOLD", "12345678901234");
    assert_eq!((wide[2].x, wide[2].y), (-6, 31));
}

#[test]
fn timer_ticks_after_interval() {
    let mut t = Timer::new(100);
    assert_eq!(t.tick_interval_ms(), 100);
    assert!(!t.should_tick(99));
    assert!(t.should_tick(100));
    assert!(!t.should_tick(150));
    assert!(t.should_tick(200));
}

#[test]
fn button_placeholder_never_pressed() {
    let mut b = Button::default();
    assert!(!b.is_pressed());
    assert!(b.check_press().is_none());
}

#[test]
fn flush_retry_policy() {
    assert_eq!(flush_step(1, true), FlushStep::Done(true));
    assert_eq!(flush_step(1, false), FlushStep::RetryAfter(10));
    assert_eq!(flush_step(2, false), FlushStep::RetryAfter(10));
    assert_eq!(flush_step(3, false), FlushStep::Done(false));
    assert_eq!(flush_step(3, true), FlushStep::Done(true));
}

#[test]
fn every_tenth_loop_pass_ticks_a_running_countdown() {
    let mut g = SmartGadget::new();
    assert!(!g.on_loop_pass(7));
    assert!(g.on_loop_pass(10));
    assert_eq!((g.state, g.countdown_seconds), (State::DisplayingQuote, 0));
    g.handle_event(Event::StartCountdown);
    for pass in 1..=20u32 {
        assert_eq!(g.on_loop_pass(pass), pass % 10 == 0);
    }
    assert_eq!(g.countdown_seconds, 1498);
}
