# blink

The logic of a small ESP32-C3 display gadget, verified with Verus: a quote
viewer with a countdown timer, plus an asset price screen fed by the Binance
ticker API.

- `src/` is the verified library.
  - `lib.rs`: the gadget state machine (`SmartGadget`, `State`, `Event`) and
    its laws (quotes cycle in order, a countdown runs out and returns to the
    quote).
  - `util.rs`: word wrapping of quotes into display lines, and time formatting.
  - `renderer.rs`: which texts each screen shows and where; auto-scrolling.
  - `http.rs`: building GET requests, parsing responses, the receive loop.
  - `price.rs`: assets, the ticker request path, the JSON walker that finds the
    `"price"` field.
  - `wifi.rs`: credential limits, what a DHCP lease changes, TCP connection
    decisions, the lock that keeps to one TCP connection at a time, and the
    guard that lets the stack be initialised only once.
  - `hardware.rs`: tick timing, the button placeholder, the flush retry policy.
  - `bounded.rs`: the `heapless` strings and vectors results are built in.
  - `text.rs`: UTF-8 lengths and Unicode whitespace.
- `tests/` runs the library on concrete inputs.
- `app/` is the firmware around it: display driver, WiFi and TLS, floating
  point prices, the main loop.
