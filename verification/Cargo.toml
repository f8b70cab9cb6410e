[package]
name = "blink"
version = "0.1.0"
edition = "2021"
publish = false

[dependencies]
heapless = "0.8"
embedded-graphics = "0.8"
ssd1306 = "0.9"
smoltcp = { version = "0.12", default-features = false, features = ["proto-ipv4", "socket-tcp", "socket-dhcpv4", "socket-dns", "medium-ethernet"] }
embedded-io = "0.6"
embedded-tls = { version = "*", default-features = false }
rand_core = "0.6"
managed = { version = "0.8", default-features = false }
portable-atomic = "1"
log = "0.4"
esp-hal = "0.23"
esp-wifi = "0.12"
esp-alloc = "0.6"
esp-backtrace = "0.15"
esp-println = "0.13"
