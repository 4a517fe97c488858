[package]
name = "mobiumata"
version = "0.1.0"
edition = "2021"
publish = false

[dependencies]
smart-leds = "=0.4.0"
embedded-graphics = "=0.8.1"
serde = { version = "1", default-features = false, features = ["derive"] }
serde-json-core = "0.5"
heapless = "0.8"
rand = { version = "0.8", default-features = false }
fixed = "1"
fixed-macro = "1"
pio = "0.2"
static_cell = "2"
defmt = "0.3"
defmt-rtt = "0.4"
panic-probe = "0.3"
embassy-executor = { version = "0.5", features = ["arch-std", "executor-thread", "integrated-timers"] }
embassy-futures = "0.1"
embassy-net = { version = "0.4", features = ["proto-ipv4", "udp", "medium-ethernet"] }
embassy-rp = { version = "0.1", features = ["time-driver"] }
embassy-sync = "0.5"
embassy-time = "0.3"
cyw43 = "0.1"
cyw43-pio = "0.1"
