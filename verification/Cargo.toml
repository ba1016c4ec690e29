[package]
name = "microbit"
version = "0.1.0"
edition = "2021"
publish = false

[dependencies]
tiny-led-matrix = "=1.0.2"
embedded-hal = "=1.0.0"
nrf52833-hal = "=0.19.0"
chrono = "=0.4.45"
cargo_toml = "=1.0.1"
