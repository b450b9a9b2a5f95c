[package]
name = "rp2350_touch"
version = "0.1.0"
edition = "2021"
publish = false

[dependencies]
embedded-graphics = "=0.8.2"
embedded-hal = "=1.0.0"
rp235x-hal = { version = "=0.4.0", features = ["rt", "critical-section-impl"] }
pio = "=0.3.0"
cortex-m = "=0.7.10"
cortex-m-rt = "=0.7.7"
micromath = "=2.1.0"
