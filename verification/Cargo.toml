[package]
name = "m8_kbd"
version = "0.1.0"
edition = "2021"
publish = false

[dependencies]
keyberon = "*"
usb-device = "0.2"
embedded-hal = "0.2"
cortex-m = "0.7"
cortex-m-rtic = "1.1"
rp-pico = "0.8"
rp2040-monotonic = "1.3"
defmt = "0.3"
defmt-rtt = "0.4"
panic-probe = { version = "0.3", features = ["print-defmt"] }
