[package]
name = "strip_shared"
version = "0.1.0"
edition = "2021"
publish = false

[dependencies]
byteorder = "1"
clap = "2"
embedded-hal = "0.2"
rgb = "0.8"
smart-leds = "0.3"
ws2812-spi = "0.4"
