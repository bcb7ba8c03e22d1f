[package]
name = "rasp_ws2812"
version = "0.1.0"
edition = "2021"
publish = false

[dependencies]
smart-leds = "*"
ws281x-rpi = "*"
