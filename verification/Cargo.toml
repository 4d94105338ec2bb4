[package]
name = "tm4c_hal"
version = "0.1.0"
edition = "2021"
publish = false

[dependencies]
cortex-m = "0.7"
embedded-hal = "1.0"
tm4c123x = "*"
tm4c129x = "*"
