[package]
name = "wio_terminal_sd_editor"
version = "0.1.0"
edition = "2021"
publish = false

[dependencies]
embedded-sdmmc = { version = "0.10", default-features = false }
embedded-io = "*"
embedded-hal = "1"
ratatui = { version = "*", default-features = false }
embedded-graphics = "*"
mousefood = { version = "*", default-features = false }
cortex-m = "0.7"
embedded-alloc = "*"
panic-halt = "*"
wio_terminal = "*"
