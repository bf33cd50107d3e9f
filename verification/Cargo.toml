[package]
name = "ate"
version = "0.1.0"
edition = "2021"
publish = false

[dependencies]
anyhow = "1"
atty = "0.2"
backtrace = "0.3"
chrono = "0.4"
fern = "0.6"
finl_unicode = "1"
log = "0.4"
termwiz = "*"
xdg = "2"
