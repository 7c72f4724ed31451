[package]
name = "mousai"
version = "0.1.0"
edition = "2021"
publish = false

[dependencies]
anyhow = "1"
async-trait = "0.1"
gettext-rs = "=0.7.7"
gtk4 = "=0.11.5"
heed = "=0.20.5"
indexmap = "=2.14.2"
libadwaita = "=0.9.2"
log = "0.4"
once_cell = "1"
tracing = "0.1"

[dev-dependencies]
tempfile = "3"
