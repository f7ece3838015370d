[package]
name = "xfbin_lib_rs"
version = "0.1.0"
edition = "2021"

[dependencies]
clap = { version = "=3.2.25", features = ["derive"] }
codepage = "=0.1.3"
deku = "=0.20.3"
dialoguer = "=0.12.0"
encoding_rs = "=0.8.42"
hashbrown = "=0.17.1"
itertools = "=0.15.0"
serde = { version = "=1.0.229", features = ["derive"] }
serde_json = "=1.0.154"
strum = { version = "=0.28.0", features = ["derive"] }
