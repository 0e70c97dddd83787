[package]
name = "proofman"
version = "0.1.0"
edition = "2021"
publish = false

[dependencies]
anyhow = "1"
clap = { version = "4", features = ["derive", "env"] }
colored = "*"
crossbeam-channel = "0.5"
indexmap = { version = "2", features = ["serde"] }
libloading = "*"
num-traits = "0.2"
proc-macro2 = "1"
quote = "1"
rand = "*"
rayon = "1"
regex = "1"
serde = { version = "1", features = ["derive"] }
serde_json = "1"
syn = { version = "2", features = ["full"] }
tera = "1"
tracing = "0.1"
tracing-subscriber = "0.3"
which = "*"
