[package]
name = "rliterate"
version = "0.1.0"
edition = "2021"
publish = false

[dependencies]
pulldown-cmark = { version = "0.1", default-features = false }
prettify-cmark = "*"
subprocess = "*"
clap = "2"
env_logger = "*"
log = "*"
maud = "*"
cargo_metadata = "*"
url = "*"
