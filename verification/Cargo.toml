[package]
name = "scifi"
version = "0.1.0"
edition = "2021"
publish = false

[dependencies]
fxhash = "0.2"
log = "0.3"
termcolor = "0.3"
futures = "0.1"
serde = { version = "1", features = ["derive"] }
serde_json = "1"
