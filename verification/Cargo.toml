[package]
name = "stremio_shell"
version = "0.1.0"
edition = "2021"
publish = false

[dependencies]
sha2 = "0.10"
flume = "0.11"
open = "5"
rand = "0.8"
reqwest = { version = "0.12", default-features = false, features = ["blocking"] }
url = "2"
whoami = "1"

[dev-dependencies]
serde_json = "1"
