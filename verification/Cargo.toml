[package]
name = "cf_tool"
version = "0.1.0"
edition = "2021"
publish = false

[dependencies]
same-file = "1"
scraper = "0.20"
regex = "1"
email_address = "0.2"
rand = "0.8"
dirs = "5"
pathdiff = "0.2"
shellexpand = "3"
open = "5"
anyhow = "1"
clap = { version = "4", features = ["derive"] }
colored = "2"
inquire = "0.7"
itertools = "0.13"
serde = { version = "1", features = ["derive"] }
serde_json = "1"
serde_qs = "0.13"
reqwest = { version = "0.12", default-features = false, features = ["blocking", "cookies", "rustls-tls"] }
reqwest_cookie_store = "0.8"
run_script = "0.10"
comfy-table = "7"
supports-unicode = "3"
ansi-escapes = "0.2"
