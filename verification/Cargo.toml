[package]
name = "slimweb"
version = "0.1.0"
edition = "2021"
publish = false

[dependencies]
base64 = "0.13"
flate2 = "1"
lazy_static = "1.4"
log = "0.4"
mime_guess = "2"
punycode = "0.4"
rustls = "0.17"
serde_json = "1"
webpki = "0.21"
webpki-roots = "0.19"
