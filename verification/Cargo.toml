[package]
name = "cantus"
version = "0.1.0"
edition = "2021"
publish = false

[dependencies]
form_urlencoded = "=1.2.2"
unicode-segmentation = "=1.13.3"
jiff = "=0.2.39"
glam = "=0.34.2"
half = "=2.7.1"
fend-core = "=1.5.9"
serde = { version = "=1.0.229", features = ["derive"] }
toml = "=1.1.8"
roxmltree = "=0.21.2"
url = "=2.5.8"
serde_json = "=1.0.154"
librespot-core = { version = "=0.8.0", default-features = false, features = ["rustls-tls-webpki-roots"] }
vergen = "=9.0.6"
