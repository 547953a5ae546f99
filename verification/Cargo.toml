[package]
name = "tinycomments"
version = "0.1.0"
edition = "2021"
publish = false

[dependencies]
hex = "=0.4.3"
hmac = "=0.12.1"
sha2 = "=0.10.9"
rand = "=0.8.8"
base64 = "=0.22.1"
serde = { version = "=1.0.229", features = ["derive"] }
toml = "=0.8.23"
chrono = "=0.4.45"
ammonia = "=4.2.1"
sqlite = "=0.37.3"
actix-web = { version = "=4.15.0", default-features = false, features = ["macros"] }
lettre = { version = "=0.11.23", default-features = false, features = ["smtp-transport", "builder", "rustls-tls"] }
tracing = "=0.1.44"
tracing-subscriber = "=0.3.23"
