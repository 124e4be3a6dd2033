[package]
name = "nicorandompicker"
version = "0.1.0"
edition = "2021"
publish = false

[dependencies]
base64 = "=0.22.1"
brotli = "=9.1.1"
time = { version = "=0.3.55", features = ["serde", "formatting", "parsing"] }
rand = "=0.10.3"
serde = { version = "=1.0.229", features = ["derive"] }
serde_json = "=1.0.154"
serde_urlencoded = "=0.7.1"
http = "=1.5.0"
tracing = "=0.1.44"
tracing-subscriber = { version = "=0.3.23", default-features = false, features = ["fmt", "registry", "std", "ansi"] }
tracing-web = "=0.1.4"
axum = { version = "=0.8.9", default-features = false, features = ["json"] }
axum-extra = { version = "=0.12.6", features = ["cookie-signed", "cookie-key-expansion"] }
tower = { version = "=0.5.3", features = ["util"] }
tower-http = { version = "=0.7.1", features = ["cors"] }
worker = { version = "=0.8.7", features = ["http", "axum"] }
reqwest = { version = "=0.13.5", default-features = false }
js-sys = "=0.3.107"
console_error_panic_hook = "=0.1.7"
