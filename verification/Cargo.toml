[package]
name = "spotify_web_server"
version = "0.1.0"
edition = "2021"
publish = false

[dependencies]
rand = "0.8"
percent-encoding = "2"
serde = { version = "1", features = ["derive"] }
serde_json = "1"
tokio = { version = "1", features = ["rt-multi-thread", "macros", "sync", "time"] }
actix-web = { version = "4", default-features = false, features = ["cookies", "macros"] }
actix-session = { version = "0.7", features = ["cookie-session"] }
clap = { version = "4", features = ["derive"] }
sha2 = "0.10"
chrono = "0.4"
url = "2"
futures = "0.3"
async-stream = "0.3"
tokio-stream = { version = "0.1", features = ["time"] }
librespot = { version = "0.4", default-features = false }
