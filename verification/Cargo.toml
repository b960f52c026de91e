[package]
name = "trovo_chatbot"
version = "0.1.0"
edition = "2021"
publish = false

[dependencies]
rand = "=0.10.3"
httparse = "=1.10.1"
http = "=1.5.0"
serde = { version = "*", features = ["derive"] }
serde_json = "*"
tokio = { version = "*", features = ["full"] }
tokio-util = "*"
futures = "*"
async-tungstenite = { version = "=0.35.0", default-features = false, features = ["tokio-runtime", "futures-03-sink", "tokio-rustls-webpki-roots"] }
reqwest = { version = "*", default-features = false, features = ["json", "rustls-tls"] }
chrono = "*"
portpicker = "*"
