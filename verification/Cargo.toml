[package]
name = "fox"
version = "0.1.0"
edition = "2021"
publish = false

[dependencies]
primitive-types = "=0.12.2"
sha2 = "=0.10.9"
hmac = "=0.12.1"
base64 = "=0.21.7"
chrono = "=0.4.45"
serde_json = "=1.0.154"
tokio = { version = "=1.54.1", features = ["full"] }
tokio-tungstenite = { version = "=0.20.1", features = ["rustls-tls-webpki-roots"] }
futures-util = "=0.3.34"
reqwest = { version = "=0.11.27", default-features = false, features = ["json", "rustls-tls"] }
url = "=2.5.8"
rand = "=0.8.8"
colored = "=2.2.0"
dotenv = "=0.15.0"
anyhow = "=1.0.104"
rayon = "=1.12.0"
