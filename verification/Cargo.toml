[package]
name = "ofscp_transport"
version = "0.1.0"
edition = "2021"
publish = false

[dependencies]
base64 = "=0.23.1"
chrono = "=0.4.45"
ed25519-dalek = { version = "=3.0.0", features = ["rand_core"] }
futures-channel = "=0.3.34"
futures-util = "=0.3.34"
hex = "=0.4.3"
rand = "=0.10.3"
sha2 = "=0.11.0"
tokio = { version = "=1.53.2", features = ["rt-multi-thread", "macros", "time", "sync", "net"] }
tokio-tungstenite = "=0.30.0"
urlencoding = "=2.1.3"
uuid = { version = "=1.27.0", features = ["v4"] }
