[package]
name = "clc"
version = "0.1.0"
edition = "2021"
publish = false

[dependencies]
uuid = { version = "1", features = ["v4"] }
serde = { version = "1", features = ["derive"] }
serde_json = "1"
warp = "0.3"
tokio = { version = "1", features = ["macros", "rt-multi-thread", "sync"] }
tokio-stream = "0.1"
futures = "0.3"
reqwest = { version = "0.11", features = ["blocking"] }
tungstenite = { version = "0.17", features = ["native-tls"] }
native-tls = "0.2"
getch = "0.3"
terminal_size = "0.2"
