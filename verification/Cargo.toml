[package]
name = "llama_serve"
version = "0.1.0"
edition = "2021"
publish = false

[dependencies]
clap = { version = "=4.6.7", features = ["derive"] }
crossterm = "=0.28.1"
ggus = "=0.5.1"
http-body-util = "=0.1.5"
hyper = { version = "=1.12.0", features = ["http1", "server"] }
hyper-util = { version = "=0.1.21", features = ["tokio"] }
log = "=0.4.35"
ndarray-layout = "=0.2.2"
openai-struct = "=0.0.3"
rand = "=0.9.5"
ratatui = "=0.29.0"
serde_json = "=1.0.154"
tokeneer = "=0.1.0"
tokio = { version = "=1.54.1", features = ["full"] }
tokio-stream = "=0.1.19"
