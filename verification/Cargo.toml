[package]
name = "mii-text"
version = "0.1.0"
edition = "2021"
publish = false

[dependencies]
async-openai = { version = "=0.43.0", features = ["byot", "chat-completion", "responses"] }
futures = "=0.3.34"
interprocess = { version = "=2.4.7", features = ["tokio"] }
rusqlite = { version = "=0.41.1", features = ["bundled"] }
serde_json = { version = "=1.0.154", features = ["preserve_order"] }
sha2 = "=0.10.9"
tokio = { version = "=1.54.1", features = ["full"] }
