[package]
name = "anthropic_compat"
version = "0.1.0"
edition = "2021"
publish = false

[dependencies]
axum = { version = "0.8", default-features = false, features = ["json"] }
futures-util = "0.3"
serde = "1"
serde_json = { version = "1", default-features = false, features = ["std", "preserve_order"] }
