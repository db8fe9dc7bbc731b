[package]
name = "grab"
version = "0.1.0"
edition = "2021"
publish = false

[dependencies]
sha2 = "0.10"
syn = { version = "2", features = ["full"] }
quote = "1"
proc-macro2 = { version = "1", features = ["span-locations"] }
serde = { version = "1", features = ["derive"] }
serde_json = "1"
axum = "0.7"
tokio = { version = "1", features = ["full"] }
tower-http = { version = "0.6", features = ["cors"] }
clap = { version = "4", features = ["derive"] }
reqwest = { version = "0.12", default-features = false, features = ["blocking", "json"] }
arboard = { version = "3", default-features = false }
dialoguer = "0.11"
ctrlc = "3"
