[package]
name = "orquestra_cli"
version = "0.2.5"
edition = "2021"
publish = false

[dependencies]
anyhow = "1"
base64 = "0.22"
bs58 = "0.5"
clap = { version = "4", features = ["derive"] }
colored = "2"
curve25519-dalek = "4"
dialoguer = { version = "0.11", features = ["fuzzy-select"] }
dirs = "5"
ed25519-dalek = "2"
indicatif = "0.17"
reqwest = { version = "0.12", default-features = false, features = ["json", "rustls-tls"] }
serde = { version = "1", features = ["derive"] }
serde_json = "1"
sha2 = "0.10"
tokio = { version = "1", features = ["macros", "rt-multi-thread"] }
toml = "0.8"
