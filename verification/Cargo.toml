[package]
name = "voting_app_backend"
version = "0.1.0"
edition = "2021"
publish = false

[dependencies]
sha2 = "*"
hex = "*"
candid = "*"
ic-cdk = "*"
ic-llm = "*"
serde = { version = "*", features = ["derive"] }
