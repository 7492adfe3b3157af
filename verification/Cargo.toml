[package]
name = "logfetch"
version = "0.1.0"
edition = "2021"
publish = false

[dependencies]
clap = { version = "*", features = ["derive"] }
ethers-core = "*"
ethers-providers = "*"
eyre = "*"
futures = "*"
serde_json = "*"
tokio = { version = "*", features = ["macros", "rt-multi-thread"] }
