[package]
name = "fendermint_vm_chess_engine"
version = "0.1.0"
edition = "2021"
publish = false

[dependencies]
pleco = "=0.5.0"
anyhow = "=1.0.104"
serde = { version = "=1.0.229", features = ["derive"] }
toml = "=0.7.8"
tokio = { version = "=1.54.1", features = ["fs"] }
ambassador = "0.3"
num-derive = "0.3"
num-traits = "0.2"
