[package]
name = "basecoin"
version = "0.1.0"
edition = "2021"
publish = false

[dependencies]
cosmrs = "0.14"
prost = "0.11"
prost-types = "0.11"
run_script = "=0.11.2"
serde = { version = "=1.0.229", features = ["derive"] }
serde_json = "=1.0.154"
tendermint = "0.32"
tendermint-abci = "0.32"
tendermint-proto = "0.32"
tracing = "=0.1.44"
