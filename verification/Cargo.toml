[package]
name = "ipa_core"
version = "0.1.0"
edition = "2021"
publish = false

[dependencies]
rand = "*"
rand_chacha = "*"
rand_distr = "*"
uuid = { version = "*", features = ["v4"] }
tokio = { version = "*", features = ["full"] }
serde = { version = "*", features = ["derive"] }
serde_json = "*"
structopt = "*"
tracing = "*"
tracing-subscriber = "*"
async-trait = "*"
