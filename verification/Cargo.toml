[package]
name = "monad_cosmos"
version = "0.1.0"
edition = "2021"
publish = false

[dependencies]
alloy-rlp = { version = "=0.3.17", features = ["derive"] }
arrayvec = "0.7"
base64 = "0.22"
bytes = "1"
chrono = { version = "0.4", default-features = false, features = ["std"] }
hex = "0.4"
sha2 = "0.10"
actix-web = { version = "4", default-features = false, features = ["macros"] }
async-trait = "0.1"
bincode = "1"
clap = { version = "4", features = ["derive"] }
futures = "0.3"
once_cell = "1"
prost = "0.13"
prost-types = "0.13"
serde = { version = "1", features = ["derive"] }
serde_json = "1"
serde_with = { version = "3", features = ["hex"] }
thiserror = "2"
tokio = { version = "1", features = ["net", "rt-multi-thread", "sync", "time", "macros", "io-util"] }
tokio-stream = "0.1"
tokio-util = { version = "0.7", features = ["codec"] }
tonic = "0.12"
tracing = "0.1"
tracing-subscriber = "0.3"
