[package]
name = "agentmsg"
version = "0.2.2"
edition = "2021"
publish = false

[dependencies]
aes-gcm = "0.10"
base64 = "0.22"
clap = { version = "4", features = ["derive"] }
crc32fast = "1"
directories = "*"
getrandom = "0.2"
hex = "0.4"
interprocess = "2"
ml-dsa = "*"
ml-kem = { version = "0.2", features = ["deterministic"] }
rand_core = "0.6"
rumqttc = "*"
rusqlite = { version = "*", features = ["bundled"] }
serde = { version = "1", features = ["derive"] }
serde_json = "1"
sha2 = "0.10"
thiserror = "*"
time = { version = "0.3", features = ["formatting", "parsing"] }
toml = "*"
tracing = "0.1"
tracing-subscriber = { version = "0.3", features = ["env-filter"] }
ulid = "1"
