[package]
name = "lsftp"
version = "0.1.0"
edition = "2021"
publish = false

[dependencies]
blake3 = "*"
sha3 = "*"
chacha20poly1305 = "*"
aes-gcm = "*"
ring = "*"
oqs = "*"
hex = "*"
libc = "*"
zeroize = "*"
uuid = { version = "*", features = ["v4"] }
serde = { version = "*", features = ["derive"] }
serde_json = "*"
tokio = { version = "*", features = ["full"] }
clap = { version = "*", features = ["derive"] }
toml = "*"
tracing = "*"
tracing-subscriber = "*"
nix = { version = "*", features = ["user"] }
quinn = "*"
rustls = "*"
async-trait = "*"
