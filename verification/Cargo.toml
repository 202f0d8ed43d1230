[package]
name = "idempotent_proxy"
version = "1.2.0"
edition = "2021"
publish = false

[dependencies]
anyhow = "=1.0.104"
async-trait = "=0.1.92"
axum = "=0.7.9"
axum-server = { version = "=0.7.3", features = ["tls-rustls"] }
base64 = "=0.22.1"
candid = "=0.10.39"
chrono = "=0.4.45"
ciborium = "=0.2.2"
dotenvy = "=0.15.7"
ed25519-dalek = "=2.2.0"
futures = "=0.3.34"
getrandom = { version = "=0.2.17", features = ["custom"] }
http = "=1.5.0"
hyper = "=1.12.0"
ic-cdk = "=0.16.1"
ic-cdk-timers = "=0.10.1"
ic-stable-structures = "=0.6.9"
ic_cose_types = "=0.7.2"
k256 = { version = "=0.13.4", features = ["ecdsa"] }
log = { version = "=0.4.34", features = ["kv"] }
reqwest = { version = "=0.12.28", default-features = false, features = ["rustls-tls", "gzip", "http2"] }
rustis = { version = "=0.13.3", features = ["pool"] }
serde = { version = "=1.0.229", features = ["derive"] }
serde_bytes = "=0.11.19"
serde_json = { version = "=1.0.154", features = ["float_roundtrip", "preserve_order"] }
sha3 = "=0.10.9"
structured-logger = "=1.0.5"
tokio = { version = "=1.54.1", features = ["full"] }

[dev-dependencies]
rand_core = { version = "=0.6.4", features = ["getrandom"] }
