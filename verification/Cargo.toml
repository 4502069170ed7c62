[package]
name = "wnfs"
version = "0.1.0"
edition = "2021"
publish = false

[dependencies]
wnfs-nameaccumulator = "=0.3.0"
wnfs-common = { version = "=0.3.0", features = ["test_utils"] }
ipld-core = "=0.4.3"
serde_ipld_dagcbor = "=0.6.4"
bytes = "=1.12.1"
chrono = "=0.4.45"
anyhow = "=1.0.104"
async-once-cell = "=0.5.4"
serde = { version = "=1.0.229", features = ["derive"] }
rand = "=0.8.8"
rand_core = "=0.6.4"
blake3 = "=1.8.7"
chacha20poly1305 = "=0.10.1"
aes-kw = { version = "=0.2.1", features = ["alloc"] }
criterion = { version = "=0.5.1", default-features = false }
js-sys = "=0.3.106"
wasm-bindgen = "=0.2.129"
wasm-bindgen-futures = "=0.4.79"

[dev-dependencies]
futures = "=0.3.34"
