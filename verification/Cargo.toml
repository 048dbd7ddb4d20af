[package]
name = "token_optimization"
version = "0.1.0"
edition = "2021"
publish = false

[dependencies]
lru = { version = "=0.18.5", default-features = false }
jieba-rs = "=0.11.0"
diff = "=0.1.13"
rayon = "=1.12.0"
num_cpus = "=1.17.0"
once_cell = "=1.21.4"
parking_lot = "=0.12.5"
bloomfilter = "=3.0.2"
serde = { version = "=1.0.229", features = ["derive"] }
