[package]
name = "vector_index"
version = "0.1.0"
edition = "2021"
publish = false

[dependencies]
dashmap = "=6.2.1"
diskann = "=0.60.0"
diskann-vector = "=0.60.0"
bitvec = "=1.1.1"
serde = { version = "=1.0.229", features = ["derive"] }
anyhow = "=1.0.104"
arrow = { version = "=60.0.0", default-features = false }

[dev-dependencies]
ordered-float = "=5.5.0"
