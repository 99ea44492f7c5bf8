[package]
name = "pavex_reflection"
version = "0.1.0"
edition = "2021"
publish = false

[dependencies]
anyhow = "1"
itertools = "0.14"
la-arena = "0.3"
rustdoc-types = "0.36"
serde = { version = "1", features = ["derive"] }
