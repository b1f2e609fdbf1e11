[package]
name = "sigilsmith"
version = "0.1.0"
edition = "2021"
publish = false

[dependencies]
anyhow = "=1.0.104"
arboard = { version = "=3.7.0", default-features = false }
blake3 = "=1.8.7"
directories = "=5.0.1"
filetime = "=0.2.29"
flate2 = "=1.1.10"
larian-formats = "=0.3.0"
lz4_flex = "=0.11.6"
quick-xml = { version = "=0.31.0", features = ["serialize"] }
serde = { version = "1", features = ["derive"] }
serde_json = "=1.0.154"
sevenz-rust = "=0.6.1"
time = { version = "=0.3.55", features = ["formatting", "parsing", "macros"] }
walkdir = "=2.5.0"
zip = "2"
zstd = "=0.13.4"
