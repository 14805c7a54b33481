[package]
name = "majestic"
version = "0.1.0"
edition = "2021"
publish = false

[dependencies]
axum = "=0.8.9"
bao-tree = "=0.16.1"
clap = { version = "=4.6.7", features = ["derive"] }
directories = "=6.0.0"
figment = { version = "=0.10.19", features = ["toml", "env"] }
fst = "=0.4.7"
grep-matcher = "=0.1.9"
grep-pcre2 = "=0.1.10"
grep-searcher = "=0.1.17"
libc = "=0.2.191"
memmap2 = "=0.9.12"
rayon = "=1.12.0"
rkyv = { version = "=0.8.18", features = ["pointer_width_64", "unaligned"] }
rusqlite = { version = "=0.41.1", features = ["bundled"] }
serde = { version = "=1.0.229", features = ["derive"] }
serde_json = "=1.0.154"
thiserror = "=2.0.21"
tokio = { version = "=1.54.1", features = ["rt-multi-thread", "net", "macros"] }
toml = "=1.1.8"
toon-format = "=0.7.0"
tracing = "=0.1.44"
tracing-journald = "=0.3.2"
tracing-subscriber = { version = "=0.3.23", features = ["env-filter"] }
zip = { version = "=2.6.1", default-features = false, features = ["deflate"] }
zstd = "=0.13.4"
