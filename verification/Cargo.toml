[package]
name = "query"
version = "0.1.0"
edition = "2021"
publish = false

[dependencies]
sha2 = "=0.10.9"
hex = "=0.4.3"
dashmap = "=6.2.1"
petgraph = "=0.8.3"
zstd = "=0.13.3"
postcard = { version = "=1.1.3", features = ["use-std"] }
serde = { version = "=1.0.229", features = ["derive"] }
ignore = "=0.4.33"
comrak = { version = "=0.57.0", default-features = false, features = ["syntect-fancy"] }
minify-html = "=0.18.1"
rquickjs = { version = "=0.14.0", features = ["loader", "either", "array-buffer", "classes"] }
relative-path = "=2.0.3"
either = "=1.19.0"
clap = "=4.6.7"
