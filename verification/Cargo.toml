[package]
name = "stork_search"
version = "1.0.0"
edition = "2021"
publish = false

[dependencies]
rust-stemmers = "=1.2.0"
unicode-segmentation = "=1.13.3"
frontmatter = "=0.4.0"
kuchiki = "=0.8.1"
markdown = "=0.3.0"
srtparse = "=0.2.0"
serde = { version = "=1.0.229", features = ["derive"] }
serde_json = "=1.0.154"
rmp-serde = "1"
bincode = "=1.3.3"
toml = "=0.5.11"
clap = "=2.34.0"
colored = "=2.2.0"
num-format = "=0.4.4"
atty = "=0.2.14"
once_cell = "=1.21.4"
mime = "=0.3.17"
reqwest = { version = "=0.11.27", default-features = false, features = ["blocking"] }
hyper = { version = "=0.14.32", features = ["server", "http1", "tcp"] }
tokio = { version = "=1.54.1", features = ["rt-multi-thread", "signal", "macros"] }
wasm-bindgen = "=0.2.130"
console_error_panic_hook = "=0.1.7"
indicatif = "0.17"
js-sys = "=0.3.107"
