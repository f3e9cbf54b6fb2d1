[package]
name = "hf-hub"
version = "0.3.2"
edition = "2021"
publish = false

[dependencies]
bytes = "1"
dirs = "5"
indexed_db_futures = "0.4"
js-sys = "0.3"
log = "0.4"
rand = "0.8"
reqwest = { version = "0.12", default-features = false }
serde = { version = "1", features = ["derive"] }
serde-wasm-bindgen = "0.6"
snafu = "0.8"
wasm-bindgen = "0.2"
web-sys = { version = "0.3", features = ["DomException", "IdbKeyRange", "IdbTransactionMode", "IdbCursorDirection"] }
