//! The decisions of the hub client: url templates, the builder's settings,
//! the file metadata read from response headers, and which chunks of a file
//! to fetch.

pub mod wasm;
