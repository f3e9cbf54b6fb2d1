//! Cache layout, key naming and download planning for a Hugging Face hub client.

pub mod api;
pub mod text;
mod cache;
pub mod types;

pub use cache::{Cache, CacheRepo, PathType, Repo, RepoType};
