//! Build pipeline for a personal website: reconciles a source tree of posts,
//! photos, assets and files into a normalized relational store.
//!
//! The store itself is an in-memory value with a mathematical view; callers
//! persist it however they like. The expensive photo transformations are
//! performed by the `image` crate behind a small trusted boundary, and the
//! reconciliation logic around them is verified.

pub mod asset;
pub mod config;
pub mod error;
pub mod file;
pub mod ident;
pub mod imaging;
pub mod json;
pub mod laws;
pub mod markup;
pub mod metadata;
pub mod photo;
pub mod post;
pub mod rebuild;
pub mod source;
pub mod store;
pub mod text;
pub mod user;
