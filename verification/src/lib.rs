//! An in-memory feed of short text posts.
//!
//! The library holds the post store, the JSON wire codec for posts, and the
//! three request operations (list the feed, create a post, fetch one post).
//! HTTP transport, logging and process startup live outside the library.

pub mod codec;
pub mod handlers;
pub mod model;
pub mod store;
