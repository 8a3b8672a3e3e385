//! A small library for a message board of "ideas" and anonymous "likes" on
//! them. The store, the idea and like services, and the translation of
//! service outcomes to HTTP status codes and bodies are all verified; the
//! HTTP transport itself lives outside the library.

pub mod clock;
pub mod errors;
pub mod idea;
pub mod ids;
pub mod laws;
pub mod like;
pub mod response;
pub mod store;

pub use ids::is_valid_uuid;
