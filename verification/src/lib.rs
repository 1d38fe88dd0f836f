//! A filesystem traversal and content-inspection engine: classification of
//! files as text or binary, bounded previews, content hashing, an ordered
//! stream of records and a final summary.
pub mod aggregate;
pub mod cache;
pub mod content;
pub mod errors;
pub mod hashing;
pub mod meta;
pub mod mime;
pub mod options;
pub mod patterns;
pub mod pending;
pub mod record;
pub mod text;
pub mod timezone;
pub mod traversal;
pub mod walker;
