//! Batched subtitle translation through a chat-completion model: prompt
//! text, response clean-up, cache keys and the batching plan. The HTTP
//! calls and the cache table live outside the library.

pub mod cache;
pub mod client;
pub mod prompt;
pub mod schema;
pub mod translate;

pub use schema::{LineTranslation, TranslationBatch};
