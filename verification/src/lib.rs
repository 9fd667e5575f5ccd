//! A rule-based morphological tokenizer for Turkish text.
//!
//! Text is split into sub-word tokens (stems, suffixes, byte-pair fallback
//! pieces) by a greedy longest-match lookup cascading across three ranked
//! dictionaries, with Turkish-specific case folding and camel-case
//! segmentation. Every token is mapped to an integer id from a fixed
//! vocabulary.

pub mod casing;
pub mod engine;
pub mod laws;
pub mod outside;
pub mod tokenizer;
pub mod types;
pub mod vocab;

pub use tokenizer::TurkishTokenizer;
pub use types::EncodingResult;
pub use types::InitializationError;
pub use types::Token;
pub use types::TokenType;
