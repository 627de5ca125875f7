//! Adaptive text compression for AI chat responses.
//!
//! A text is compressed to a template id with the texts of its slots where
//! a template fits, and to a length-prefixed literal otherwise. Beside the
//! payload travels a side-channel of six-byte metadata entries, from which a
//! consumer can classify a message or estimate its size without
//! decompressing it. A cache keyed by the signature of the metadata answers
//! repeated messages of a conversation.
//!
//! The parts, leaves first:
//!
//! - [`text`], [`ratio`], [`clock`], [`frequency`]: characters and decimal
//!   numbers, exact fractions, a monotonic clock, frequency tables;
//! - [`metadata`]: the side-channel;
//! - [`template_library`] and [`template_store`]: the registry of templates,
//!   matching and filling, and the JSON document that templates load from;
//! - [`protocol`], [`wire`] and [`compressor`]: the method tags, the byte
//!   layout of payloads, and the compressor;
//! - [`conversation`] and [`accelerator`]: the cache and the accelerators;
//! - [`sdk`] and [`native`]: the client and server faces, and the compressor
//!   as the native binding offers it.
//!
//! The functions are verified against their contracts. What is taken on
//! trust of the standard library and of other crates is marked where it
//! stands. Proof functions whose names begin with `lemma_` state what holds
//! across functions: that encoding and decoding are inverse, that truncated
//! payloads are rejected, that the cache respects its capacity.

pub mod accelerator;
pub mod clock;
pub mod compressor;
pub mod conversation;
pub mod error;
pub mod frequency;
pub mod metadata;
pub mod native;
pub mod protocol;
pub mod ratio;
pub mod sdk;
pub mod template_library;
pub mod template_store;
pub mod text;
pub mod wire;

pub use accelerator::{
    ConversationAccelerator, ConversationStats, PlatformAccelerator, PlatformStats,
    ProcessingResult,
};
pub use compressor::Compressor;
pub use conversation::{CacheStats, CachedPattern, ConversationCache};
pub use error::AuraError;
pub use metadata::{
    classify_intent_from_metadata, compute_metadata_signature,
    predict_compression_ratio_from_metadata, MetadataEntry, MetadataKind,
};
pub use protocol::{CompressionMetadata, CompressionMethod, DecompressionMetadata};
pub use ratio::Ratio;
pub use sdk::{ClientSDK, ServerSDK};
pub use template_library::TemplateLibrary;
