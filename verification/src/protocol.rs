//! The method tag that opens every payload, and the records that travel
//! with a compressed or decompressed message.

use crate::error::{AuraError, ErrorView};
use crate::ratio::Ratio;
use vstd::prelude::*;

verus! {

/// How a payload is encoded. On the wire it is the payload's first byte.
#[derive(Debug, Clone, Copy, PartialEq, Eq, Structural)]
pub enum CompressionMethod {
    /// A template id and the texts of its slots.
    BinarySemantic,
    /// The text itself behind its length.
    AuraLite,
    /// Reserved.
    Brio,
    /// Reserved; decoded like `AuraLite`.
    AuraLiteV2,
    /// The text itself.
    Uncompressed,
}

/// The tag byte of a method.
pub open spec fn method_byte(method: CompressionMethod) -> u8 {
    match method {
        CompressionMethod::BinarySemantic => 0x00,
        CompressionMethod::AuraLite => 0x01,
        CompressionMethod::Brio => 0x02,
        CompressionMethod::AuraLiteV2 => 0x03,
        CompressionMethod::Uncompressed => 0xFF,
    }
}

/// The method that a tag byte stands for, if any.
pub open spec fn method_of_byte(byte: u8) -> Option<CompressionMethod> {
    if byte == 0x00 {
        Some(CompressionMethod::BinarySemantic)
    } else if byte == 0x01 {
        Some(CompressionMethod::AuraLite)
    } else if byte == 0x02 {
        Some(CompressionMethod::Brio)
    } else if byte == 0x03 {
        Some(CompressionMethod::AuraLiteV2)
    } else if byte == 0xFF {
        Some(CompressionMethod::Uncompressed)
    } else {
        None
    }
}

/// The name of a method.
pub open spec fn method_name(method: CompressionMethod) -> Seq<char> {
    match method {
        CompressionMethod::BinarySemantic => "binary_semantic"@,
        CompressionMethod::AuraLite => "auralite"@,
        CompressionMethod::Brio => "brio"@,
        CompressionMethod::AuraLiteV2 => "aura_lite"@,
        CompressionMethod::Uncompressed => "uncompressed"@,
    }
}

impl CompressionMethod {
    /// Reads a method from its tag byte. Any byte that is not a tag is an
    /// error, never a default.
    pub fn from_byte(byte: u8) -> (r: Result<CompressionMethod, AuraError>)
        ensures
            match r {
                Ok(method) => method_of_byte(byte) == Some(method),
                Err(e) => method_of_byte(byte) is None && e@ == ErrorView::UnknownMethod(byte),
            },
    {
        match byte {
            0x00 => Ok(CompressionMethod::BinarySemantic),
            0x01 => Ok(CompressionMethod::AuraLite),
            0x02 => Ok(CompressionMethod::Brio),
            0x03 => Ok(CompressionMethod::AuraLiteV2),
            0xFF => Ok(CompressionMethod::Uncompressed),
            _ => Err(AuraError::UnknownMethod(byte)),
        }
    }

    /// The tag byte of this method.
    pub fn to_byte(&self) -> (byte: u8)
        ensures
            byte == method_byte(*self),
    {
        match self {
            CompressionMethod::BinarySemantic => 0x00,
            CompressionMethod::AuraLite => 0x01,
            CompressionMethod::Brio => 0x02,
            CompressionMethod::AuraLiteV2 => 0x03,
            CompressionMethod::Uncompressed => 0xFF,
        }
    }

    /// The name of this method.
    pub fn as_str(&self) -> (name: &'static str)
        ensures
            name@ == method_name(*self),
    {
        match self {
            CompressionMethod::BinarySemantic => "binary_semantic",
            CompressionMethod::AuraLite => "auralite",
            CompressionMethod::Brio => "brio",
            CompressionMethod::AuraLiteV2 => "aura_lite",
            CompressionMethod::Uncompressed => "uncompressed",
        }
    }
}

/// A tag byte reads back as the method it was written for.
pub proof fn lemma_method_byte_round_trip(method: CompressionMethod)
    ensures
        method_of_byte(method_byte(method)) == Some(method),
{
}

/// What is known of a message after compression.
#[derive(Debug)]
pub struct CompressionMetadata {
    /// Length of the text in bytes.
    pub original_size: usize,
    /// Length of the payload in bytes.
    pub compressed_size: usize,
    /// `original_size` over `compressed_size`.
    pub ratio: Ratio,
    /// Name of the method used.
    pub method: String,
    /// The templates used.
    pub template_ids: Vec<u32>,
    /// When the message was compressed, in seconds since the Unix epoch.
    pub timestamp: u64,
}

/// What is known of a message after decompression.
#[derive(Debug)]
pub struct DecompressionMetadata {
    /// Name of the method that the payload was encoded with.
    pub method: String,
    /// The templates used.
    pub template_ids: Vec<u32>,
}

} // verus!
