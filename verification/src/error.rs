//! The error type of the compressor.

use crate::text::{decimal, hex_byte, push_decimal, push_hex_byte, push_str, to_text};
use vstd::prelude::*;

verus! {

/// What can go wrong while compressing or decompressing.
#[derive(Debug)]
pub enum AuraError {
    /// The first byte of a payload is not a method tag that can be decoded.
    UnknownMethod(u8),
    /// Encoding failed; the field says why.
    CompressionFailed(String),
    /// A payload was well formed but its text could not be decoded; the
    /// field says why.
    DecompressionFailed(String),
    /// No template is registered under this id.
    TemplateNotFound(u32),
    /// A payload is truncated or malformed; the field says how.
    InvalidPayload(String),
    /// A template store could not be read; the field is the system's error.
    Io(std::io::Error),
    /// A template store is not a JSON document; the field is the parser's
    /// error.
    Json(serde_json::Error),
}

/// `std::io::Error`: why reading or writing failed. Nothing of it is
/// visible to the verifier.
#[verifier::external_type_specification]
#[verifier::external_body]
pub struct ExIoError(std::io::Error);

/// `serde_json::Error`: why a text is not a JSON document. Nothing of it is
/// visible to the verifier.
#[verifier::external_type_specification]
#[verifier::external_body]
pub struct ExJsonError(serde_json::Error);

/// An error with its texts as character sequences.
pub enum ErrorView {
    UnknownMethod(u8),
    CompressionFailed(Seq<char>),
    DecompressionFailed(Seq<char>),
    TemplateNotFound(u32),
    InvalidPayload(Seq<char>),
    Io,
    Json,
}

impl View for AuraError {
    type V = ErrorView;

    open spec fn view(&self) -> ErrorView {
        match self {
            AuraError::UnknownMethod(byte) => ErrorView::UnknownMethod(*byte),
            AuraError::CompressionFailed(reason) => ErrorView::CompressionFailed(reason@),
            AuraError::DecompressionFailed(reason) => ErrorView::DecompressionFailed(reason@),
            AuraError::TemplateNotFound(id) => ErrorView::TemplateNotFound(*id),
            AuraError::InvalidPayload(reason) => ErrorView::InvalidPayload(reason@),
            AuraError::Io(_) => ErrorView::Io,
            AuraError::Json(_) => ErrorView::Json,
        }
    }
}

/// The text of an error. Of an I/O error and of a JSON error it is the
/// opening; the system's or the parser's own words follow.
pub open spec fn error_text(e: ErrorView) -> Seq<char> {
    match e {
        ErrorView::UnknownMethod(byte) => "Unknown compression method: 0x"@ + hex_byte(byte),
        ErrorView::CompressionFailed(reason) => "Compression failed: "@ + reason,
        ErrorView::DecompressionFailed(reason) => "Decompression failed: "@ + reason,
        ErrorView::TemplateNotFound(id) => "Template not found: "@ + decimal(id as nat),
        ErrorView::InvalidPayload(reason) => "Invalid payload: "@ + reason,
        ErrorView::Io => "IO error: "@,
        ErrorView::Json => "JSON error: "@,
    }
}

/// Whether the text of an error ends in words that are not the library's.
pub open spec fn has_outside_words(e: ErrorView) -> bool {
    e is Io || e is Json
}

/// The words of a `std::io::Error`, as its `to_string` gives them. Nothing
/// is claimed of them.
#[verifier::external_body]
fn io_error_words(e: &std::io::Error) -> String {
    e.to_string()
}

/// The words of a `serde_json::Error`, as its `to_string` gives them.
/// Nothing is claimed of them.
#[verifier::external_body]
fn json_error_words(e: &serde_json::Error) -> String {
    e.to_string()
}

impl AuraError {
    /// The text of this error.
    pub fn message(&self) -> (text: String)
        ensures
            !has_outside_words(self@) ==> text@ == error_text(self@),
            has_outside_words(self@) ==> error_text(self@).is_prefix_of(text@),
    {
        let mut out: Vec<char> = Vec::new();
        match self {
            AuraError::UnknownMethod(byte) => {
                push_str(&mut out, "Unknown compression method: 0x");
                push_hex_byte(&mut out, *byte);
            },
            AuraError::CompressionFailed(reason) => {
                push_str(&mut out, "Compression failed: ");
                push_str(&mut out, reason.as_str());
            },
            AuraError::DecompressionFailed(reason) => {
                push_str(&mut out, "Decompression failed: ");
                push_str(&mut out, reason.as_str());
            },
            AuraError::TemplateNotFound(id) => {
                push_str(&mut out, "Template not found: ");
                push_decimal(&mut out, *id as u64);
            },
            AuraError::InvalidPayload(reason) => {
                push_str(&mut out, "Invalid payload: ");
                push_str(&mut out, reason.as_str());
            },
            AuraError::Io(e) => {
                push_str(&mut out, "IO error: ");
                let words = io_error_words(e);
                let ghost opening = out@;
                push_str(&mut out, words.as_str());
                proof {
                    assert(out@.subrange(0, opening.len() as int) =~= opening);
                }
            },
            AuraError::Json(e) => {
                push_str(&mut out, "JSON error: ");
                let words = json_error_words(e);
                let ghost opening = out@;
                push_str(&mut out, words.as_str());
                proof {
                    assert(out@.subrange(0, opening.len() as int) =~= opening);
                }
            },
        }
        proof {
            if !has_outside_words(self@) {
                assert(out@ =~= error_text(self@));
            }
        }
        to_text(out.as_slice())
    }
}

} // verus!
