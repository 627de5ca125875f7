//! The compressor as the native binding offers it: a table of templates
//! with fixed slot counts, a general-purpose codec for texts that no
//! template is named for, and results that carry their sizes.
//!
//! Its payloads open with a tag of their own: `1` for a template, `2` for
//! the general-purpose codec, and any other byte for text as it is.

use crate::ratio::Ratio;
use crate::template_library::{fill, fill_pattern};
use crate::text::{decimal, push_decimal, push_str, string_views, to_chars, to_text};
use crate::wire::{
    decode_slots, parse_slots, push_bytes, read_text, slot_blocks, utf8_text, SlotFault,
    SlotFaultView,
};
use std::collections::HashMap;
use std::io::{Read, Write};
use vstd::prelude::*;
use vstd::slice::slice_subrange;
use vstd::std_specs::convert::FromSpecImpl;
use vstd::utf8::encode_utf8;

verus! {

/// How a payload of the binding is encoded.
#[derive(Debug, Clone, Copy, PartialEq, Eq, Structural)]
pub enum CompressionMethod {
    BinarySemantic,
    Brotli,
    Uncompressed,
}

/// The method that a tag byte stands for: every byte but `1` and `2` stands
/// for text as it is.
pub open spec fn method_of_tag(tag: u8) -> CompressionMethod {
    if tag == 1 {
        CompressionMethod::BinarySemantic
    } else if tag == 2 {
        CompressionMethod::Brotli
    } else {
        CompressionMethod::Uncompressed
    }
}

/// The tag byte of a method.
pub open spec fn tag_of_method(method: CompressionMethod) -> u8 {
    match method {
        CompressionMethod::BinarySemantic => 1,
        CompressionMethod::Brotli => 2,
        CompressionMethod::Uncompressed => 255,
    }
}

impl CompressionMethod {
    /// The tag byte of this method.
    pub fn to_byte(&self) -> (tag: u8)
        ensures
            tag == tag_of_method(*self),
    {
        match self {
            CompressionMethod::BinarySemantic => 1,
            CompressionMethod::Brotli => 2,
            CompressionMethod::Uncompressed => 255,
        }
    }
}

impl From<u8> for CompressionMethod {
    fn from(value: u8) -> (method: CompressionMethod) {
        match value {
            1 => CompressionMethod::BinarySemantic,
            2 => CompressionMethod::Brotli,
            _ => CompressionMethod::Uncompressed,
        }
    }
}

impl FromSpecImpl<u8> for CompressionMethod {
    open spec fn obeys_from_spec() -> bool {
        true
    }

    open spec fn from_spec(value: u8) -> CompressionMethod {
        method_of_tag(value)
    }
}

/// The kind of an error of the binding.
#[derive(Debug, Clone, Copy, PartialEq, Eq, Structural)]
pub enum Status {
    /// The caller's input is at fault.
    InvalidArg,
    /// The codec failed.
    GenericFailure,
}

/// An error of the binding.
#[derive(Debug)]
pub struct NativeError {
    pub status: Status,
    pub reason: String,
}

/// What is owed of an error: its status, and its text where the library
/// words it or the UTF-8 decoder does. The codec's own texts are not owed.
pub struct Fault {
    pub status: Status,
    pub reason: Option<Seq<char>>,
}

/// Whether an error is the one owed.
pub open spec fn is_fault(e: NativeError, fault: Fault) -> bool {
    e.status == fault.status && (fault.reason matches Some(reason) ==> e.reason@ == reason)
}

/// An error of the caller with the given text.
pub open spec fn invalid_arg(reason: Seq<char>) -> Fault {
    Fault { status: Status::InvalidArg, reason: Some(reason) }
}

/// An error of the codec.
pub open spec fn codec_failure() -> Fault {
    Fault { status: Status::GenericFailure, reason: None }
}

/// The text of the error of a wrong number of slots.
pub open spec fn slot_count_text(expected: nat, got: nat) -> Seq<char> {
    "Expected "@ + decimal(expected) + " slots, got "@ + decimal(got)
}

/// The text of the error of an id that no template has.
pub open spec fn unknown_template_text(id: u8) -> Seq<char> {
    "Unknown template ID: "@ + decimal(id as nat)
}

fn invalid(reason: &str) -> (e: NativeError)
    ensures
        is_fault(e, invalid_arg(reason@)),
        e.status == Status::InvalidArg,
        e.reason@ == reason@,
{
    NativeError { status: Status::InvalidArg, reason: reason.to_owned() }
}

fn slot_count_error(expected: u8, got: usize) -> (e: NativeError)
    ensures
        e.status == Status::InvalidArg,
        e.reason@ == slot_count_text(expected as nat, got as nat),
{
    let mut reason: Vec<char> = Vec::new();
    push_str(&mut reason, "Expected ");
    push_decimal(&mut reason, expected as u64);
    push_str(&mut reason, " slots, got ");
    push_decimal(&mut reason, got as u64);
    proof {
        assert(reason@ =~= slot_count_text(expected as nat, got as nat));
    }
    NativeError { status: Status::InvalidArg, reason: to_text(reason.as_slice()) }
}

fn unknown_template_error(id: u8) -> (e: NativeError)
    ensures
        e.status == Status::InvalidArg,
        e.reason@ == unknown_template_text(id),
{
    let mut reason: Vec<char> = Vec::new();
    push_str(&mut reason, "Unknown template ID: ");
    push_decimal(&mut reason, id as u64);
    proof {
        assert(reason@ =~= unknown_template_text(id));
    }
    NativeError { status: Status::InvalidArg, reason: to_text(reason.as_slice()) }
}

/// A template of the binding: a pattern with a fixed number of slots.
#[derive(Debug)]
pub struct Template {
    pub id: u8,
    pub pattern: String,
    pub description: String,
    pub slots: u8,
}

/// A template as plain values.
pub struct TemplateView {
    pub id: u8,
    pub pattern: Seq<char>,
    pub description: Seq<char>,
    pub slots: u8,
}

impl View for Template {
    type V = TemplateView;

    open spec fn view(&self) -> TemplateView {
        TemplateView {
            id: self.id,
            pattern: self.pattern@,
            description: self.description@,
            slots: self.slots,
        }
    }
}

/// The template with its slots filled in; an error where the number of
/// slots is not the template's.
pub open spec fn filled(template: TemplateView, slots: Seq<Seq<char>>) -> Result<Seq<char>, Fault> {
    if slots.len() != template.slots {
        Err(invalid_arg(slot_count_text(template.slots as nat, slots.len())))
    } else {
        Ok(fill(template.pattern, slots))
    }
}

impl Template {
    /// A template.
    pub fn new(id: u8, pattern: &str, description: &str, slots: u8) -> (template: Template)
        ensures
            template@ == (TemplateView {
                id,
                pattern: pattern@,
                description: description@,
                slots,
            }),
    {
        Template { id, pattern: pattern.to_owned(), description: description.to_owned(), slots }
    }

    /// A copy of this template.
    pub fn duplicate(&self) -> (copy: Template)
        ensures
            copy@ == self@,
    {
        Template {
            id: self.id,
            pattern: self.pattern.clone(),
            description: self.description.clone(),
            slots: self.slots,
        }
    }

    /// The pattern with the slots filled in. Fails where the number of
    /// slots is not the template's.
    pub fn fill(&self, slots: &[String]) -> (r: Result<String, NativeError>)
        ensures
            match r {
                Ok(text) => filled(self@, string_views(slots@)) == Ok::<Seq<char>, Fault>(text@),
                Err(e) => filled(self@, string_views(slots@)) matches Err(fault) && is_fault(
                    e,
                    fault,
                ),
            },
    {
        if slots.len() != self.slots as usize {
            return Err(slot_count_error(self.slots, slots.len()));
        }
        let pattern = to_chars(self.pattern.as_str());
        let text = fill_pattern(pattern.as_slice(), slots);
        Ok(to_text(text.as_slice()))
    }
}

/// What `brotli::Decompressor` makes of bytes read to their end: the
/// decoded bytes, or `None` where it fails. Trusted to depend on the bytes
/// alone; nothing else is claimed of it.
pub uninterp spec fn brotli_decoded(data: Seq<u8>) -> Option<Seq<u8>>;

/// Buffer size handed to the codec.
pub const CODEC_BUFFER: usize = 4096;

/// Quality handed to the encoder.
pub const CODEC_QUALITY: u32 = 11;

/// Window size, as a power of two, handed to the encoder.
pub const CODEC_WINDOW: u32 = 22;

/// `brotli::CompressorWriter`: writes `data` through an encoder into a
/// vector, with `write_all`, and closes the stream by dropping the writer.
/// Claimed is that what the encoder gives decodes to `data`. Which stream
/// it gives is not claimed: that may differ between machines. A failure of
/// the write comes back as the text of its error.
#[verifier::external_body]
fn brotli_compress(data: &[u8], buffer_size: usize, quality: u32, window: u32) -> (r: Result<
    Vec<u8>,
    String,
>)
    requires
        buffer_size > 0,
        quality <= 11,
        10 <= window <= 24,
    ensures
        r matches Ok(out) ==> brotli_decoded(out@) == Some(data@),
{
    let mut compressed = Vec::new();
    let mut writer = brotli::CompressorWriter::new(&mut compressed, buffer_size, quality, window);
    let written = writer.write_all(data);
    drop(writer);
    match written {
        Ok(()) => Ok(compressed),
        Err(e) => Err(e.to_string()),
    }
}

/// `brotli::Decompressor`: reads `data` through a decoder to its end, with
/// `read_to_end`. Claimed is that the outcome depends on the bytes alone. A
/// failure comes back as the text of its error, of which nothing is
/// claimed.
#[verifier::external_body]
fn brotli_decompress(data: &[u8], buffer_size: usize) -> (r: Result<Vec<u8>, String>)
    requires
        buffer_size > 0,
    ensures
        match r {
            Ok(out) => brotli_decoded(data@) == Some(out@),
            Err(_) => brotli_decoded(data@) is None,
        },
{
    let mut decompressed = Vec::new();
    let mut reader = brotli::Decompressor::new(data, buffer_size);
    match reader.read_to_end(&mut decompressed) {
        Ok(_) => Ok(decompressed),
        Err(e) => Err(e.to_string()),
    }
}

/// The low 32 bits of a size.
pub open spec fn size32(n: nat) -> u32 {
    (n % 4294967296) as u32
}

fn low32(n: usize) -> (r: u32)
    ensures
        r == size32(n as nat),
{
    ((n as u64) % 4294967296) as u32
}

/// A compressed message with its sizes.
#[derive(Debug)]
pub struct CompressionResult {
    pub data: Vec<u8>,
    pub method: CompressionMethod,
    /// Length of the text in bytes, its low 32 bits.
    pub original_size: u32,
    /// Length of `data`, its low 32 bits.
    pub compressed_size: u32,
    /// The length of the text over the length of `data`; `1 / 1` for text
    /// stored as it is.
    pub ratio: Ratio,
    pub template_id: Option<u8>,
}

/// A decompressed message with its sizes.
#[derive(Debug)]
pub struct DecompressionResult {
    pub plaintext: String,
    pub method: CompressionMethod,
    /// Length of the text in bytes, its low 32 bits.
    pub original_size: u32,
    /// Length of the payload, its low 32 bits.
    pub compressed_size: u32,
    /// The length of the text over the length of the payload.
    pub ratio: Ratio,
    pub template_id: Option<u8>,
}

/// The fraction of two sizes.
pub open spec fn size_ratio(original: nat, compressed: nat) -> Ratio {
    Ratio { numerator: original as u128, denominator: compressed as u128 }
}

/// A payload of text as it is: the tag `255`, then the UTF-8 bytes.
pub open spec fn uncompressed_bytes(text: Seq<char>) -> Seq<u8> {
    seq![255u8] + encode_utf8(text)
}

/// A template payload: the tag `1`, the template id, the number of slots,
/// then the slots.
pub open spec fn template_bytes(template_id: u8, slots: Seq<Seq<char>>) -> Seq<u8> {
    seq![1u8, template_id, (slots.len() % 256) as u8] + slot_blocks(slots)
}

/// Whether `result` holds text stored as it is.
pub open spec fn is_uncompressed(result: CompressionResult, text: Seq<char>) -> bool {
    &&& result.data@ == uncompressed_bytes(text)
    &&& result.method == CompressionMethod::Uncompressed
    &&& result.original_size == size32(encode_utf8(text).len())
    &&& result.compressed_size == size32(result.data@.len())
    &&& result.ratio == (Ratio { numerator: 1, denominator: 1 })
    &&& result.template_id is None
}

/// Whether `result` holds `text` behind the stream `compressed`: the tag
/// `2`, then the stream.
pub open spec fn is_brotli_frame(
    result: CompressionResult,
    text: Seq<char>,
    compressed: Seq<u8>,
) -> bool {
    &&& result.data@ == seq![2u8] + compressed
    &&& result.method == CompressionMethod::Brotli
    &&& result.original_size == size32(encode_utf8(text).len())
    &&& result.compressed_size == size32(result.data@.len())
    &&& result.ratio == size_ratio(encode_utf8(text).len(), result.data@.len())
    &&& result.template_id is None
}

/// Whether `result` holds text behind the general-purpose codec: the tag
/// `2`, then a stream that decodes to the text's UTF-8 bytes.
pub open spec fn is_brotli(result: CompressionResult, text: Seq<char>) -> bool {
    exists|compressed: Seq<u8>|
        brotli_decoded(compressed) == Some(encode_utf8(text)) && #[trigger] is_brotli_frame(
            result,
            text,
            compressed,
        )
}

/// Whether `result` holds the template `template_id` with `slots`, which
/// fill in to `plaintext`.
pub open spec fn is_template(
    result: CompressionResult,
    template_id: u8,
    slots: Seq<Seq<char>>,
    plaintext: Seq<char>,
) -> bool {
    &&& result.data@ == template_bytes(template_id, slots)
    &&& result.method == CompressionMethod::BinarySemantic
    &&& result.original_size == size32(encode_utf8(plaintext).len())
    &&& result.compressed_size == size32(result.data@.len())
    &&& result.ratio == size_ratio(encode_utf8(plaintext).len(), result.data@.len())
    &&& result.template_id == Some(template_id)
}

/// Frames text as it is.
pub fn frame_uncompressed(text: &str) -> (result: CompressionResult)
    ensures
        is_uncompressed(result, text@),
{
    let bytes = text.as_bytes();
    let mut data: Vec<u8> = Vec::new();
    data.push(255);
    push_bytes(&mut data, bytes);
    let compressed_size = low32(data.len());
    CompressionResult {
        data,
        method: CompressionMethod::Uncompressed,
        original_size: low32(bytes.len()),
        compressed_size,
        ratio: Ratio::one(),
        template_id: None,
    }
}

/// Frames a stream that the general-purpose codec made of `text`.
pub fn frame_brotli(text: &str, compressed: &[u8]) -> (result: CompressionResult)
    ensures
        is_brotli_frame(result, text@, compressed@),
{
    let original = text.as_bytes().len();
    let mut data: Vec<u8> = Vec::new();
    data.push(2);
    push_bytes(&mut data, compressed);
    let size = data.len();
    CompressionResult {
        data,
        method: CompressionMethod::Brotli,
        original_size: low32(original),
        compressed_size: low32(size),
        ratio: Ratio::new(original as u128, size as u128),
        template_id: None,
    }
}

/// The state of the binding's compressor as plain values.
pub struct NativeView {
    pub templates: Map<u8, TemplateView>,
    pub binary_threshold: Ratio,
    pub min_size: nat,
}

/// The templates that every compressor of the binding starts with.
pub open spec fn default_templates() -> Map<u8, TemplateView> {
    Map::<u8, TemplateView>::empty().insert(
        0,
        TemplateView {
            id: 0,
            pattern: "I don't have access to {0}. {1}"@,
            description: "No real-time data"@,
            slots: 2,
        },
    ).insert(
        1,
        TemplateView {
            id: 1,
            pattern: "I can help you with {0}. {1}"@,
            description: "Offer help"@,
            slots: 2,
        },
    ).insert(
        2,
        TemplateView {
            id: 2,
            pattern: "To {0}, you need to {1}."@,
            description: "Instructions"@,
            slots: 2,
        },
    ).insert(
        10,
        TemplateView {
            id: 10,
            pattern: "Yes, I can help with that. {0}"@,
            description: "Help confirmation"@,
            slots: 1,
        },
    ).insert(
        20,
        TemplateView {
            id: 20,
            pattern: "{0} is {1} {2} {3}."@,
            description: "Definition"@,
            slots: 4,
        },
    ).insert(
        40,
        TemplateView {
            id: 40,
            pattern: "To {0}, use {1}: `{2}`"@,
            description: "Tool instruction"@,
            slots: 3,
        },
    ).insert(
        90,
        TemplateView {
            id: 90,
            pattern: "To {0}, I recommend: {1}"@,
            description: "Recommendation"@,
            slots: 2,
        },
    ).insert(
        100,
        TemplateView {
            id: 100,
            pattern: "Yes, I can help with that. What specific {0} would you like to know more about?"@,
            description: "Clarification"@,
            slots: 1,
        },
    )
}

/// The views of the templates of a map.
pub open spec fn template_views(templates: Map<u8, Template>) -> Map<u8, TemplateView> {
    templates.map_values(|t: Template| t@)
}

/// What a template payload behind its tag reads as: the text and the
/// template id.
///
/// The payload must hold the id and the slot count; the id must have a
/// template; the count must be the template's; then the slots are read and
/// filled in.
pub open spec fn template_decoded(templates: Map<u8, TemplateView>, data: Seq<u8>) -> Result<
    (Seq<char>, u8),
    Fault,
> {
    if data.len() < 2 {
        Err(invalid_arg("Data too short"@))
    } else if !templates.contains_key(data[0]) {
        Err(invalid_arg(unknown_template_text(data[0])))
    } else if data[1] != templates[data[0]].slots {
        Err(invalid_arg(slot_count_text(templates[data[0]].slots as nat, data[1] as nat)))
    } else {
        match parse_slots(data, 2, data[1] as nat) {
            Err(SlotFaultView::LengthCutShort) => Err(invalid_arg("Incomplete slot length"@)),
            Err(SlotFaultView::DataCutShort) => Err(invalid_arg("Incomplete slot data"@)),
            Err(SlotFaultView::BadText(reason)) => Err(invalid_arg(reason)),
            Ok(slots) => match filled(templates[data[0]], slots) {
                Err(fault) => Err(fault),
                Ok(text) => Ok((text, data[0])),
            },
        }
    }
}

/// What bytes read as text, in the binding's terms.
pub open spec fn text_decoded(raw: Seq<u8>) -> Result<Seq<char>, Fault> {
    match utf8_text(raw) {
        Ok(text) => Ok(text),
        Err(reason) => Err(invalid_arg(reason)),
    }
}

/// What a payload decompresses to: the text, the method and the template
/// id.
pub open spec fn native_decoded(templates: Map<u8, TemplateView>, data: Seq<u8>) -> Result<
    (Seq<char>, CompressionMethod, Option<u8>),
    Fault,
> {
    if data.len() == 0 {
        Err(invalid_arg("Empty data"@))
    } else {
        let rest = data.subrange(1, data.len() as int);
        match method_of_tag(data[0]) {
            CompressionMethod::BinarySemantic => match template_decoded(templates, rest) {
                Err(fault) => Err(fault),
                Ok((text, id)) => Ok((text, CompressionMethod::BinarySemantic, Some(id))),
            },
            CompressionMethod::Brotli => match brotli_decoded(rest) {
                None => Err(codec_failure()),
                Some(raw) => match text_decoded(raw) {
                    Err(fault) => Err(fault),
                    Ok(text) => Ok((text, CompressionMethod::Brotli, None)),
                },
            },
            CompressionMethod::Uncompressed => match text_decoded(rest) {
                Err(fault) => Err(fault),
                Ok(text) => Ok((text, CompressionMethod::Uncompressed, None)),
            },
        }
    }
}

/// Whether `result` is the decompression of `data` to `outcome`.
pub open spec fn is_decompression(
    result: DecompressionResult,
    data: Seq<u8>,
    outcome: (Seq<char>, CompressionMethod, Option<u8>),
) -> bool {
    &&& result.plaintext@ == outcome.0
    &&& result.method == outcome.1
    &&& result.template_id == outcome.2
    &&& result.original_size == size32(encode_utf8(outcome.0).len())
    &&& result.compressed_size == size32(data.len())
    &&& result.ratio == size_ratio(encode_utf8(outcome.0).len(), data.len())
}

/// The text that the template under `id` makes of `slots`; an error where
/// the id has no template or the number of slots is not the template's.
pub open spec fn template_plaintext(
    templates: Map<u8, TemplateView>,
    id: u8,
    slots: Seq<Seq<char>>,
) -> Result<Seq<char>, Fault> {
    if templates.contains_key(id) {
        filled(templates[id], slots)
    } else {
        Err(invalid_arg(unknown_template_text(id)))
    }
}

/// The compressor of the binding.
pub struct AuraCompressor {
    templates: HashMap<u8, Template>,
    binary_threshold: Ratio,
    min_size: usize,
}

impl View for AuraCompressor {
    type V = NativeView;

    closed spec fn view(&self) -> NativeView {
        NativeView {
            templates: template_views(self.templates@),
            binary_threshold: self.binary_threshold,
            min_size: self.min_size as nat,
        }
    }
}

impl AuraCompressor {
    /// A compressor with the default templates, which stores texts below
    /// 50 bytes as they are.
    pub fn new() -> (r: Result<AuraCompressor, NativeError>)
        ensures
            r matches Ok(compressor) && compressor@ == (NativeView {
                templates: default_templates(),
                binary_threshold: Ratio { numerator: 11, denominator: 10 },
                min_size: 50,
            }),
    {
        AuraCompressor::with_config(Ratio::new(11, 10), 50)
    }

    /// A compressor with the default templates and the given settings.
    pub fn with_config(binary_threshold: Ratio, min_size: u32) -> (r: Result<
        AuraCompressor,
        NativeError,
    >)
        ensures
            r matches Ok(compressor) && compressor@ == (NativeView {
                templates: default_templates(),
                binary_threshold,
                min_size: min_size as nat,
            }),
    {
        let templates: HashMap<u8, Template> = HashMap::new();
        proof {
            assert(template_views(templates@) =~= Map::<u8, TemplateView>::empty());
        }
        let mut compressor = AuraCompressor {
            templates,
            binary_threshold,
            min_size: min_size as usize,
        };
        compressor.add_default_templates();
        proof {
            assert(compressor@.templates =~= default_templates());
        }
        Ok(compressor)
    }

    /// Adds a template under its id, replacing what the id stood for.
    pub fn add_template(&mut self, template: Template)
        ensures
            final(self)@ == (NativeView {
                templates: old(self)@.templates.insert(template.id, template@),
                ..old(self)@
            }),
    {
        broadcast use vstd::std_specs::hash::group_hash_axioms;

        let ghost before = self.templates@;
        let ghost id = template.id;
        let ghost view = template@;
        self.templates.insert(template.id, template);
        proof {
            assert(template_views(self.templates@) =~= template_views(before).insert(id, view));
        }
    }

    /// The template under `id`, if there is one.
    pub fn get_template(&self, id: u8) -> (found: Option<Template>)
        ensures
            match found {
                Some(template) => self@.templates.contains_key(id) && template@
                    == self@.templates[id],
                None => !self@.templates.contains_key(id),
            },
    {
        broadcast use vstd::std_specs::hash::group_hash_axioms;

        match self.templates.get(&id) {
            Some(template) => Some(template.duplicate()),
            None => None,
        }
    }

    /// Adds the default templates.
    pub fn add_default_templates(&mut self)
        ensures
            final(self)@ == (NativeView {
                templates: old(self)@.templates.union_prefer_right(default_templates()),
                ..old(self)@
            }),
    {
        self.add_template(
            Template::new(0, "I don't have access to {0}. {1}", "No real-time data", 2),
        );
        self.add_template(Template::new(1, "I can help you with {0}. {1}", "Offer help", 2));
        self.add_template(Template::new(2, "To {0}, you need to {1}.", "Instructions", 2));
        self.add_template(
            Template::new(10, "Yes, I can help with that. {0}", "Help confirmation", 1),
        );
        self.add_template(Template::new(20, "{0} is {1} {2} {3}.", "Definition", 4));
        self.add_template(Template::new(40, "To {0}, use {1}: `{2}`", "Tool instruction", 3));
        self.add_template(Template::new(90, "To {0}, I recommend: {1}", "Recommendation", 2));
        self.add_template(
            Template::new(
                100,
                "Yes, I can help with that. What specific {0} would you like to know more about?",
                "Clarification",
                1,
            ),
        );
        proof {
            assert(self@.templates =~= old(self)@.templates.union_prefer_right(
                default_templates(),
            ));
        }
    }

    /// Compresses a text: stored as it is where it is shorter than the
    /// compressor's minimum, behind the general-purpose codec otherwise.
    /// Fails only where the codec does.
    pub fn compress(&self, text: String) -> (r: Result<CompressionResult, NativeError>)
        ensures
            match r {
                Ok(result) => if encode_utf8(text@).len() < self@.min_size {
                    is_uncompressed(result, text@)
                } else {
                    is_brotli(result, text@)
                },
                Err(e) => encode_utf8(text@).len() >= self@.min_size && e.status
                    == Status::GenericFailure,
            },
    {
        let original_size = text.as_str().as_bytes().len();
        if original_size < self.min_size {
            return Ok(frame_uncompressed(text.as_str()));
        }
        self.compress_brotli(text.as_str())
    }

    /// Compresses a text with the general-purpose codec. Fails only where
    /// the codec does.
    pub fn compress_brotli(&self, text: &str) -> (r: Result<CompressionResult, NativeError>)
        ensures
            match r {
                Ok(result) => is_brotli(result, text@),
                Err(e) => e.status == Status::GenericFailure,
            },
    {
        match brotli_compress(text.as_bytes(), CODEC_BUFFER, CODEC_QUALITY, CODEC_WINDOW) {
            Ok(compressed) => {
                let result = frame_brotli(text, compressed.as_slice());
                proof {
                    assert(is_brotli_frame(result, text@, compressed@));
                }
                Ok(result)
            },
            Err(reason) => Err(NativeError { status: Status::GenericFailure, reason }),
        }
    }

    /// Stores a text as it is.
    pub fn compress_uncompressed(&self, text: &str) -> (r: Result<CompressionResult, NativeError>)
        ensures
            r matches Ok(result) && is_uncompressed(result, text@),
    {
        Ok(frame_uncompressed(text))
    }

    /// Compresses the slots of a template. Fails where the id has no
    /// template, and where the number of slots is not the template's.
    pub fn compress_with_template(&self, template_id: u8, slots: Vec<String>) -> (r: Result<
        CompressionResult,
        NativeError,
    >)
        ensures
            match r {
                Ok(result) => template_plaintext(
                    self@.templates,
                    template_id,
                    string_views(slots@),
                ) matches Ok(plaintext) && is_template(
                    result,
                    template_id,
                    string_views(slots@),
                    plaintext,
                ),
                Err(e) => template_plaintext(
                    self@.templates,
                    template_id,
                    string_views(slots@),
                ) matches Err(fault) && is_fault(e, fault),
            },
    {
        broadcast use vstd::std_specs::hash::group_hash_axioms;

        let template = match self.templates.get(&template_id) {
            Some(template) => template,
            None => {
                return Err(unknown_template_error(template_id));
            },
        };
        let plaintext = match template.fill(slots.as_slice()) {
            Ok(plaintext) => plaintext,
            Err(e) => {
                return Err(e);
            },
        };
        let original_size = plaintext.as_str().as_bytes().len();
        let data = encode_template(template_id, slots.as_slice());
        let compressed_size = data.len();
        Ok(
            CompressionResult {
                data,
                method: CompressionMethod::BinarySemantic,
                original_size: low32(original_size),
                compressed_size: low32(compressed_size),
                ratio: Ratio::new(original_size as u128, compressed_size as u128),
                template_id: Some(template_id),
            },
        )
    }

    /// Reads a template payload behind its tag: the text and the template
    /// id.
    pub fn decompress_binary_semantic(&self, data: &[u8]) -> (r: Result<(String, u8), NativeError>)
        ensures
            match r {
                Ok((text, id)) => template_decoded(self@.templates, data@) == Ok::<
                    (Seq<char>, u8),
                    Fault,
                >((text@, id)),
                Err(e) => template_decoded(self@.templates, data@) matches Err(fault) && is_fault(
                    e,
                    fault,
                ),
            },
    {
        broadcast use vstd::std_specs::hash::group_hash_axioms;

        if data.len() < 2 {
            return Err(invalid("Data too short"));
        }
        let template_id = data[0];
        let slot_count = data[1] as usize;
        let template = match self.templates.get(&template_id) {
            Some(template) => template,
            None => {
                return Err(unknown_template_error(template_id));
            },
        };
        if slot_count != template.slots as usize {
            return Err(slot_count_error(template.slots, slot_count));
        }
        let slots = match decode_slots(data, 2, slot_count) {
            Ok(slots) => slots,
            Err(SlotFault::LengthCutShort) => {
                return Err(invalid("Incomplete slot length"));
            },
            Err(SlotFault::DataCutShort) => {
                return Err(invalid("Incomplete slot data"));
            },
            Err(SlotFault::BadText(reason)) => {
                return Err(NativeError { status: Status::InvalidArg, reason });
            },
        };
        match template.fill(slots.as_slice()) {
            Ok(plaintext) => Ok((plaintext, template_id)),
            Err(e) => Err(e),
        }
    }

    /// Reads a payload of the general-purpose codec behind its tag.
    pub fn decompress_brotli(&self, data: &[u8]) -> (r: Result<String, NativeError>)
        ensures
            match r {
                Ok(text) => brotli_decoded(data@) matches Some(raw) && text_decoded(raw) == Ok::<
                    Seq<char>,
                    Fault,
                >(text@),
                Err(e) => match brotli_decoded(data@) {
                    None => is_fault(e, codec_failure()),
                    Some(raw) => text_decoded(raw) matches Err(fault) && is_fault(e, fault),
                },
            },
    {
        let raw = match brotli_decompress(data, CODEC_BUFFER) {
            Ok(raw) => raw,
            Err(reason) => {
                return Err(NativeError { status: Status::GenericFailure, reason });
            },
        };
        proof {
            assert(raw@.subrange(0, raw@.len() as int) =~= raw@);
        }
        match read_text(raw.as_slice(), 0, raw.len()) {
            Ok(text) => Ok(text),
            Err(reason) => Err(NativeError { status: Status::InvalidArg, reason }),
        }
    }

    /// Decompresses a payload. The first byte is the tag: `1` for a
    /// template, `2` for the general-purpose codec, any other for text as
    /// it is.
    pub fn decompress(&self, data: &[u8]) -> (r: Result<DecompressionResult, NativeError>)
        ensures
            match r {
                Ok(result) => native_decoded(self@.templates, data@) matches Ok(outcome)
                    && is_decompression(result, data@, outcome),
                Err(e) => native_decoded(self@.templates, data@) matches Err(fault) && is_fault(
                    e,
                    fault,
                ),
            },
    {
        if data.len() == 0 {
            return Err(invalid("Empty data"));
        }
        let method = CompressionMethod::from(data[0]);
        let rest = slice_subrange(data, 1, data.len());
        let compressed_size = data.len();
        let (plaintext, template_id) = match method {
            CompressionMethod::BinarySemantic => match self.decompress_binary_semantic(rest) {
                Ok((text, id)) => (text, Some(id)),
                Err(e) => {
                    return Err(e);
                },
            },
            CompressionMethod::Brotli => match self.decompress_brotli(rest) {
                Ok(text) => (text, None),
                Err(e) => {
                    return Err(e);
                },
            },
            CompressionMethod::Uncompressed => {
                proof {
                    assert(rest@.subrange(0, rest@.len() as int) =~= rest@);
                }
                match read_text(rest, 0, rest.len()) {
                    Ok(text) => (text, None),
                    Err(reason) => {
                        return Err(NativeError { status: Status::InvalidArg, reason });
                    },
                }
            },
        };
        let original_size = plaintext.as_str().as_bytes().len();
        Ok(
            DecompressionResult {
                plaintext,
                method,
                original_size: low32(original_size),
                compressed_size: low32(compressed_size),
                ratio: Ratio::new(original_size as u128, compressed_size as u128),
                template_id,
            },
        )
    }
}

/// Encodes a template id and its slots as a payload of the binding.
pub fn encode_template(template_id: u8, slots: &[String]) -> (data: Vec<u8>)
    ensures
        data@ == template_bytes(template_id, string_views(slots@)),
{
    let ghost all = string_views(slots@);
    let mut data: Vec<u8> = Vec::new();
    data.push(1);
    data.push(template_id);
    data.push((slots.len() % 256) as u8);
    let ghost header = data@;
    let mut i: usize = 0;
    proof {
        assert(all.take(0) =~= Seq::<Seq<char>>::empty());
        assert(data@ =~= header + slot_blocks(all.take(0)));
    }
    while i < slots.len()
        invariant
            i <= slots.len(),
            all == string_views(slots@),
            data@ == header + slot_blocks(all.take(i as int)),
        decreases slots.len() - i,
    {
        let ghost before = data@;
        crate::wire::push_slot(&mut data, slots[i].as_str());
        proof {
            crate::wire::lemma_slot_blocks_push(all.take(i as int), all[i as int]);
            assert(all.take(i + 1) =~= all.take(i as int).push(all[i as int]));
            assert(data@ =~= header + (slot_blocks(all.take(i as int)) + crate::wire::slot_block(
                all[i as int],
            )));
        }
        i = i + 1;
    }
    proof {
        assert(all.take(i as int) =~= all);
    }
    data
}

/// What `compress` gives decompresses to the text: text stored as it is
/// comes back with the method of text as it is, and text behind the
/// general-purpose codec with that codec's method.
pub proof fn lemma_native_round_trip(
    templates: Map<u8, TemplateView>,
    text: Seq<char>,
    result: CompressionResult,
)
    requires
        is_uncompressed(result, text) || is_brotli(result, text),
    ensures
        native_decoded(templates, result.data@) == Ok::<
            (Seq<char>, CompressionMethod, Option<u8>),
            Fault,
        >((text, result.method, None)),
{
    crate::wire::lemma_decoded_text_of_encoding(text);
    let data = result.data@;
    if is_uncompressed(result, text) {
        assert(data[0] == 255u8);
        assert(data.subrange(1, data.len() as int) =~= encode_utf8(text));
    } else {
        let compressed = choose|compressed: Seq<u8>|
            brotli_decoded(compressed) == Some(encode_utf8(text)) && #[trigger] is_brotli_frame(
                result,
                text,
                compressed,
            );
        assert(data[0] == 2u8);
        assert(data.subrange(1, data.len() as int) =~= compressed);
    }
}

/// What `compress_with_template` gives decompresses to the template with
/// the slots filled in, for slots whose UTF-8 bytes count below 65536.
pub proof fn lemma_native_template_round_trip(
    templates: Map<u8, TemplateView>,
    template_id: u8,
    slots: Seq<Seq<char>>,
)
    requires
        templates.contains_key(template_id),
        slots.len() == templates[template_id].slots,
        crate::wire::slots_fit(slots),
    ensures
        native_decoded(templates, template_bytes(template_id, slots)) == Ok::<
            (Seq<char>, CompressionMethod, Option<u8>),
            Fault,
        >(
            (
                fill(templates[template_id].pattern, slots),
                CompressionMethod::BinarySemantic,
                Some(template_id),
            ),
        ),
{
    let data = template_bytes(template_id, slots);
    let rest = data.subrange(1, data.len() as int);
    let blocks = slot_blocks(slots);
    assert(data[0] == 1u8);
    assert(rest[0] == data[1] && rest[1] == data[2]);
    assert(rest.subrange(2, 2 + blocks.len() as int) =~= blocks);
    crate::wire::lemma_parse_slot_blocks(rest, 2, slots);
}

} // verus!
