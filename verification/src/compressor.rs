//! The compressor: it chooses how a text is encoded, and reads payloads
//! back.
//!
//! A text is encoded as a template id with its slots where the caller names
//! both or where a registered template matches the text, and as a literal
//! otherwise.

use crate::error::{AuraError, ErrorView};
use crate::protocol::{method_name, method_of_byte, CompressionMetadata, CompressionMethod};
use crate::ratio::Ratio;
use crate::template_library::{core_templates, extract, fill, first_match, TemplateLibrary};
use crate::template_store::{loaded, parsed_json};
use crate::text::{string_views, text_view};
use crate::wire::{
    auralite_bytes, binary_semantic_bytes, decode_auralite, decode_binary_semantic, decode_text,
    decoded_text, empty_payload, encode_auralite, encode_binary_semantic, parse_auralite,
    parse_binary_semantic,
};
use std::collections::HashMap;
use std::time::{SystemTime, UNIX_EPOCH};
use vstd::prelude::*;
use vstd::slice::slice_subrange;
use vstd::utf8::encode_utf8;

verus! {

/// The pattern registered under `id` with the slots filled in, or the error
/// of an id that is not registered.
pub open spec fn formatted(library: Map<u32, Seq<char>>, id: u32, slots: Seq<Seq<char>>) -> Result<
    Seq<char>,
    ErrorView,
> {
    if library.contains_key(id) {
        Ok(fill(library[id], slots))
    } else {
        Err(ErrorView::TemplateNotFound(id))
    }
}

/// What a payload decompresses to with the given templates.
///
/// An empty payload is invalid. The first byte is the method tag: a byte
/// that is no tag, and the reserved tag `0x02`, are unknown methods. What
/// follows the tag is read as the method says.
pub open spec fn decompressed(library: Map<u32, Seq<char>>, payload: Seq<u8>) -> Result<
    Seq<char>,
    ErrorView,
> {
    if payload.len() == 0 {
        Err(empty_payload())
    } else {
        let data = payload.subrange(1, payload.len() as int);
        match method_of_byte(payload[0]) {
            None => Err(ErrorView::UnknownMethod(payload[0])),
            Some(CompressionMethod::Brio) => Err(ErrorView::UnknownMethod(payload[0])),
            Some(CompressionMethod::BinarySemantic) => match parse_binary_semantic(data) {
                Err(e) => Err(e),
                Ok((id, slots)) => formatted(library, id, slots),
            },
            Some(CompressionMethod::AuraLite) => parse_auralite(data),
            Some(CompressionMethod::AuraLiteV2) => parse_auralite(data),
            Some(CompressionMethod::Uncompressed) => decoded_text(data),
        }
    }
}

/// The payload, the method and the template ids that a text is compressed
/// to. With an id and slots given, they are encoded as they are. Otherwise
/// the lowest template that matches the text is encoded with the slots it
/// captures. Where none matches, the text is encoded as a literal.
pub open spec fn compressed(
    library: Map<u32, Seq<char>>,
    text: Seq<char>,
    template_id: Option<u32>,
    slots: Option<Seq<Seq<char>>>,
) -> (Seq<u8>, CompressionMethod, Seq<u32>) {
    if template_id is Some && slots is Some {
        (
            binary_semantic_bytes(template_id->0, slots->0),
            CompressionMethod::BinarySemantic,
            seq![template_id->0],
        )
    } else {
        match first_match(library, text) {
            Some(id) => (
                binary_semantic_bytes(id, extract(text, library[id])->0),
                CompressionMethod::BinarySemantic,
                seq![id],
            ),
            None => (auralite_bytes(text), CompressionMethod::AuraLite, Seq::empty()),
        }
    }
}

/// Whether `metadata` describes the compression of `text` to `payload` with
/// `method` and `template_ids`.
pub open spec fn describes(
    metadata: CompressionMetadata,
    text: Seq<char>,
    payload: Seq<u8>,
    method: CompressionMethod,
    template_ids: Seq<u32>,
) -> bool {
    &&& metadata.original_size == encode_utf8(text).len()
    &&& metadata.compressed_size == payload.len()
    &&& metadata.ratio == (Ratio {
        numerator: encode_utf8(text).len() as u128,
        denominator: payload.len() as u128,
    })
    &&& metadata.method@ == method_name(method)
    &&& metadata.template_ids@ == template_ids
}

/// The templates that a compressor starts with: the built-in ones and,
/// over them, those of the template store, where one is given and it is a
/// JSON document.
pub open spec fn initial_templates(template_store: Option<Seq<char>>) -> Map<u32, Seq<char>> {
    match template_store {
        Some(content) => match parsed_json(content) {
            Some(store) => loaded(core_templates(), store),
            None => core_templates(),
        },
        None => core_templates(),
    }
}

/// The views of optional slots.
pub open spec fn slot_views(slots: Option<Vec<String>>) -> Option<Seq<Seq<char>>> {
    match slots {
        Some(list) => Some(string_views(list@)),
        None => None,
    }
}

/// `SystemTime::now`, measured from `UNIX_EPOCH` with
/// `SystemTime::duration_since` and given in whole seconds by
/// `Duration::as_secs`; `None` where the clock stands before the epoch.
/// Nothing is claimed of the outcome: it is the time of day.
#[verifier::external_body]
fn unix_seconds() -> Option<u64> {
    match SystemTime::now().duration_since(UNIX_EPOCH) {
        Ok(elapsed) => Some(elapsed.as_secs()),
        Err(_) => None,
    }
}

/// The record of a compression.
fn describe(
    original_size: usize,
    compressed_size: usize,
    method: CompressionMethod,
    template_id: Option<u32>,
    timestamp: u64,
) -> (metadata: CompressionMetadata)
    ensures
        metadata.original_size == original_size,
        metadata.compressed_size == compressed_size,
        metadata.ratio == (Ratio {
            numerator: original_size as u128,
            denominator: compressed_size as u128,
        }),
        metadata.method@ == method_name(method),
        metadata.template_ids@ == (match template_id {
            Some(id) => seq![id],
            None => Seq::empty(),
        }),
        metadata.timestamp == timestamp,
{
    let mut template_ids: Vec<u32> = Vec::new();
    if let Some(id) = template_id {
        template_ids.push(id);
    }
    proof {
        if let Some(id) = template_id {
            assert(template_ids@ =~= seq![id]);
        }
    }
    CompressionMetadata {
        original_size,
        compressed_size,
        ratio: Ratio::new(original_size as u128, compressed_size as u128),
        method: method.as_str().to_owned(),
        template_ids,
        timestamp,
    }
}

/// A compressor with its template library.
pub struct Compressor {
    enable_aura: bool,
    template_library: TemplateLibrary,
    enable_audit_logging: bool,
    session_id: Option<String>,
    user_id: Option<String>,
    aura_preference_margin: Ratio,
}

impl Compressor {
    /// The templates of this compressor, from id to pattern.
    pub closed spec fn templates(&self) -> Map<u32, Seq<char>> {
        self.template_library@
    }

    /// A compressor with the built-in templates and, over them, those of
    /// the template store, where one is given and it is a JSON document. A
    /// store that is no JSON document is passed over.
    pub fn new(
        enable_aura: bool,
        template_store: Option<String>,
        enable_audit_logging: bool,
        session_id: Option<String>,
        user_id: Option<String>,
    ) -> (compressor: Compressor)
        ensures
            compressor.templates() == initial_templates(text_view(template_store)),
    {
        let mut template_library = TemplateLibrary::new();
        if let Some(content) = template_store {
            let _ = template_library.load_from_json(content.as_str());
        }
        Compressor {
            enable_aura,
            template_library,
            enable_audit_logging,
            session_id,
            user_id,
            aura_preference_margin: Ratio::new(1, 10),
        }
    }

    /// Parses `content` as a template store and registers its templates.
    /// Fails, and changes nothing, where the content is no JSON document.
    pub fn load_template_store(&mut self, content: &str) -> (r: Result<(), AuraError>)
        ensures
            match r {
                Ok(()) => parsed_json(content@) matches Some(store) && final(self).templates()
                    == loaded(old(self).templates(), store),
                Err(e) => parsed_json(content@) is None && e@ == ErrorView::Json
                    && final(self).templates() == old(self).templates(),
            },
    {
        self.template_library.load_from_json(content)
    }

    /// Encodes a template id and its slots as a binary-semantic payload.
    /// Never fails.
    pub fn compress_binary_semantic(&self, template_id: u32, slots: &[String]) -> (r: Result<
        Vec<u8>,
        AuraError,
    >)
        ensures
            r matches Ok(payload) && payload@ == binary_semantic_bytes(
                template_id,
                string_views(slots@),
            ),
    {
        Ok(encode_binary_semantic(template_id, slots))
    }

    /// Encodes a text as a literal payload. Never fails.
    pub fn compress_auralite(&self, text: &str) -> (r: Result<Vec<u8>, AuraError>)
        ensures
            r matches Ok(payload) && payload@ == auralite_bytes(text@),
    {
        Ok(encode_auralite(text))
    }

    /// Reads the part of a binary-semantic payload behind the tag and fills
    /// the slots into the template.
    pub fn decompress_binary_semantic(&self, data: &[u8]) -> (r: Result<String, AuraError>)
        ensures
            match r {
                Ok(text) => (match parse_binary_semantic(data@) {
                    Err(e) => false,
                    Ok((id, slots)) => formatted(self.templates(), id, slots) == Ok::<
                        Seq<char>,
                        ErrorView,
                    >(text@),
                }),
                Err(e) => (match parse_binary_semantic(data@) {
                    Err(fault) => fault == e@,
                    Ok((id, slots)) => formatted(self.templates(), id, slots) == Err::<
                        Seq<char>,
                        ErrorView,
                    >(e@),
                }),
            },
    {
        match decode_binary_semantic(data) {
            Err(e) => Err(e),
            Ok((id, slots)) => self.template_library.format_template(id, slots.as_slice()),
        }
    }

    /// Reads the part of a literal payload behind the tag.
    pub fn decompress_auralite(&self, data: &[u8]) -> (r: Result<String, AuraError>)
        ensures
            match r {
                Ok(text) => parse_auralite(data@) == Ok::<Seq<char>, ErrorView>(text@),
                Err(e) => parse_auralite(data@) == Err::<Seq<char>, ErrorView>(e@),
            },
    {
        decode_auralite(data)
    }

    /// Decompresses a payload.
    pub fn decompress(&self, payload: &[u8]) -> (r: Result<String, AuraError>)
        ensures
            match r {
                Ok(text) => decompressed(self.templates(), payload@) == Ok::<Seq<char>, ErrorView>(
                    text@,
                ),
                Err(e) => decompressed(self.templates(), payload@) == Err::<Seq<char>, ErrorView>(
                    e@,
                ),
            },
    {
        if payload.len() == 0 {
            return Err(AuraError::InvalidPayload("Empty payload".to_owned()));
        }
        let tag = payload[0];
        let data = slice_subrange(payload, 1, payload.len());
        match CompressionMethod::from_byte(tag) {
            Err(e) => Err(e),
            Ok(CompressionMethod::BinarySemantic) => self.decompress_binary_semantic(data),
            Ok(CompressionMethod::AuraLite) => self.decompress_auralite(data),
            Ok(CompressionMethod::AuraLiteV2) => self.decompress_auralite(data),
            Ok(CompressionMethod::Uncompressed) => {
                proof {
                    assert(data@.subrange(0, data@.len() as int) =~= data@);
                }
                decode_text(data, 0, data.len())
            },
            Ok(CompressionMethod::Brio) => Err(AuraError::UnknownMethod(tag)),
        }
    }

    /// Compresses `text` at a given time. See [`compressed`] for how the
    /// encoding is chosen. Never fails.
    pub fn compress_at(
        &self,
        text: &str,
        template_id: Option<u32>,
        slots: Option<Vec<String>>,
        timestamp: u64,
    ) -> (r: Result<(Vec<u8>, CompressionMethod, CompressionMetadata), AuraError>)
        ensures
            r matches Ok((payload, method, metadata)) && {
                let outcome = compressed(self.templates(), text@, template_id, slot_views(slots));
                &&& payload@ == outcome.0
                &&& method == outcome.1
                &&& describes(metadata, text@, payload@, method, outcome.2)
                &&& metadata.timestamp == timestamp
            },
    {
        let original_size = text.as_bytes().len();
        if let Some(id) = template_id {
            if let Some(list) = slots {
                let payload = encode_binary_semantic(id, list.as_slice());
                let metadata = describe(
                    original_size,
                    payload.len(),
                    CompressionMethod::BinarySemantic,
                    Some(id),
                    timestamp,
                );
                return Ok((payload, CompressionMethod::BinarySemantic, metadata));
            }
        }
        match self.template_library.match_template(text) {
            Some((id, list)) => {
                let payload = encode_binary_semantic(id, list.as_slice());
                let metadata = describe(
                    original_size,
                    payload.len(),
                    CompressionMethod::BinarySemantic,
                    Some(id),
                    timestamp,
                );
                Ok((payload, CompressionMethod::BinarySemantic, metadata))
            },
            None => {
                let payload = encode_auralite(text);
                let metadata = describe(
                    original_size,
                    payload.len(),
                    CompressionMethod::AuraLite,
                    None,
                    timestamp,
                );
                Ok((payload, CompressionMethod::AuraLite, metadata))
            },
        }
    }

    /// Compresses `text` now. The result is that of [`Compressor::compress_at`]
    /// at the time that the metadata carries: the seconds since the Unix
    /// epoch, and zero where the clock stands before the epoch.
    pub fn compress(&self, text: &str, template_id: Option<u32>, slots: Option<Vec<String>>) -> (r:
        Result<(Vec<u8>, CompressionMethod, CompressionMetadata), AuraError>)
        ensures
            r matches Ok((payload, method, metadata)) && {
                let outcome = compressed(self.templates(), text@, template_id, slot_views(slots));
                &&& payload@ == outcome.0
                &&& method == outcome.1
                &&& describes(metadata, text@, payload@, method, outcome.2)
            },
    {
        let timestamp = match unix_seconds() {
            Some(seconds) => seconds,
            None => 0,
        };
        self.compress_at(text, template_id, slots, timestamp)
    }

    /// Registers a template, replacing what the id stood for.
    pub fn register_template(&mut self, template_id: u32, pattern: String)
        ensures
            final(self).templates() == old(self).templates().insert(template_id, pattern@),
    {
        self.template_library.register(template_id, pattern);
    }

    /// The templates of this compressor.
    pub fn list_templates(&self) -> (all: HashMap<u32, String>)
        ensures
            all@.dom() == self.templates().dom(),
            forall|id: u32|
                self.templates().contains_key(id) ==> (#[trigger] all@[id])@
                    == self.templates()[id],
    {
        self.template_library.list()
    }
}

/// Whether an error is that of a truncated or malformed payload.
pub open spec fn is_invalid_payload(r: Result<Seq<char>, ErrorView>) -> bool {
    r matches Err(ErrorView::InvalidPayload(_))
}

/// A template id and slots that were encoded decompress to the template
/// with the slots filled in, or to the error of an id that is not
/// registered: to what formatting gives. This holds for ids and slot counts
/// that fit in one byte and slots whose UTF-8 bytes count below 65536.
pub proof fn lemma_template_round_trip(
    library: Map<u32, Seq<char>>,
    template_id: u32,
    slots: Seq<Seq<char>>,
)
    requires
        template_id < 256,
        slots.len() < 256,
        crate::wire::slots_fit(slots),
    ensures
        decompressed(library, binary_semantic_bytes(template_id, slots)) == formatted(
            library,
            template_id,
            slots,
        ),
{
    let payload = binary_semantic_bytes(template_id, slots);
    let data = payload.subrange(1, payload.len() as int);
    let blocks = crate::wire::slot_blocks(slots);
    assert(payload[0] == 0x00u8);
    assert(data[0] == payload[1] && data[1] == payload[2]);
    assert(data.subrange(2, 2 + blocks.len() as int) =~= blocks);
    crate::wire::lemma_parse_slot_blocks(data, 2, slots);
}

/// A text that was encoded as a literal decompresses to itself. This holds
/// for texts whose UTF-8 bytes count below 4294967296.
pub proof fn lemma_literal_round_trip(library: Map<u32, Seq<char>>, text: Seq<char>)
    requires
        encode_utf8(text).len() < 4294967296,
    ensures
        decompressed(library, auralite_bytes(text)) == Ok::<Seq<char>, ErrorView>(text),
{
    let raw = encode_utf8(text);
    let n = raw.len();
    let payload = auralite_bytes(text);
    let data = payload.subrange(1, payload.len() as int);
    let head = crate::wire::be32_bytes(n);
    crate::wire::lemma_be32_round_trip(n);
    assert(payload[0] == 0x01u8);
    assert(data[0] == payload[1] && payload[1] == head[0]);
    assert(data[1] == payload[2] && payload[2] == head[1]);
    assert(data[2] == payload[3] && payload[3] == head[2]);
    assert(data[3] == payload[4] && payload[4] == head[3]);
    assert(data.subrange(4, 4 + n as int) =~= raw);
    crate::wire::lemma_decoded_text_of_encoding(text);
}

/// A binary-semantic payload that is cut short anywhere, down to no bytes
/// at all, is rejected as an invalid payload.
pub proof fn lemma_truncated_template_payload(
    library: Map<u32, Seq<char>>,
    template_id: u32,
    slots: Seq<Seq<char>>,
    cut: int,
)
    requires
        slots.len() < 256,
        crate::wire::slots_fit(slots),
        0 <= cut < binary_semantic_bytes(template_id, slots).len(),
    ensures
        is_invalid_payload(
            decompressed(library, binary_semantic_bytes(template_id, slots).take(cut)),
        ),
{
    let full = binary_semantic_bytes(template_id, slots);
    let payload = full.take(cut);
    if cut >= 3 {
        let data = payload.subrange(1, payload.len() as int);
        let full_data = full.subrange(1, full.len() as int);
        let blocks = crate::wire::slot_blocks(slots);
        assert(payload[0] == 0x00u8);
        assert(data[1] == full[2]);
        assert(full_data.subrange(2, 2 + blocks.len() as int) =~= blocks);
        assert(data =~= full_data.take(cut - 1));
        crate::wire::lemma_parse_truncated_slot_blocks(full_data, 2, slots, cut - 1);
    } else if cut >= 1 {
        assert(payload[0] == 0x00u8);
    }
}

/// A literal payload that is cut short anywhere is rejected as an invalid
/// payload.
pub proof fn lemma_truncated_literal_payload(
    library: Map<u32, Seq<char>>,
    text: Seq<char>,
    cut: int,
)
    requires
        encode_utf8(text).len() < 4294967296,
        0 <= cut < auralite_bytes(text).len(),
    ensures
        is_invalid_payload(decompressed(library, auralite_bytes(text).take(cut))),
{
    let raw = encode_utf8(text);
    let n = raw.len();
    let full = auralite_bytes(text);
    let payload = full.take(cut);
    let head = crate::wire::be32_bytes(n);
    crate::wire::lemma_be32_round_trip(n);
    if cut >= 5 {
        let data = payload.subrange(1, payload.len() as int);
        assert(payload[0] == 0x01u8);
        assert(data[0] == full[1] && full[1] == head[0]);
        assert(data[1] == full[2] && full[2] == head[1]);
        assert(data[2] == full[3] && full[3] == head[2]);
        assert(data[3] == full[4] && full[4] == head[3]);
    } else if cut >= 1 {
        assert(payload[0] == 0x01u8);
    }
}

/// An empty payload is rejected as an invalid payload.
pub proof fn lemma_empty_payload(library: Map<u32, Seq<char>>)
    ensures
        decompressed(library, Seq::<u8>::empty()) == Err::<Seq<char>, ErrorView>(empty_payload()),
{
}

/// What the payload of a compressed text decompresses to: with an id and
/// slots given, what formatting them gives; with a template matched, the
/// template with the captured slots filled in; otherwise the text itself.
pub open spec fn restored(
    library: Map<u32, Seq<char>>,
    text: Seq<char>,
    template_id: Option<u32>,
    slots: Option<Seq<Seq<char>>>,
) -> Result<Seq<char>, ErrorView> {
    if template_id is Some && slots is Some {
        formatted(library, template_id->0, slots->0)
    } else {
        match first_match(library, text) {
            Some(id) => Ok(fill(library[id], extract(text, library[id])->0)),
            None => Ok(text),
        }
    }
}

/// Whether what a text is compressed to fits the fields of the wire format:
/// the id and the number of slots in one byte each, the bytes of each slot
/// in a two-byte length, the bytes of a literal in a four-byte length.
pub open spec fn fits_wire(
    library: Map<u32, Seq<char>>,
    text: Seq<char>,
    template_id: Option<u32>,
    slots: Option<Seq<Seq<char>>>,
) -> bool {
    if template_id is Some && slots is Some {
        template_id->0 < 256 && slots->0.len() < 256 && crate::wire::slots_fit(slots->0)
    } else {
        match first_match(library, text) {
            Some(id) => id < 256 && extract(text, library[id])->0.len() < 256
                && crate::wire::slots_fit(extract(text, library[id])->0),
            None => encode_utf8(text).len() < 4294967296,
        }
    }
}

/// Decompressing what a text was compressed to gives what `restored` says,
/// as long as everything fits the fields of the wire format.
pub proof fn lemma_compress_then_decompress(
    library: Map<u32, Seq<char>>,
    text: Seq<char>,
    template_id: Option<u32>,
    slots: Option<Seq<Seq<char>>>,
)
    requires
        fits_wire(library, text, template_id, slots),
    ensures
        decompressed(library, compressed(library, text, template_id, slots).0) == restored(
            library,
            text,
            template_id,
            slots,
        ),
{
    if template_id is Some && slots is Some {
        lemma_template_round_trip(library, template_id->0, slots->0);
    } else {
        crate::template_library::lemma_first_match(library, text);
        match first_match(library, text) {
            Some(id) => {
                lemma_template_round_trip(library, id, extract(text, library[id])->0);
            },
            None => {
                lemma_literal_round_trip(library, text);
            },
        }
    }
}

} // verus!
