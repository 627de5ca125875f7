//! Metadata side-channel: fixed six-byte entries that describe how a message
//! was compressed, so that a consumer can classify or size a message without
//! decompressing it.

use crate::ratio::Ratio;
use crate::text::{decimal, push_decimal, push_str, to_text};
use vstd::prelude::*;

verus! {

/// What a metadata entry describes.
#[derive(Debug, Clone, Copy, PartialEq, Eq, Hash, Structural)]
pub enum MetadataKind {
    /// Uncompressed literal data.
    Literal,
    /// Template match.
    Template,
    /// Dictionary match.
    LZ77,
    /// Semantic compression.
    Semantic,
    /// Fallback codec.
    Fallback,
}

/// The wire byte of a kind.
pub open spec fn kind_byte(kind: MetadataKind) -> u8 {
    match kind {
        MetadataKind::Literal => 0x00,
        MetadataKind::Template => 0x01,
        MetadataKind::LZ77 => 0x02,
        MetadataKind::Semantic => 0x03,
        MetadataKind::Fallback => 0x04,
    }
}

/// The kind that a wire byte stands for, if any.
pub open spec fn kind_of_byte(byte: u8) -> Option<MetadataKind> {
    if byte == 0x00 {
        Some(MetadataKind::Literal)
    } else if byte == 0x01 {
        Some(MetadataKind::Template)
    } else if byte == 0x02 {
        Some(MetadataKind::LZ77)
    } else if byte == 0x03 {
        Some(MetadataKind::Semantic)
    } else if byte == 0x04 {
        Some(MetadataKind::Fallback)
    } else {
        None
    }
}

impl MetadataKind {
    /// The byte that stands for this kind on the wire.
    pub fn to_byte(self) -> (byte: u8)
        ensures
            byte == kind_byte(self),
    {
        match self {
            MetadataKind::Literal => 0x00,
            MetadataKind::Template => 0x01,
            MetadataKind::LZ77 => 0x02,
            MetadataKind::Semantic => 0x03,
            MetadataKind::Fallback => 0x04,
        }
    }

    /// Reads a kind from its wire byte; `None` for any byte above `0x04`.
    pub fn from_byte(byte: u8) -> (kind: Option<MetadataKind>)
        ensures
            kind == kind_of_byte(byte),
    {
        match byte {
            0x00 => Some(MetadataKind::Literal),
            0x01 => Some(MetadataKind::Template),
            0x02 => Some(MetadataKind::LZ77),
            0x03 => Some(MetadataKind::Semantic),
            0x04 => Some(MetadataKind::Fallback),
            _ => None,
        }
    }
}

/// Why six bytes could not be read as a metadata entry.
#[derive(Debug, Clone, Copy, PartialEq, Eq, Structural)]
pub enum InvalidFormat {
    /// The input is not six bytes long; the field is its length.
    WrongLength(usize),
    /// The kind byte is none of the five defined values; the field is that byte.
    UnknownKind(u8),
}

/// The text of a format error.
pub open spec fn format_error_text(e: InvalidFormat) -> Seq<char> {
    match e {
        InvalidFormat::WrongLength(length) => "Metadata entry must be 6 bytes, got "@ + decimal(
            length as nat,
        ),
        InvalidFormat::UnknownKind(byte) => "Invalid metadata kind: "@ + decimal(byte as nat),
    }
}

impl InvalidFormat {
    /// The text of this error.
    pub fn message(&self) -> (text: String)
        ensures
            text@ == format_error_text(*self),
    {
        let mut out: Vec<char> = Vec::new();
        match self {
            InvalidFormat::WrongLength(length) => {
                push_str(&mut out, "Metadata entry must be 6 bytes, got ");
                push_decimal(&mut out, *length as u64);
            },
            InvalidFormat::UnknownKind(byte) => {
                push_str(&mut out, "Invalid metadata kind: ");
                push_decimal(&mut out, *byte as u64);
            },
        }
        proof {
            assert(out@ =~= format_error_text(*self));
        }
        to_text(out.as_slice())
    }
}

/// One entry of the side-channel. On the wire it is exactly six bytes:
/// `token_index` (big-endian), the kind byte, `value` (big-endian), `flags`.
#[derive(Debug, Clone, Copy, PartialEq, Eq, Structural)]
pub struct MetadataEntry {
    /// Position of the entry's token in the decompressed stream.
    pub token_index: u16,
    /// What the entry describes.
    pub kind: MetadataKind,
    /// Template id, match length or literal length, depending on `kind`.
    pub value: u16,
    /// Reserved.
    pub flags: u8,
}

/// Length of a serialized entry.
pub const ENTRY_LEN: usize = 6;

/// The high byte of a 16-bit value.
pub open spec fn high_byte(x: u16) -> u8 {
    (x / 256) as u8
}

/// The low byte of a 16-bit value.
pub open spec fn low_byte(x: u16) -> u8 {
    (x % 256) as u8
}

/// The 16-bit value whose big-endian bytes are `hi`, `lo`.
pub open spec fn be16(hi: u8, lo: u8) -> u16 {
    (hi as int * 256 + lo as int) as u16
}

/// The six bytes of an entry.
pub open spec fn entry_bytes(e: MetadataEntry) -> Seq<u8> {
    seq![
        high_byte(e.token_index),
        low_byte(e.token_index),
        kind_byte(e.kind),
        high_byte(e.value),
        low_byte(e.value),
        e.flags,
    ]
}

/// What a byte string reads as: the entry, or the reason it is malformed.
/// The length is examined before the kind byte.
pub open spec fn parse_entry(bytes: Seq<u8>) -> Result<MetadataEntry, InvalidFormat> {
    if bytes.len() != 6 {
        Err(InvalidFormat::WrongLength(bytes.len() as usize))
    } else {
        match kind_of_byte(bytes[2]) {
            None => Err(InvalidFormat::UnknownKind(bytes[2])),
            Some(kind) => Ok(
                MetadataEntry {
                    token_index: be16(bytes[0], bytes[1]),
                    kind,
                    value: be16(bytes[3], bytes[4]),
                    flags: bytes[5],
                },
            ),
        }
    }
}

fn split_be16(x: u16) -> (r: (u8, u8))
    ensures
        r.0 == high_byte(x),
        r.1 == low_byte(x),
{
    ((x / 256) as u8, (x % 256) as u8)
}

fn join_be16(hi: u8, lo: u8) -> (x: u16)
    ensures
        x == be16(hi, lo),
{
    (hi as u16) * 256 + (lo as u16)
}

impl MetadataEntry {
    /// A new entry with `flags` zero.
    pub fn new(token_index: u16, kind: MetadataKind, value: u16) -> (e: MetadataEntry)
        ensures
            e == (MetadataEntry { token_index, kind, value, flags: 0 }),
    {
        MetadataEntry { token_index, kind, value, flags: 0 }
    }

    /// Serializes the entry to its six bytes.
    pub fn to_bytes(&self) -> (bytes: [u8; 6])
        ensures
            bytes@ == entry_bytes(*self),
    {
        let (t_hi, t_lo) = split_be16(self.token_index);
        let (v_hi, v_lo) = split_be16(self.value);
        let bytes = [t_hi, t_lo, self.kind.to_byte(), v_hi, v_lo, self.flags];
        assert(bytes@ =~= entry_bytes(*self));
        bytes
    }

    /// Reads an entry from its six bytes. Fails when the input is not six
    /// bytes long or the kind byte is not defined.
    pub fn from_bytes(bytes: &[u8]) -> (r: Result<MetadataEntry, InvalidFormat>)
        ensures
            r == parse_entry(bytes@),
    {
        if bytes.len() != ENTRY_LEN {
            return Err(InvalidFormat::WrongLength(bytes.len()));
        }
        match MetadataKind::from_byte(bytes[2]) {
            None => Err(InvalidFormat::UnknownKind(bytes[2])),
            Some(kind) => Ok(
                MetadataEntry {
                    token_index: join_be16(bytes[0], bytes[1]),
                    kind,
                    value: join_be16(bytes[3], bytes[4]),
                    flags: bytes[5],
                },
            ),
        }
    }
}

/// The name of a kind.
pub open spec fn kind_name(kind: MetadataKind) -> Seq<char> {
    match kind {
        MetadataKind::Literal => "Literal"@,
        MetadataKind::Template => "Template"@,
        MetadataKind::LZ77 => "LZ77"@,
        MetadataKind::Semantic => "Semantic"@,
        MetadataKind::Fallback => "Fallback"@,
    }
}

/// An entry as text: its token index, the name of its kind and its value.
pub open spec fn entry_text(e: MetadataEntry) -> Seq<char> {
    "MetadataEntry(token="@ + decimal(e.token_index as nat) + ", kind="@ + kind_name(e.kind)
        + ", value="@ + decimal(e.value as nat) + ")"@
}

impl MetadataKind {
    /// The name of this kind.
    pub fn name(&self) -> (name: &'static str)
        ensures
            name@ == kind_name(*self),
    {
        match self {
            MetadataKind::Literal => "Literal",
            MetadataKind::Template => "Template",
            MetadataKind::LZ77 => "LZ77",
            MetadataKind::Semantic => "Semantic",
            MetadataKind::Fallback => "Fallback",
        }
    }
}

impl MetadataEntry {
    /// This entry as text.
    pub fn to_text(&self) -> (text: String)
        ensures
            text@ == entry_text(*self),
    {
        let mut out: Vec<char> = Vec::new();
        push_str(&mut out, "MetadataEntry(token=");
        push_decimal(&mut out, self.token_index as u64);
        push_str(&mut out, ", kind=");
        push_str(&mut out, self.kind.name());
        push_str(&mut out, ", value=");
        push_decimal(&mut out, self.value as u64);
        push_str(&mut out, ")");
        proof {
            assert(out@ =~= entry_text(*self));
        }
        to_text(out.as_slice())
    }
}

/// Reading back what was serialized gives the entry again.
pub proof fn lemma_entry_round_trip(e: MetadataEntry)
    ensures
        entry_bytes(e).len() == 6,
        parse_entry(entry_bytes(e)) == Ok::<MetadataEntry, InvalidFormat>(e),
{
    let b = entry_bytes(e);
    assert(kind_of_byte(kind_byte(e.kind)) == Some(e.kind));
    assert(be16(high_byte(e.token_index), low_byte(e.token_index)) == e.token_index);
    assert(be16(high_byte(e.value), low_byte(e.value)) == e.value);
}

/// Reading fails exactly on inputs that are not six bytes long or whose
/// third byte is above `0x04`.
pub proof fn lemma_parse_fails_iff_malformed(bytes: Seq<u8>)
    ensures
        parse_entry(bytes) is Err <==> (bytes.len() != 6 || bytes[2] > 0x04),
        parse_entry(bytes) matches Ok(e) ==> entry_bytes(e) == bytes,
{
    if bytes.len() == 6 {
        if let Ok(e) = parse_entry(bytes) {
            assert(high_byte(be16(bytes[0], bytes[1])) == bytes[0]);
            assert(low_byte(be16(bytes[0], bytes[1])) == bytes[1]);
            assert(high_byte(be16(bytes[3], bytes[4])) == bytes[3]);
            assert(low_byte(be16(bytes[3], bytes[4])) == bytes[4]);
            assert(entry_bytes(e) =~= bytes);
        }
    }
}

/// What one entry contributes to a signature before rotation: the kind byte
/// in bits 16 and up, the value in the low 16 bits.
pub open spec fn entry_hash(e: MetadataEntry) -> u32 {
    ((kind_byte(e.kind) as u32) << 16u32) | (e.value as u32)
}

/// `x` rotated left by `n` bits, `n < 32`.
pub open spec fn rotate_left(x: u32, n: u32) -> u32 {
    if n == 0 {
        x
    } else {
        (x << n) | (x >> ((32 - n) as u32))
    }
}

/// The signature of a metadata sequence: the XOR, over every position `i`,
/// of the entry's hash rotated left by `i mod 32` bits. The empty sequence
/// has signature zero.
pub open spec fn signature_of(entries: Seq<MetadataEntry>) -> u32
    decreases entries.len(),
{
    if entries.len() == 0 {
        0
    } else {
        signature_of(entries.drop_last()) ^ rotate_left(
            entry_hash(entries.last()),
            ((entries.len() - 1) % 32) as u32,
        )
    }
}

fn rotate_left_by(x: u32, n: u32) -> (r: u32)
    requires
        n < 32,
    ensures
        r == rotate_left(x, n),
{
    if n == 0 {
        x
    } else {
        (x << n) | (x >> (32 - n))
    }
}

/// Computes the signature of a metadata sequence. The result depends on the
/// kinds and values of the entries and on their order, and on nothing else.
pub fn compute_metadata_signature(metadata: &[MetadataEntry]) -> (signature: u32)
    ensures
        signature == signature_of(metadata@),
{
    let mut signature: u32 = 0;
    let mut i: usize = 0;
    while i < metadata.len()
        invariant
            i <= metadata.len(),
            signature == signature_of(metadata@.take(i as int)),
        decreases metadata.len() - i,
    {
        let entry = &metadata[i];
        let entry_hash: u32 = ((entry.kind.to_byte() as u32) << 16u32) | (entry.value as u32);
        let shift: u32 = (i % 32) as u32;
        proof {
            assert(metadata@.take(i + 1).drop_last() =~= metadata@.take(i as int));
            assert(metadata@.take(i + 1).last() == metadata@[i as int]);
        }
        signature = signature ^ rotate_left_by(entry_hash, shift);
        i = i + 1;
    }
    proof {
        assert(metadata@.take(i as int) =~= metadata@);
    }
    signature
}

/// The intent that a template id stands for.
pub open spec fn template_intent(value: u16) -> Seq<char> {
    if value == 1 || value == 3 || value == 5 || value == 7 {
        "affirmative"@
    } else if value == 2 || value == 4 {
        "apology"@
    } else if value == 12 {
        "thinking"@
    } else if value == 10 || value == 13 {
        "question"@
    } else {
        "unknown"@
    }
}

/// The intent label of a metadata sequence. Only the first entry counts.
pub open spec fn intent_label(entries: Seq<MetadataEntry>) -> Seq<char> {
    if entries.len() == 0 {
        "unknown"@
    } else {
        match entries[0].kind {
            MetadataKind::Template => template_intent(entries[0].value),
            MetadataKind::Literal => "custom"@,
            MetadataKind::Fallback => "complex"@,
            MetadataKind::LZ77 => "unknown"@,
            MetadataKind::Semantic => "unknown"@,
        }
    }
}

/// Classifies the intent of a message from its metadata alone.
pub fn classify_intent_from_metadata(metadata: &[MetadataEntry]) -> (label: &'static str)
    ensures
        label@ == intent_label(metadata@),
{
    if metadata.len() == 0 {
        return "unknown";
    }
    let first = &metadata[0];
    match first.kind {
        MetadataKind::Template => {
            let v = first.value;
            if v == 1 || v == 3 || v == 5 || v == 7 {
                "affirmative"
            } else if v == 2 || v == 4 {
                "apology"
            } else if v == 12 {
                "thinking"
            } else if v == 10 || v == 13 {
                "question"
            } else {
                "unknown"
            }
        },
        MetadataKind::Literal => "custom",
        MetadataKind::Fallback => "complex",
        _ => "unknown",
    }
}

/// Bytes that a message costs besides its payload: a fixed header.
pub const HEADER_OVERHEAD: u128 = 16;

/// The estimated payload bytes of one entry. A fallback entry has no cost of
/// its own: it decides the estimate of the whole message.
pub open spec fn entry_cost(e: MetadataEntry) -> nat {
    match e.kind {
        MetadataKind::Template => 4,
        MetadataKind::LZ77 => 5,
        MetadataKind::Semantic => 8,
        MetadataKind::Literal => e.value as nat,
        MetadataKind::Fallback => 0,
    }
}

/// The sum of the entries' costs.
pub open spec fn total_cost(entries: Seq<MetadataEntry>) -> nat
    decreases entries.len(),
{
    if entries.len() == 0 {
        0
    } else {
        total_cost(entries.drop_last()) + entry_cost(entries.last())
    }
}

/// Whether some entry is a fallback entry.
pub open spec fn has_fallback(entries: Seq<MetadataEntry>) -> bool {
    exists|i: int| 0 <= i < entries.len() && (#[trigger] entries[i]).kind == MetadataKind::Fallback
}

/// The estimated payload size. With a fallback entry anywhere in the
/// sequence it is the size of the text divided by 1.1, rounded down, whatever
/// the other entries are; otherwise it is the sum of the entries' costs.
pub open spec fn estimated_payload(entries: Seq<MetadataEntry>, original_size: nat) -> nat {
    if has_fallback(entries) {
        original_size * 10 / 11
    } else {
        total_cost(entries)
    }
}

/// The estimated size of the whole message: the header, six bytes of
/// metadata per entry, and the estimated payload.
pub open spec fn estimated_size(entries: Seq<MetadataEntry>, original_size: nat) -> nat {
    16 + 6 * entries.len() + estimated_payload(entries, original_size)
}

/// Bound on the cost of a sequence, used to rule out overflow.
proof fn lemma_total_cost_bound(entries: Seq<MetadataEntry>)
    ensures
        total_cost(entries) <= 65535 * entries.len(),
    decreases entries.len(),
{
    if entries.len() > 0 {
        lemma_total_cost_bound(entries.drop_last());
    }
}

/// Predicts the compression ratio of a message from its metadata, as the
/// fraction of the size of the text over the estimated compressed size. With no
/// entries, or a text of size zero, the prediction is `1 / 1`.
pub fn predict_compression_ratio_from_metadata(
    metadata: &[MetadataEntry],
    original_size: usize,
) -> (ratio: Ratio)
    ensures
        metadata@.len() == 0 || original_size == 0 ==> ratio == (Ratio {
            numerator: 1,
            denominator: 1,
        }),
        metadata@.len() > 0 && original_size > 0 ==> ratio.numerator == original_size
            && ratio.denominator == estimated_size(metadata@, original_size as nat),
        ratio.denominator > 0,
{
    if metadata.len() == 0 || original_size == 0 {
        return Ratio::one();
    }
    let mut estimated: u128 = 0;
    let mut fallback = false;
    let mut i: usize = 0;
    while i < metadata.len() && !fallback
        invariant
            i <= metadata.len(),
            !fallback ==> !has_fallback(metadata@.take(i as int)),
            !fallback ==> estimated == total_cost(metadata@.take(i as int)),
            fallback ==> has_fallback(metadata@),
            fallback ==> estimated == (original_size as nat) * 10 / 11,
        decreases metadata.len() - i + (if fallback { 0int } else { 1int }),
    {
        let entry = &metadata[i];
        proof {
            assert(metadata@.take(i + 1).drop_last() =~= metadata@.take(i as int));
            assert(metadata@.take(i + 1).last() == metadata@[i as int]);
            lemma_total_cost_bound(metadata@.take(i as int));
        }
        match entry.kind {
            MetadataKind::Template => {
                estimated = estimated + 4;
            },
            MetadataKind::LZ77 => {
                estimated = estimated + 5;
            },
            MetadataKind::Semantic => {
                estimated = estimated + 8;
            },
            MetadataKind::Literal => {
                estimated = estimated + entry.value as u128;
            },
            MetadataKind::Fallback => {
                estimated = (original_size as u128) * 10 / 11;
                fallback = true;
            },
        }
        proof {
            if !fallback {
                let prev = metadata@.take(i as int);
                let next = metadata@.take(i + 1);
                assert forall|j: int| 0 <= j < next.len() implies (#[trigger] next[j]).kind
                    != MetadataKind::Fallback by {
                    if j < i {
                        assert(prev[j] == next[j]);
                    }
                }
            }
        }
        i = i + 1;
    }
    proof {
        if !fallback {
            assert(metadata@.take(i as int) =~= metadata@);
        }
        lemma_total_cost_bound(metadata@);
    }
    let total: u128 = HEADER_OVERHEAD + (metadata.len() as u128) * 6 + estimated;
    Ratio::new(original_size as u128, total)
}

} // verus!
