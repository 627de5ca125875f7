//! The wire format: how a payload is laid out in bytes, and how it is read
//! back. Multi-byte integers are big-endian. A payload may come from
//! anywhere, so every length is held against what is left of the buffer
//! before anything is read.

use crate::error::{AuraError, ErrorView};
use crate::text::string_views;
use vstd::prelude::*;
use vstd::slice::slice_subrange;
use vstd::slice::slice_to_vec;
use vstd::utf8::{decode_utf8, encode_utf8, valid_utf8};

verus! {

/// The two bytes of `n`, high byte first; of a larger `n`, its low 16 bits.
pub open spec fn be16_bytes(n: nat) -> Seq<u8> {
    seq![((n / 256) % 256) as u8, (n % 256) as u8]
}

/// The number whose two bytes are `hi`, `lo`.
pub open spec fn be16_value(hi: u8, lo: u8) -> nat {
    (hi as nat) * 256 + (lo as nat)
}

/// The four bytes of `n`, high byte first; of a larger `n`, its low 32 bits.
pub open spec fn be32_bytes(n: nat) -> Seq<u8> {
    seq![
        ((n / 16777216) % 256) as u8,
        ((n / 65536) % 256) as u8,
        ((n / 256) % 256) as u8,
        (n % 256) as u8,
    ]
}

/// The number whose four bytes are `b0` to `b3`, high byte first.
pub open spec fn be32_value(b0: u8, b1: u8, b2: u8, b3: u8) -> nat {
    (b0 as nat) * 16777216 + (b1 as nat) * 65536 + (b2 as nat) * 256 + (b3 as nat)
}

/// One slot on the wire: the length of its UTF-8 bytes in two bytes, then
/// those bytes.
pub open spec fn slot_block(slot: Seq<char>) -> Seq<u8> {
    be16_bytes(encode_utf8(slot).len()) + encode_utf8(slot)
}

/// The slots on the wire, one block after the other.
pub open spec fn slot_blocks(slots: Seq<Seq<char>>) -> Seq<u8>
    decreases slots.len(),
{
    if slots.len() == 0 {
        Seq::empty()
    } else {
        slot_block(slots.first()) + slot_blocks(slots.drop_first())
    }
}

/// A binary-semantic payload: the tag `0x00`, the template id in one byte,
/// the number of slots in one byte, then the slots. An id or a count above
/// 255 loses its high bits.
pub open spec fn binary_semantic_bytes(template_id: u32, slots: Seq<Seq<char>>) -> Seq<u8> {
    seq![0x00u8, (template_id % 256) as u8, (slots.len() % 256) as u8] + slot_blocks(slots)
}

/// A literal payload: the tag `0x01`, the length of the text's UTF-8 bytes
/// in four bytes, then those bytes.
pub open spec fn auralite_bytes(text: Seq<char>) -> Seq<u8> {
    seq![0x01u8] + be32_bytes(encode_utf8(text).len()) + encode_utf8(text)
}

/// Appending a slot appends its block.
pub proof fn lemma_slot_blocks_push(slots: Seq<Seq<char>>, slot: Seq<char>)
    ensures
        slot_blocks(slots.push(slot)) == slot_blocks(slots) + slot_block(slot),
    decreases slots.len(),
{
    if slots.len() == 0 {
        let one = slots.push(slot);
        assert(one.drop_first() =~= Seq::<Seq<char>>::empty());
        assert(one.first() == slot);
        assert(slot_blocks(one.drop_first()) =~= Seq::<u8>::empty());
        assert(slot_blocks(slots) =~= Seq::<u8>::empty());
        assert(slot_blocks(one) =~= slot_blocks(slots) + slot_block(slot));
    } else {
        lemma_slot_blocks_push(slots.drop_first(), slot);
        assert(slots.push(slot).drop_first() =~= slots.drop_first().push(slot));
        assert(slots.push(slot).first() == slots.first());
        assert(slot_blocks(slots.push(slot)) =~= slot_blocks(slots) + slot_block(slot));
    }
}

/// Appends `bytes` to `out`.
pub fn push_bytes(out: &mut Vec<u8>, bytes: &[u8])
    ensures
        final(out)@ == old(out)@ + bytes@,
{
    let mut k: usize = 0;
    while k < bytes.len()
        invariant
            k <= bytes.len(),
            out@ == old(out)@ + bytes@.take(k as int),
        decreases bytes.len() - k,
    {
        proof {
            assert(bytes@.take(k + 1) =~= bytes@.take(k as int).push(bytes@[k as int]));
        }
        out.push(bytes[k]);
        k = k + 1;
    }
    proof {
        assert(bytes@.take(k as int) =~= bytes@);
    }
}

/// Appends the block of one slot to `out`.
pub fn push_slot(out: &mut Vec<u8>, slot: &str)
    ensures
        final(out)@ == old(out)@ + slot_block(slot@),
{
    let bytes = slot.as_bytes();
    let n = bytes.len();
    out.push(((n / 256) % 256) as u8);
    out.push((n % 256) as u8);
    push_bytes(out, bytes);
    proof {
        assert(out@ =~= old(out)@ + slot_block(slot@));
    }
}

/// Encodes a template id and its slots as a binary-semantic payload.
pub fn encode_binary_semantic(template_id: u32, slots: &[String]) -> (payload: Vec<u8>)
    ensures
        payload@ == binary_semantic_bytes(template_id, string_views(slots@)),
{
    let ghost all = string_views(slots@);
    let mut payload: Vec<u8> = Vec::new();
    payload.push(0x00);
    payload.push((template_id % 256) as u8);
    payload.push((slots.len() % 256) as u8);
    let ghost header = payload@;
    let mut i: usize = 0;
    proof {
        assert(all.take(0) =~= Seq::<Seq<char>>::empty());
        assert(payload@ =~= header + slot_blocks(all.take(0)));
    }
    while i < slots.len()
        invariant
            i <= slots.len(),
            all == string_views(slots@),
            payload@ == header + slot_blocks(all.take(i as int)),
        decreases slots.len() - i,
    {
        push_slot(&mut payload, slots[i].as_str());
        proof {
            lemma_slot_blocks_push(all.take(i as int), all[i as int]);
            assert(all.take(i + 1) =~= all.take(i as int).push(all[i as int]));
            assert(payload@ =~= header + (slot_blocks(all.take(i as int)) + slot_block(
                all[i as int],
            )));
        }
        i = i + 1;
    }
    proof {
        assert(all.take(i as int) =~= all);
    }
    payload
}

/// Encodes a text as a literal payload.
pub fn encode_auralite(text: &str) -> (payload: Vec<u8>)
    ensures
        payload@ == auralite_bytes(text@),
{
    let bytes = text.as_bytes();
    let n = bytes.len();
    let mut payload: Vec<u8> = Vec::new();
    payload.push(0x01);
    payload.push(((n / 16777216) % 256) as u8);
    payload.push(((n / 65536) % 256) as u8);
    payload.push(((n / 256) % 256) as u8);
    payload.push((n % 256) as u8);
    push_bytes(&mut payload, bytes);
    proof {
        assert(payload@ =~= auralite_bytes(text@));
    }
    payload
}

/// The text of the error that `String::from_utf8` gives for bytes that are
/// not UTF-8. Trusted to depend on the bytes alone; nothing else is claimed
/// of it.
pub uninterp spec fn utf8_error_text(bytes: Seq<u8>) -> Seq<char>;

/// `String::from_utf8`: succeeds exactly on well-formed UTF-8, and the
/// string it gives then has the given bytes as its own. On other input the
/// text of its error, as `FromUtf8Error` prints, is handed back; the text
/// depends on the bytes alone.
#[verifier::external_body]
fn text_from_utf8(bytes: Vec<u8>) -> (r: Result<String, String>)
    ensures
        match r {
            Ok(text) => valid_utf8(bytes@) && encode_utf8(text@) == bytes@,
            Err(reason) => !valid_utf8(bytes@) && reason@ == utf8_error_text(bytes@),
        },
{
    String::from_utf8(bytes).map_err(|e| e.to_string())
}

/// What bytes read as text: the text, or the text of the error.
pub open spec fn utf8_text(raw: Seq<u8>) -> Result<Seq<char>, Seq<char>> {
    if valid_utf8(raw) {
        Ok(decode_utf8(raw))
    } else {
        Err(utf8_error_text(raw))
    }
}

/// What bytes decode to as text.
pub open spec fn decoded_text(raw: Seq<u8>) -> Result<Seq<char>, ErrorView> {
    match utf8_text(raw) {
        Ok(text) => Ok(text),
        Err(reason) => Err(ErrorView::DecompressionFailed(reason)),
    }
}

/// Reads the bytes of `data` from `from` to `to` as text; on failure, gives
/// the text of the error.
pub fn read_text(data: &[u8], from: usize, to: usize) -> (r: Result<String, String>)
    requires
        from <= to <= data.len(),
    ensures
        match r {
            Ok(text) => utf8_text(data@.subrange(from as int, to as int)) == Ok::<
                Seq<char>,
                Seq<char>,
            >(text@),
            Err(reason) => utf8_text(data@.subrange(from as int, to as int)) == Err::<
                Seq<char>,
                Seq<char>,
            >(reason@),
        },
{
    let raw = slice_to_vec(slice_subrange(data, from, to));
    match text_from_utf8(raw) {
        Ok(text) => {
            proof {
                vstd::utf8::encode_utf8_decode_utf8(text@);
            }
            Ok(text)
        },
        Err(reason) => Err(reason),
    }
}

/// Decodes the bytes of `data` from `from` to `to` as text.
pub fn decode_text(data: &[u8], from: usize, to: usize) -> (r: Result<String, AuraError>)
    requires
        from <= to <= data.len(),
    ensures
        match r {
            Ok(text) => decoded_text(data@.subrange(from as int, to as int)) == Ok::<
                Seq<char>,
                ErrorView,
            >(text@),
            Err(e) => decoded_text(data@.subrange(from as int, to as int)) == Err::<
                Seq<char>,
                ErrorView,
            >(e@),
        },
{
    match read_text(data, from, to) {
        Ok(text) => Ok(text),
        Err(reason) => Err(AuraError::DecompressionFailed(reason)),
    }
}

/// Why slots could not be read.
#[derive(Debug)]
pub enum SlotFault {
    /// The buffer ends before the two bytes of a slot's length.
    LengthCutShort,
    /// The buffer ends before the end of a slot's bytes.
    DataCutShort,
    /// A slot's bytes are not UTF-8; the field is the text of the error.
    BadText(String),
}

/// A fault with its text as a character sequence.
pub enum SlotFaultView {
    LengthCutShort,
    DataCutShort,
    BadText(Seq<char>),
}

impl View for SlotFault {
    type V = SlotFaultView;

    open spec fn view(&self) -> SlotFaultView {
        match self {
            SlotFault::LengthCutShort => SlotFaultView::LengthCutShort,
            SlotFault::DataCutShort => SlotFaultView::DataCutShort,
            SlotFault::BadText(reason) => SlotFaultView::BadText(reason@),
        }
    }
}

/// Whether a fault is that of a buffer that ends too early.
pub open spec fn is_cut_short(fault: SlotFaultView) -> bool {
    fault is LengthCutShort || fault is DataCutShort
}

/// The error of a binary-semantic payload that ends too early.
pub open spec fn malformed_binary() -> ErrorView {
    ErrorView::InvalidPayload("Malformed binary payload"@)
}

/// The error of a literal payload that ends too early.
pub open spec fn malformed_auralite() -> ErrorView {
    ErrorView::InvalidPayload("Malformed AuraLite payload"@)
}

/// The error of a payload without a single byte.
pub open spec fn empty_payload() -> ErrorView {
    ErrorView::InvalidPayload("Empty payload"@)
}

/// Reads `count` slot blocks from `data`, starting at `offset`. The first
/// block that is cut short, or whose bytes are not UTF-8, decides the
/// fault. Bytes behind the last block are not examined.
pub open spec fn parse_slots(data: Seq<u8>, offset: int, count: nat) -> Result<
    Seq<Seq<char>>,
    SlotFaultView,
>
    decreases count,
{
    if count == 0 {
        Ok(Seq::empty())
    } else if offset < 0 || offset + 2 > data.len() {
        Err(SlotFaultView::LengthCutShort)
    } else {
        let length = be16_value(data[offset], data[offset + 1]) as int;
        let start = offset + 2;
        if start + length > data.len() {
            Err(SlotFaultView::DataCutShort)
        } else {
            match utf8_text(data.subrange(start, start + length)) {
                Err(reason) => Err(SlotFaultView::BadText(reason)),
                Ok(slot) => match parse_slots(data, start + length, (count - 1) as nat) {
                    Err(fault) => Err(fault),
                    Ok(rest) => Ok(seq![slot] + rest),
                },
            }
        }
    }
}

/// The error that a fault of the slots makes of a binary-semantic payload.
pub open spec fn binary_fault(fault: SlotFaultView) -> ErrorView {
    match fault {
        SlotFaultView::LengthCutShort => malformed_binary(),
        SlotFaultView::DataCutShort => malformed_binary(),
        SlotFaultView::BadText(reason) => ErrorView::DecompressionFailed(reason),
    }
}

/// What the part of a binary-semantic payload behind the tag reads as: the
/// template id and the slots.
pub open spec fn parse_binary_semantic(data: Seq<u8>) -> Result<(u32, Seq<Seq<char>>), ErrorView> {
    if data.len() < 2 {
        Err(malformed_binary())
    } else {
        match parse_slots(data, 2, data[1] as nat) {
            Err(fault) => Err(binary_fault(fault)),
            Ok(slots) => Ok((data[0] as u32, slots)),
        }
    }
}

/// What the part of a literal payload behind the tag reads as. Bytes behind
/// the text are not examined.
pub open spec fn parse_auralite(data: Seq<u8>) -> Result<Seq<char>, ErrorView> {
    if data.len() < 4 {
        Err(malformed_auralite())
    } else {
        let length = be32_value(data[0], data[1], data[2], data[3]);
        if data.len() < 4 + length {
            Err(malformed_auralite())
        } else {
            decoded_text(data.subrange(4, 4 + length as int))
        }
    }
}

/// Reads `count` slot blocks from `data`, starting at `offset`.
pub fn decode_slots(data: &[u8], offset: usize, count: usize) -> (r: Result<Vec<String>, SlotFault>)
    requires
        offset <= data.len(),
    ensures
        match r {
            Ok(slots) => parse_slots(data@, offset as int, count as nat) == Ok::<
                Seq<Seq<char>>,
                SlotFaultView,
            >(string_views(slots@)),
            Err(fault) => parse_slots(data@, offset as int, count as nat) == Err::<
                Seq<Seq<char>>,
                SlotFaultView,
            >(fault@),
        },
{
    let mut at: usize = offset;
    let mut slots: Vec<String> = Vec::new();
    let mut done: usize = 0;
    proof {
        assert(string_views(slots@) =~= Seq::<Seq<char>>::empty());
    }
    while done < count
        invariant
            done <= count,
            at <= data.len(),
            parse_slots(data@, offset as int, count as nat) == (match parse_slots(
                data@,
                at as int,
                (count - done) as nat,
            ) {
                Err(fault) => Err::<Seq<Seq<char>>, SlotFaultView>(fault),
                Ok(rest) => Ok(string_views(slots@) + rest),
            }),
        decreases count - done,
    {
        if data.len() - at < 2 {
            return Err(SlotFault::LengthCutShort);
        }
        let length = (data[at] as usize) * 256 + (data[at + 1] as usize);
        let start = at + 2;
        if data.len() - start < length {
            return Err(SlotFault::DataCutShort);
        }
        match read_text(data, start, start + length) {
            Err(reason) => {
                return Err(SlotFault::BadText(reason));
            },
            Ok(slot) => {
                let ghost before = string_views(slots@);
                proof {
                    let rest = parse_slots(data@, start + length, (count - done - 1) as nat);
                    if let Ok(tail) = rest {
                        assert(before + (seq![slot@] + tail) =~= before.push(slot@) + tail);
                    }
                }
                slots.push(slot);
                proof {
                    assert(string_views(slots@) =~= before.push(slot@));
                }
                at = start + length;
            },
        }
        done = done + 1;
    }
    proof {
        assert(string_views(slots@) + Seq::<Seq<char>>::empty() =~= string_views(slots@));
    }
    Ok(slots)
}

/// Reads the part of a binary-semantic payload behind the tag.
pub fn decode_binary_semantic(data: &[u8]) -> (r: Result<(u32, Vec<String>), AuraError>)
    ensures
        match r {
            Ok((id, slots)) => parse_binary_semantic(data@) == Ok::<
                (u32, Seq<Seq<char>>),
                ErrorView,
            >((id, string_views(slots@))),
            Err(e) => parse_binary_semantic(data@) == Err::<(u32, Seq<Seq<char>>), ErrorView>(e@),
        },
{
    if data.len() < 2 {
        return Err(AuraError::InvalidPayload("Malformed binary payload".to_owned()));
    }
    match decode_slots(data, 2, data[1] as usize) {
        Ok(slots) => Ok((data[0] as u32, slots)),
        Err(SlotFault::BadText(reason)) => Err(AuraError::DecompressionFailed(reason)),
        Err(_) => Err(AuraError::InvalidPayload("Malformed binary payload".to_owned())),
    }
}

/// Reads the part of a literal payload behind the tag.
pub fn decode_auralite(data: &[u8]) -> (r: Result<String, AuraError>)
    ensures
        match r {
            Ok(text) => parse_auralite(data@) == Ok::<Seq<char>, ErrorView>(text@),
            Err(e) => parse_auralite(data@) == Err::<Seq<char>, ErrorView>(e@),
        },
{
    if data.len() < 4 {
        return Err(AuraError::InvalidPayload("Malformed AuraLite payload".to_owned()));
    }
    let length: u64 = (data[0] as u64) * 16777216 + (data[1] as u64) * 65536 + (data[2] as u64)
        * 256 + (data[3] as u64);
    if ((data.len() - 4) as u64) < length {
        return Err(AuraError::InvalidPayload("Malformed AuraLite payload".to_owned()));
    }
    decode_text(data, 4, 4 + length as usize)
}

/// Whether every slot's UTF-8 bytes are few enough for a two-byte length.
pub open spec fn slots_fit(slots: Seq<Seq<char>>) -> bool {
    forall|i: int| 0 <= i < slots.len() ==> encode_utf8(#[trigger] slots[i]).len() < 65536
}

/// Two bytes read back as the number they were written for.
pub proof fn lemma_be16_round_trip(n: nat)
    requires
        n < 65536,
    ensures
        be16_bytes(n).len() == 2,
        be16_value(be16_bytes(n)[0], be16_bytes(n)[1]) == n,
{
}

/// Four bytes read back as the number they were written for.
pub proof fn lemma_be32_round_trip(n: nat)
    requires
        n < 4294967296,
    ensures
        be32_bytes(n).len() == 4,
        be32_value(be32_bytes(n)[0], be32_bytes(n)[1], be32_bytes(n)[2], be32_bytes(n)[3]) == n,
{
}

/// Text that was encoded decodes to itself.
pub proof fn lemma_decoded_text_of_encoding(text: Seq<char>)
    ensures
        utf8_text(encode_utf8(text)) == Ok::<Seq<char>, Seq<char>>(text),
        decoded_text(encode_utf8(text)) == Ok::<Seq<char>, ErrorView>(text),
{
    vstd::utf8::encode_utf8_valid_utf8(text);
    vstd::utf8::encode_utf8_decode_utf8(text);
}

/// Where the blocks of `slots` stand in `data` at `offset`, reading as many
/// slots there gives `slots`.
pub proof fn lemma_parse_slot_blocks(data: Seq<u8>, offset: int, slots: Seq<Seq<char>>)
    requires
        slots_fit(slots),
        0 <= offset,
        offset + slot_blocks(slots).len() <= data.len(),
        data.subrange(offset, offset + slot_blocks(slots).len()) == slot_blocks(slots),
    ensures
        parse_slots(data, offset, slots.len()) == Ok::<Seq<Seq<char>>, SlotFaultView>(slots),
    decreases slots.len(),
{
    if slots.len() == 0 {
        assert(slots =~= Seq::<Seq<char>>::empty());
    } else {
        let first = slots.first();
        let rest = slots.drop_first();
        let raw = encode_utf8(first);
        let n = raw.len();
        let blocks = slot_blocks(slots);
        let window = data.subrange(offset, offset + blocks.len());
        assert(slots[0] == first);
        lemma_be16_round_trip(n);
        assert(blocks == be16_bytes(n) + raw + slot_blocks(rest));
        assert(blocks.len() == 2 + n + slot_blocks(rest).len());
        assert(data[offset] == window[0] && window[0] == be16_bytes(n)[0]);
        assert(data[offset + 1] == window[1] && window[1] == be16_bytes(n)[1]);
        let start = offset + 2;
        assert(data.subrange(start, start + n) =~= raw) by {
            assert forall|k: int| 0 <= k < n implies data[start + k] == raw[k] by {
                assert(data[start + k] == window[2 + k]);
            }
        }
        lemma_decoded_text_of_encoding(first);
        assert(slots_fit(rest)) by {
            assert forall|i: int| 0 <= i < rest.len() implies encode_utf8(#[trigger] rest[i]).len()
                < 65536 by {
                assert(rest[i] == slots[i + 1]);
            }
        }
        assert(data.subrange(start + n, start + n + slot_blocks(rest).len()) =~= slot_blocks(rest))
            by {
            assert forall|k: int| 0 <= k < slot_blocks(rest).len() implies data[start + n + k]
                == slot_blocks(rest)[k] by {
                assert(data[start + n + k] == window[2 + n + k]);
            }
        }
        lemma_parse_slot_blocks(data, start + n, rest);
        assert(seq![first] + rest =~= slots);
    }
}

/// Where a buffer ends inside the blocks of `slots`, or between two of
/// them, reading as many slots fails with the fault of a buffer cut short.
pub proof fn lemma_parse_truncated_slot_blocks(
    data: Seq<u8>,
    offset: int,
    slots: Seq<Seq<char>>,
    cut: int,
)
    requires
        slots_fit(slots),
        0 <= offset <= cut < offset + slot_blocks(slots).len(),
        offset + slot_blocks(slots).len() <= data.len(),
        data.subrange(offset, offset + slot_blocks(slots).len()) == slot_blocks(slots),
    ensures
        parse_slots(data.take(cut), offset, slots.len()) matches Err(fault) && is_cut_short(fault),
    decreases slots.len(),
{
    if slots.len() == 0 {
        assert(slot_blocks(slots).len() == 0);
    } else {
        let short = data.take(cut);
        let first = slots.first();
        let rest = slots.drop_first();
        let raw = encode_utf8(first);
        let n = raw.len();
        let blocks = slot_blocks(slots);
        let window = data.subrange(offset, offset + blocks.len());
        assert(slots[0] == first);
        lemma_be16_round_trip(n);
        assert(blocks == be16_bytes(n) + raw + slot_blocks(rest));
        assert(blocks.len() == 2 + n + slot_blocks(rest).len());
        let start = offset + 2;
        if cut >= start {
            assert(short[offset] == data[offset] && data[offset] == window[0] && window[0]
                == be16_bytes(n)[0]);
            assert(short[offset + 1] == data[offset + 1] && data[offset + 1] == window[1]
                && window[1] == be16_bytes(n)[1]);
            if cut >= start + n {
                assert(short.subrange(start, start + n) =~= raw) by {
                    assert forall|k: int| 0 <= k < n implies short[start + k] == raw[k] by {
                        assert(short[start + k] == window[2 + k]);
                    }
                }
                lemma_decoded_text_of_encoding(first);
                assert(slots_fit(rest)) by {
                    assert forall|i: int| 0 <= i < rest.len() implies encode_utf8(
                        #[trigger] rest[i],
                    ).len() < 65536 by {
                        assert(rest[i] == slots[i + 1]);
                    }
                }
                assert(data.subrange(start + n, start + n + slot_blocks(rest).len())
                    =~= slot_blocks(rest)) by {
                    assert forall|k: int| 0 <= k < slot_blocks(rest).len() implies data[start + n
                        + k] == slot_blocks(rest)[k] by {
                        assert(data[start + n + k] == window[2 + n + k]);
                    }
                }
                lemma_parse_truncated_slot_blocks(data, start + n, rest, cut);
            }
        }
    }
}

} // verus!
