use aura_compression::native::{AuraCompressor, CompressionMethod, Status, Template};
use aura_compression::ratio::Ratio;
use std::io::Write;

fn strings(items: &[&str]) -> Vec<String> {
    items.iter().map(|s| s.to_string()).collect()
}

#[test]
fn tags() {
    assert_eq!(CompressionMethod::from(1), CompressionMethod::BinarySemantic);
    assert_eq!(CompressionMethod::from(2), CompressionMethod::Brotli);
    for tag in [0u8, 3, 4, 100, 254, 255] {
        assert_eq!(CompressionMethod::from(tag), CompressionMethod::Uncompressed);
    }
    assert_eq!(CompressionMethod::BinarySemantic.to_byte(), 1);
    assert_eq!(CompressionMethod::Brotli.to_byte(), 2);
    assert_eq!(CompressionMethod::Uncompressed.to_byte(), 255);
}

#[test]
fn default_templates() {
    let c = AuraCompressor::new().unwrap();
    let expected = [
        (0u8, "I don't have access to {0}. {1}", "No real-time data", 2u8),
        (1, "I can help you with {0}. {1}", "Offer help", 2),
        (2, "To {0}, you need to {1}.", "Instructions", 2),
        (10, "Yes, I can help with that. {0}", "Help confirmation", 1),
        (20, "{0} is {1} {2} {3}.", "Definition", 4),
        (40, "To {0}, use {1}: `{2}`", "Tool instruction", 3),
        (90, "To {0}, I recommend: {1}", "Recommendation", 2),
        (
            100,
            "Yes, I can help with that. What specific {0} would you like to know more about?",
            "Clarification",
            1,
        ),
    ];
    for (id, pattern, description, slots) in expected {
        let template = c.get_template(id).unwrap();
        assert_eq!(template.id, id);
        assert_eq!(template.pattern, pattern);
        assert_eq!(template.description, description);
        assert_eq!(template.slots, slots);
    }
    for id in [3u8, 11, 21, 255] {
        assert!(c.get_template(id).is_none());
    }
}

#[test]
fn add_template_replaces() {
    let mut c = AuraCompressor::new().unwrap();
    c.add_template(Template::new(1, "New {0}", "replaced", 1));
    c.add_template(Template::new(7, "Seven", "added", 0));
    assert_eq!(c.get_template(1).unwrap().pattern, "New {0}");
    assert_eq!(c.get_template(7).unwrap().description, "added");
    assert_eq!(c.get_template(0).unwrap().slots, 2);
}

#[test]
fn fill_checks_the_slot_count() {
    let template = Template::new(3, "{0} and {1}", "pair", 2);
    assert_eq!(template.fill(&strings(&["a", "b"])).unwrap(), "a and b");
    let e = template.fill(&strings(&["a"])).unwrap_err();
    assert_eq!(e.status, Status::InvalidArg);
    assert_eq!(e.reason, "Expected 2 slots, got 1");
    let e = template.fill(&vec![String::new(); 300]).unwrap_err();
    assert_eq!(e.reason, "Expected 2 slots, got 300");
}

#[test]
fn short_text_is_stored_as_it_is() {
    let c = AuraCompressor::new().unwrap();
    let result = c.compress("héllo".to_string()).unwrap();
    assert_eq!(result.data, vec![255, b'h', 0xC3, 0xA9, b'l', b'l', b'o']);
    assert_eq!(result.method, CompressionMethod::Uncompressed);
    assert_eq!(result.original_size, 6);
    assert_eq!(result.compressed_size, 7);
    assert_eq!(result.ratio, Ratio { numerator: 1, denominator: 1 });
    assert_eq!(result.template_id, None);

    let back = c.decompress(&result.data).unwrap();
    assert_eq!(back.plaintext, "héllo");
    assert_eq!(back.method, CompressionMethod::Uncompressed);
    assert_eq!(back.original_size, 6);
    assert_eq!(back.compressed_size, 7);
    assert_eq!(back.ratio, Ratio { numerator: 6, denominator: 7 });
    assert_eq!(back.template_id, None);
}

#[test]
fn minimum_size_decides_the_method() {
    let c = AuraCompressor::new().unwrap();
    let below = "a".repeat(49);
    let at = "a".repeat(50);
    assert_eq!(c.compress(below).unwrap().method, CompressionMethod::Uncompressed);
    assert_eq!(c.compress(at).unwrap().method, CompressionMethod::Brotli);
    // The size counts bytes, not characters.
    let c = AuraCompressor::with_config(Ratio { numerator: 3, denominator: 2 }, 4).unwrap();
    assert_eq!(c.compress("ééé".to_string()).unwrap().method, CompressionMethod::Brotli);
    assert_eq!(c.compress("abc".to_string()).unwrap().method, CompressionMethod::Uncompressed);
    let c = AuraCompressor::with_config(Ratio { numerator: 1, denominator: 1 }, 0).unwrap();
    assert_eq!(c.compress(String::new()).unwrap().method, CompressionMethod::Brotli);
}

#[test]
fn long_text_goes_through_the_codec() {
    let c = AuraCompressor::new().unwrap();
    let text = "The quick brown fox jumps over the lazy dog. ".repeat(40) + "Ünïcödé 🎉";
    let result = c.compress(text.clone()).unwrap();
    assert_eq!(result.method, CompressionMethod::Brotli);
    assert_eq!(result.data[0], 2);
    assert!(result.data.len() < text.len());
    assert_ne!(&result.data[1..], text.as_bytes());
    assert_eq!(result.original_size as usize, text.len());
    assert_eq!(result.compressed_size as usize, result.data.len());
    assert_eq!(
        result.ratio,
        Ratio { numerator: text.len() as u128, denominator: result.data.len() as u128 }
    );
    assert_eq!(result.template_id, None);

    let back = c.decompress(&result.data).unwrap();
    assert_eq!(back.plaintext, text);
    assert_eq!(back.method, CompressionMethod::Brotli);
    assert_eq!(back.original_size as usize, text.len());
    assert_eq!(back.compressed_size as usize, result.data.len());
    assert_eq!(back.template_id, None);
}

#[test]
fn compress_round_trips() {
    let c = AuraCompressor::with_config(Ratio { numerator: 11, denominator: 10 }, 10).unwrap();
    for text in ["", "short", "exactly ten", "日本語のテキストを圧縮する", &"ab".repeat(5000)] {
        let result = c.compress(text.to_string()).unwrap();
        assert_eq!(c.decompress(&result.data).unwrap().plaintext, text);
        let direct = c.compress_brotli(text).unwrap();
        assert_eq!(direct.method, CompressionMethod::Brotli);
        assert_eq!(c.decompress(&direct.data).unwrap().plaintext, text);
        let stored = c.compress_uncompressed(text).unwrap();
        assert_eq!(stored.method, CompressionMethod::Uncompressed);
        assert_eq!(c.decompress(&stored.data).unwrap().plaintext, text);
    }
}

#[test]
fn codec_rejects_what_is_no_stream() {
    let c = AuraCompressor::new().unwrap();
    let e = c.decompress(&[2, 0xFF, 0xFF, 0xFF, 0xFF, 0xFF]).unwrap_err();
    assert_eq!(e.status, Status::GenericFailure);
    let e = c.decompress_brotli(&[0xFF, 0xFF, 0xFF, 0xFF]).unwrap_err();
    assert_eq!(e.status, Status::GenericFailure);
}

#[test]
fn codec_output_that_is_no_text_is_the_callers_fault() {
    let c = AuraCompressor::new().unwrap();
    // A valid stream of bytes that are not UTF-8.
    let mut stream = Vec::new();
    {
        let mut writer = brotli::CompressorWriter::new(&mut stream, 4096, 11, 22);
        writer.write_all(&[0xFF, 0xFE, 0xFD]).unwrap();
    }
    let e = c.decompress_brotli(&stream).unwrap_err();
    assert_eq!(e.status, Status::InvalidArg);
    assert_eq!(e.reason, String::from_utf8(vec![0xFF, 0xFE, 0xFD]).unwrap_err().to_string());
}

#[test]
fn template_payload_exact_bytes() {
    let c = AuraCompressor::new().unwrap();
    let result = c.compress_with_template(2, strings(&["win", "try"])).unwrap();
    assert_eq!(
        result.data,
        vec![1, 2, 2, 0, 3, b'w', b'i', b'n', 0, 3, b't', b'r', b'y']
    );
    assert_eq!(result.method, CompressionMethod::BinarySemantic);
    // "To win, you need to try."
    assert_eq!(result.original_size, 24);
    assert_eq!(result.compressed_size, 13);
    assert_eq!(result.ratio, Ratio { numerator: 24, denominator: 13 });
    assert_eq!(result.template_id, Some(2));

    let back = c.decompress(&result.data).unwrap();
    assert_eq!(back.plaintext, "To win, you need to try.");
    assert_eq!(back.method, CompressionMethod::BinarySemantic);
    assert_eq!(back.original_size, 24);
    assert_eq!(back.compressed_size, 13);
    assert_eq!(back.ratio, Ratio { numerator: 24, denominator: 13 });
    assert_eq!(back.template_id, Some(2));
}

#[test]
fn template_compression_errors() {
    let c = AuraCompressor::new().unwrap();
    let e = c.compress_with_template(3, strings(&["x"])).unwrap_err();
    assert_eq!(e.status, Status::InvalidArg);
    assert_eq!(e.reason, "Unknown template ID: 3");
    let e = c.compress_with_template(255, vec![]).unwrap_err();
    assert_eq!(e.reason, "Unknown template ID: 255");
    let e = c.compress_with_template(20, strings(&["a", "b"])).unwrap_err();
    assert_eq!(e.status, Status::InvalidArg);
    assert_eq!(e.reason, "Expected 4 slots, got 2");
}

#[test]
fn template_decompression_errors() {
    let c = AuraCompressor::new().unwrap();
    let reason = |data: &[u8]| {
        let e = c.decompress(data).unwrap_err();
        assert_eq!(e.status, Status::InvalidArg);
        e.reason
    };
    assert_eq!(reason(&[]), "Empty data");
    assert_eq!(reason(&[1]), "Data too short");
    assert_eq!(reason(&[1, 2]), "Data too short");
    assert_eq!(reason(&[1, 3, 0]), "Unknown template ID: 3");
    // The id is looked up before the count is compared.
    assert_eq!(reason(&[1, 3, 9]), "Unknown template ID: 3");
    assert_eq!(reason(&[1, 2, 1, 0, 1, b'a']), "Expected 2 slots, got 1");
    assert_eq!(reason(&[1, 2, 200]), "Expected 2 slots, got 200");
    assert_eq!(reason(&[1, 2, 2]), "Incomplete slot length");
    assert_eq!(reason(&[1, 2, 2, 0]), "Incomplete slot length");
    assert_eq!(reason(&[1, 2, 2, 0, 3, b'a']), "Incomplete slot data");
    assert_eq!(reason(&[1, 2, 2, 0, 1, b'a']), "Incomplete slot length");
    assert_eq!(reason(&[1, 2, 2, 0, 1, b'a', 0, 2, b'b']), "Incomplete slot data");
    assert_eq!(
        reason(&[1, 2, 2, 0, 1, 0xFF, 0, 1, b'b']),
        String::from_utf8(vec![0xFF]).unwrap_err().to_string()
    );
    assert_eq!(
        reason(&[255, 0xC3]),
        String::from_utf8(vec![0xC3]).unwrap_err().to_string()
    );
}

#[test]
fn unknown_tags_are_text_as_it_is() {
    let c = AuraCompressor::new().unwrap();
    for tag in [0u8, 3, 77, 255] {
        let back = c.decompress(&[tag, b'o', b'k']).unwrap();
        assert_eq!(back.plaintext, "ok");
        assert_eq!(back.method, CompressionMethod::Uncompressed);
        assert_eq!(back.original_size, 2);
        assert_eq!(back.compressed_size, 3);
    }
    assert_eq!(c.decompress(&[9]).unwrap().plaintext, "");
}
