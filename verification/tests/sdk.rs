use aura_compression::error::AuraError;
use aura_compression::protocol::CompressionMethod;
use aura_compression::sdk::{ClientSDK, ServerSDK};
use std::collections::HashMap;

#[test]
fn client_starts_with_built_in_and_extra_templates() {
    let client = ClientSDK::new(None, None);
    assert_eq!(client.list_templates().len(), 20);

    let mut extra = HashMap::new();
    extra.insert(1u32, "Never {0}.".to_string());
    extra.insert(50u32, "Fifty {0}".to_string());
    extra.insert(51u32, "Fifty-one".to_string());
    let client = ClientSDK::new(None, Some(extra));
    let all = client.list_templates();
    assert_eq!(all.len(), 22);
    assert_eq!(all[&1], "Never {0}.");
    assert_eq!(all[&50], "Fifty {0}");
    assert_eq!(all[&51], "Fifty-one");
    assert_eq!(all[&2], "I'm unable to {0} because {1}.");
}

#[test]
fn client_extra_templates_go_over_the_store() {
    let store = "{\"templates\": {\"60\": {\"pattern\": \"from store\"}, \"61\": {\"pattern\": \"store only\"}}}";
    let mut extra = HashMap::new();
    extra.insert(60u32, "from extra".to_string());
    let client = ClientSDK::new(Some(store.to_string()), Some(extra));
    let all = client.list_templates();
    assert_eq!(all.len(), 22);
    assert_eq!(all[&60], "from extra");
    assert_eq!(all[&61], "store only");
}

#[test]
fn client_decodes_with_and_without_metadata() {
    let mut client = ClientSDK::new(None, None);
    client.register_template(30, "Hi {0}".to_string());
    let (payload, method, _) = client
        .compress("ignored", Some(30), Some(vec!["there".to_string()]))
        .unwrap();
    assert_eq!(method, CompressionMethod::BinarySemantic);

    let (text, metadata) = client.decode_payload(&payload, false).unwrap();
    assert_eq!(text, "Hi there");
    assert!(metadata.is_none());

    let (text, metadata) = client.decode_payload(&payload, true).unwrap();
    assert_eq!(text, "Hi there");
    let metadata = metadata.unwrap();
    assert_eq!(metadata.method, "binary_semantic");
    assert!(metadata.template_ids.is_empty());

    let (_, metadata) = client.decode_payload(&[0x01, 0, 0, 0, 1, b'x'], true).unwrap();
    assert_eq!(metadata.unwrap().method, "auralite");
    let (_, metadata) = client.decode_payload(&[0x03, 0, 0, 0, 1, b'x'], true).unwrap();
    assert_eq!(metadata.unwrap().method, "aura_lite");
    let (text, metadata) = client.decode_payload(&[0xFF, b'x'], true).unwrap();
    assert_eq!(text, "x");
    assert_eq!(metadata.unwrap().method, "uncompressed");
}

#[test]
fn client_decode_passes_errors_on() {
    let client = ClientSDK::new(None, None);
    for with_metadata in [false, true] {
        match client.decode_payload(&[], with_metadata) {
            Err(AuraError::InvalidPayload(_)) => {}
            other => panic!("unexpected: {:?}", other),
        }
        match client.decode_payload(&[0x02, 1, 2], with_metadata) {
            Err(AuraError::UnknownMethod(0x02)) => {}
            other => panic!("unexpected: {:?}", other),
        }
        match client.decode_payload(&[0x00, 99, 0], with_metadata) {
            Err(AuraError::TemplateNotFound(99)) => {}
            other => panic!("unexpected: {:?}", other),
        }
    }
}

#[test]
fn server_forwards_to_the_compressor() {
    let server = ServerSDK::new(true, None, true, Some("session".to_string()), None);
    let (payload, method, metadata) = server.compress("I cannot fly.", None, None).unwrap();
    assert_eq!(method, CompressionMethod::BinarySemantic);
    assert_eq!(payload, vec![0x00, 0x01, 0x01, 0x00, 0x03, b'f', b'l', b'y']);
    assert_eq!(metadata.template_ids, vec![1]);
    assert_eq!(server.decompress(&payload).unwrap(), "I cannot fly.");
    match server.decompress(&[]) {
        Err(AuraError::InvalidPayload(_)) => {}
        other => panic!("unexpected: {:?}", other),
    }
}

#[test]
fn server_with_store() {
    let store = "{\"templates\": {\"0\": {\"pattern\": \"Zero {0}!\"}}}";
    let server = ServerSDK::new(false, Some(store.to_string()), false, None, None);
    let (payload, _, metadata) = server.compress("Zero point!", None, None).unwrap();
    assert_eq!(metadata.template_ids, vec![0]);
    assert_eq!(payload, vec![0x00, 0x00, 0x01, 0x00, 0x05, b'p', b'o', b'i', b'n', b't']);
    assert_eq!(server.decompress(&payload).unwrap(), "Zero point!");
}

#[test]
fn server_placeholders() {
    let server = ServerSDK::new(true, None, false, None, None);
    for payload in [&[][..], &[0x00, 1, 0][..], &[0xFF, 0xFF][..]] {
        let metadata = server.extract_metadata(payload);
        assert_eq!(metadata.method, "unknown");
        assert!(metadata.template_ids.is_empty());
        assert_eq!(server.classify_intent(payload), "general");
        assert!(server.screen_fast_path(payload));
    }
}
