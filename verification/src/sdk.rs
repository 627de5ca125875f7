//! The client and server faces of the compressor. Both hold a compressor
//! and add little of their own.

use crate::compressor::{
    compressed, decompressed, describes, initial_templates, slot_views, Compressor,
};
use crate::error::{AuraError, ErrorView};
use crate::frequency::keys_of;
use crate::protocol::{
    method_name, method_of_byte, CompressionMetadata, CompressionMethod, DecompressionMetadata,
};
use crate::text::text_view;
use std::collections::HashMap;
use vstd::prelude::*;

verus! {

/// The patterns of a map of templates.
pub open spec fn pattern_views(templates: Map<u32, String>) -> Map<u32, Seq<char>> {
    templates.map_values(|pattern: String| pattern@)
}

/// Registers every template of `extra` with the compressor.
fn register_all(compressor: &mut Compressor, extra: &HashMap<u32, String>)
    ensures
        final(compressor).templates() == old(compressor).templates().union_prefer_right(
            pattern_views(extra@),
        ),
{
    broadcast use vstd::std_specs::hash::group_hash_axioms;

    let keys = keys_of(extra);
    let ghost before = compressor.templates();
    let ghost added = pattern_views(extra@);
    let mut i: usize = 0;
    proof {
        assert(before.union_prefer_right(added.restrict(keys@.take(0).to_set())) =~= before);
    }
    while i < keys.len()
        invariant
            i <= keys@.len(),
            keys@.to_set() == extra@.dom(),
            added == pattern_views(extra@),
            compressor.templates() == before.union_prefer_right(
                added.restrict(keys@.take(i as int).to_set()),
            ),
        decreases keys@.len() - i,
    {
        let id = keys[i];
        proof {
            assert(keys@.to_set().contains(id));
        }
        match extra.get(&id) {
            Some(pattern) => {
                compressor.register_template(id, pattern.clone());
                proof {
                    assert(keys@.take(i + 1) =~= keys@.take(i as int).push(id));
                    let prev = keys@.take(i as int);
                    let next = keys@.take(i + 1);
                    assert forall|k: u32| next.to_set().contains(k) <==> prev.to_set().insert(
                        id,
                    ).contains(k) by {
                        if next.contains(k) {
                            let j = choose|j: int| 0 <= j < next.len() && next[j] == k;
                            if j < i {
                                assert(prev[j] == k);
                            }
                        }
                        if prev.contains(k) {
                            let j = choose|j: int| 0 <= j < prev.len() && prev[j] == k;
                            assert(next[j] == k);
                        }
                        if k == id {
                            assert(next[i as int] == id);
                        }
                    }
                    assert(next.to_set() =~= prev.to_set().insert(id));
                    assert(compressor.templates() =~= before.union_prefer_right(
                        added.restrict(keys@.take(i + 1).to_set()),
                    ));
                }
            },
            None => {},
        }
        i = i + 1;
    }
    proof {
        assert(keys@.take(i as int) =~= keys@);
        assert(added.restrict(keys@.to_set()) =~= added);
    }
}

/// The name of the method that a payload is tagged with; `unknown` for a
/// payload without a tag or with a byte that is no tag.
pub open spec fn payload_method_name(payload: Seq<u8>) -> Seq<char> {
    if payload.len() == 0 {
        "unknown"@
    } else {
        match method_of_byte(payload[0]) {
            Some(method) => method_name(method),
            None => "unknown"@,
        }
    }
}

/// The client's face of the compressor.
pub struct ClientSDK {
    compressor: Compressor,
}

impl ClientSDK {
    /// The templates of this client, from id to pattern.
    pub closed spec fn templates(&self) -> Map<u32, Seq<char>> {
        self.compressor.templates()
    }

    /// A client with the built-in templates, over them those of the
    /// template store, and over those the templates of `extra_templates`.
    pub fn new(template_store: Option<String>, extra_templates: Option<HashMap<u32, String>>) -> (client:
        ClientSDK)
        ensures
            client.templates() == match extra_templates {
                Some(extra) => initial_templates(text_view(template_store)).union_prefer_right(
                    pattern_views(extra@),
                ),
                None => initial_templates(text_view(template_store)),
            },
    {
        let mut compressor = Compressor::new(true, template_store, false, None, None);
        if let Some(extra) = extra_templates {
            register_all(&mut compressor, &extra);
        }
        ClientSDK { compressor }
    }

    /// Decompresses a payload and, where `return_metadata` is set, names
    /// the method it was encoded with.
    pub fn decode_payload(&self, payload: &[u8], return_metadata: bool) -> (r: Result<
        (String, Option<DecompressionMetadata>),
        AuraError,
    >)
        ensures
            match r {
                Ok((text, metadata)) => {
                    &&& decompressed(self.templates(), payload@) == Ok::<Seq<char>, ErrorView>(
                        text@,
                    )
                    &&& metadata is Some <==> return_metadata
                    &&& metadata matches Some(m) ==> m.method@ == payload_method_name(payload@)
                        && m.template_ids@.len() == 0
                },
                Err(e) => decompressed(self.templates(), payload@) == Err::<Seq<char>, ErrorView>(
                    e@,
                ),
            },
    {
        let text = match self.compressor.decompress(payload) {
            Ok(text) => text,
            Err(e) => {
                return Err(e);
            },
        };
        if !return_metadata {
            return Ok((text, None));
        }
        let method = if payload.len() > 0 {
            match CompressionMethod::from_byte(payload[0]) {
                Ok(method) => method.as_str().to_owned(),
                Err(e) => {
                    return Err(e);
                },
            }
        } else {
            "unknown".to_owned()
        };
        Ok((text, Some(DecompressionMetadata { method, template_ids: Vec::new() })))
    }

    /// Compresses a text. See [`Compressor::compress`].
    pub fn compress(&self, text: &str, template_id: Option<u32>, slots: Option<Vec<String>>) -> (r:
        Result<(Vec<u8>, CompressionMethod, CompressionMetadata), AuraError>)
        ensures
            r matches Ok((payload, method, metadata)) && {
                let outcome = compressed(self.templates(), text@, template_id, slot_views(slots));
                &&& payload@ == outcome.0
                &&& method == outcome.1
                &&& describes(metadata, text@, payload@, method, outcome.2)
            },
    {
        self.compressor.compress(text, template_id, slots)
    }

    /// Registers a template, replacing what the id stood for.
    pub fn register_template(&mut self, template_id: u32, pattern: String)
        ensures
            final(self).templates() == old(self).templates().insert(template_id, pattern@),
    {
        self.compressor.register_template(template_id, pattern);
    }

    /// The templates of this client.
    pub fn list_templates(&self) -> (all: HashMap<u32, String>)
        ensures
            all@.dom() == self.templates().dom(),
            forall|id: u32|
                self.templates().contains_key(id) ==> (#[trigger] all@[id])@
                    == self.templates()[id],
    {
        self.compressor.list_templates()
    }
}

/// The server's face of the compressor.
pub struct ServerSDK {
    compressor: Compressor,
}

impl ServerSDK {
    /// The templates of this server, from id to pattern.
    pub closed spec fn templates(&self) -> Map<u32, Seq<char>> {
        self.compressor.templates()
    }

    /// A server with the built-in templates and, over them, those of the
    /// template store.
    pub fn new(
        enable_aura: bool,
        template_store: Option<String>,
        enable_audit_logging: bool,
        session_id: Option<String>,
        user_id: Option<String>,
    ) -> (server: ServerSDK)
        ensures
            server.templates() == initial_templates(text_view(template_store)),
    {
        ServerSDK {
            compressor: Compressor::new(
                enable_aura,
                template_store,
                enable_audit_logging,
                session_id,
                user_id,
            ),
        }
    }

    /// Compresses a text. See [`Compressor::compress`].
    pub fn compress(&self, text: &str, template_id: Option<u32>, slots: Option<Vec<String>>) -> (r:
        Result<(Vec<u8>, CompressionMethod, CompressionMetadata), AuraError>)
        ensures
            r matches Ok((payload, method, metadata)) && {
                let outcome = compressed(self.templates(), text@, template_id, slot_views(slots));
                &&& payload@ == outcome.0
                &&& method == outcome.1
                &&& describes(metadata, text@, payload@, method, outcome.2)
            },
    {
        self.compressor.compress(text, template_id, slots)
    }

    /// Decompresses a payload. See [`Compressor::decompress`].
    pub fn decompress(&self, payload: &[u8]) -> (r: Result<String, AuraError>)
        ensures
            match r {
                Ok(text) => decompressed(self.templates(), payload@) == Ok::<Seq<char>, ErrorView>(
                    text@,
                ),
                Err(e) => decompressed(self.templates(), payload@) == Err::<Seq<char>, ErrorView>(
                    e@,
                ),
            },
    {
        self.compressor.decompress(payload)
    }

    /// What is known of a payload without decompressing it: so far nothing,
    /// whatever the payload.
    pub fn extract_metadata(&self, payload: &[u8]) -> (metadata: DecompressionMetadata)
        ensures
            metadata.method@ == "unknown"@,
            metadata.template_ids@.len() == 0,
    {
        DecompressionMetadata { method: "unknown".to_owned(), template_ids: Vec::new() }
    }

    /// The intent of a payload: so far `general`, whatever the payload.
    pub fn classify_intent(&self, payload: &[u8]) -> (intent: String)
        ensures
            intent@ == "general"@,
    {
        "general".to_owned()
    }

    /// Whether a payload passes the fast screening: so far every payload
    /// does.
    pub fn screen_fast_path(&self, payload: &[u8]) -> (passes: bool)
        ensures
            passes,
    {
        true
    }
}

} // verus!
