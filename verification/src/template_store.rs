//! The template store: a JSON document that lists templates by id.
//!
//! The document is an object whose member `templates` is an object too. Each
//! member of that one is a template: its key is the id, and its value is an
//! object whose member `pattern` is the pattern. Members whose key is no id
//! or that have no pattern are passed over.

use crate::error::{AuraError, ErrorView};
use crate::template_library::TemplateLibrary;
use crate::text::{parse_u32, parsed_u32, to_chars};
use serde_json::Value;
use vstd::prelude::*;

verus! {

/// A JSON value.
#[derive(Debug)]
pub enum Json {
    Null,
    Bool(bool),
    /// A number, as it is written.
    Number(String),
    Text(String),
    Array(Vec<Json>),
    /// The members of an object, in the order in which the parser hands
    /// them out.
    Object(Vec<(String, Json)>),
}

/// A JSON value as plain values.
pub enum JsonView {
    Null,
    Bool(bool),
    Number(Seq<char>),
    Text(Seq<char>),
    Array(Seq<JsonView>),
    Object(Seq<(Seq<char>, JsonView)>),
}

/// The plain value of a JSON value.
pub open spec fn json_view(json: Json) -> JsonView
    decreases json,
{
    match json {
        Json::Null => JsonView::Null,
        Json::Bool(b) => JsonView::Bool(b),
        Json::Number(n) => JsonView::Number(n@),
        Json::Text(t) => JsonView::Text(t@),
        Json::Array(items) => JsonView::Array(
            Seq::new(
                items@.len(),
                |i: int|
                    if 0 <= i < items@.len() {
                        json_view(items@[i])
                    } else {
                        JsonView::Null
                    },
            ),
        ),
        Json::Object(members) => JsonView::Object(
            Seq::new(
                members@.len(),
                |i: int|
                    if 0 <= i < members@.len() {
                        (members@[i].0@, json_view(members@[i].1))
                    } else {
                        (Seq::empty(), JsonView::Null)
                    },
            ),
        ),
    }
}

impl View for Json {
    type V = JsonView;

    open spec fn view(&self) -> JsonView {
        json_view(*self)
    }
}

/// `serde_json::Value`: a parsed JSON value. Nothing of it is visible to
/// the verifier.
#[verifier::external_type_specification]
#[verifier::external_body]
pub struct ExValue(serde_json::Value);

/// What `serde_json::from_str` makes of a text; `None` where it rejects
/// the text. Trusted to depend on the text alone; nothing else is claimed
/// of it.
pub uninterp spec fn parsed_json(content: Seq<char>) -> Option<JsonView>;

/// Turns a `serde_json::Value` into the library's own value: variant by
/// variant, a number as `serde_json::Number` prints, the elements of an
/// array in order, the members of an object in the order in which
/// `serde_json::Map::iter` hands them out. It serves `parse_json` and
/// nothing else; nothing is claimed of it on its own.
#[verifier::external_body]
fn json_of(value: &Value) -> Json {
    match value {
        Value::Null => Json::Null,
        Value::Bool(b) => Json::Bool(*b),
        Value::Number(n) => Json::Number(n.to_string()),
        Value::String(s) => Json::Text(s.clone()),
        Value::Array(items) => Json::Array(items.iter().map(json_of).collect()),
        Value::Object(map) => Json::Object(
            map.iter().map(|(k, v)| (k.clone(), json_of(v))).collect(),
        ),
    }
}

/// `serde_json::from_str`, at the type `serde_json::Value`: parses a text
/// as JSON. Claimed is only that the outcome depends on the text alone:
/// the value, or that there is none.
#[verifier::external_body]
fn parse_json(content: &str) -> (r: Result<Json, serde_json::Error>)
    ensures
        match r {
            Ok(json) => parsed_json(content@) == Some(json@),
            Err(_) => parsed_json(content@) is None,
        },
{
    match serde_json::from_str::<Value>(content) {
        Ok(value) => Ok(json_of(&value)),
        Err(e) => Err(e),
    }
}

/// The first member of a list of members that has the given key.
pub open spec fn first_member(members: Seq<(Seq<char>, JsonView)>, key: Seq<char>) -> Option<
    JsonView,
>
    decreases members.len(),
{
    if members.len() == 0 {
        None
    } else if members.first().0 == key {
        Some(members.first().1)
    } else {
        first_member(members.drop_first(), key)
    }
}

/// The member of an object under a key; `None` for a value that is no
/// object or has no such member.
pub open spec fn member(json: JsonView, key: Seq<char>) -> Option<JsonView> {
    match json {
        JsonView::Object(members) => first_member(members, key),
        _ => None,
    }
}

/// The members of the store's `templates` object; none where the document
/// has no such member or it is no object.
pub open spec fn store_members(store: JsonView) -> Seq<(Seq<char>, JsonView)> {
    match member(store, "templates"@) {
        Some(JsonView::Object(members)) => members,
        _ => Seq::empty(),
    }
}

/// The pattern of a template of the store: its member `pattern`, where that
/// is a text.
pub open spec fn pattern_of(template: JsonView) -> Option<Seq<char>> {
    match member(template, "pattern"@) {
        Some(JsonView::Text(pattern)) => Some(pattern),
        _ => None,
    }
}

/// The library after the members were registered one after the other. A
/// member counts where its key reads as a `u32` and it has a pattern.
pub open spec fn registered(
    library: Map<u32, Seq<char>>,
    members: Seq<(Seq<char>, JsonView)>,
) -> Map<u32, Seq<char>>
    decreases members.len(),
{
    if members.len() == 0 {
        library
    } else {
        let before = registered(library, members.drop_last());
        match (parsed_u32(members.last().0), pattern_of(members.last().1)) {
            (Some(id), Some(pattern)) => before.insert(id, pattern),
            _ => before,
        }
    }
}

/// The library after a store was loaded.
pub open spec fn loaded(library: Map<u32, Seq<char>>, store: JsonView) -> Map<u32, Seq<char>> {
    registered(library, store_members(store))
}

/// The views of a list of members.
pub open spec fn member_views(members: Seq<(String, Json)>) -> Seq<(Seq<char>, JsonView)> {
    Seq::new(
        members.len(),
        |i: int|
            if 0 <= i < members.len() {
                (members[i].0@, members[i].1@)
            } else {
                (Seq::empty(), JsonView::Null)
            },
    )
}

/// The view of an object is the views of its members.
proof fn lemma_object_view(json: &Json, members: Vec<(String, Json)>)
    requires
        *json == Json::Object(members),
    ensures
        json@ == JsonView::Object(member_views(members@)),
{
    reveal_with_fuel(json_view, 2);
    let listed = match json@ {
        JsonView::Object(listed) => listed,
        _ => Seq::empty(),
    };
    assert(json@ is Object);
    assert(listed.len() == members@.len());
    assert(listed =~= member_views(members@));
}

/// The member of an object under a key.
pub fn get_member<'a>(json: &'a Json, key: &str) -> (found: Option<&'a Json>)
    ensures
        match found {
            Some(value) => member(json@, key@) == Some(value@),
            None => member(json@, key@) is None,
        },
{
    match json {
        Json::Object(members) => {
            let wanted = key.to_owned();
            let ghost all = member_views(members@);
            let mut i: usize = 0;
            proof {
                lemma_object_view(json, *members);
                assert(all.skip(0) =~= all);
            }
            while i < members.len()
                invariant
                    i <= members@.len(),
                    wanted@ == key@,
                    all == member_views(members@),
                    json@ == JsonView::Object(all),
                    first_member(all, key@) == first_member(all.skip(i as int), key@),
                decreases members@.len() - i,
            {
                proof {
                    assert(all.skip(i as int).first() == all[i as int]);
                    assert(all.skip(i as int).drop_first() =~= all.skip(i + 1));
                    assert(all[i as int] == (members@[i as int].0@, members@[i as int].1@));
                }
                if members[i].0 == wanted {
                    return Some(&members[i].1);
                }
                i = i + 1;
            }
            proof {
                assert(all.skip(i as int) =~= Seq::<(Seq<char>, JsonView)>::empty());
            }
            None
        },
        _ => None,
    }
}

impl TemplateLibrary {
    /// Registers the templates of a store.
    pub fn load_store(&mut self, store: &Json)
        ensures
            final(self)@ == loaded(old(self)@, store@),
    {
        let members = match get_member(store, "templates") {
            Some(Json::Object(members)) => {
                proof {
                    lemma_object_view(&Json::Object(*members), *members);
                }
                members
            },
            _ => {
                return ;
            },
        };
        let ghost all = member_views(members@);
        let mut i: usize = 0;
        proof {
            assert(store_members(store@) == all);
            assert(all.take(0) =~= Seq::<(Seq<char>, JsonView)>::empty());
        }
        while i < members.len()
            invariant
                i <= members@.len(),
                all == member_views(members@),
                self@ == registered(old(self)@, all.take(i as int)),
            decreases members@.len() - i,
        {
            proof {
                assert(all.take(i + 1).drop_last() =~= all.take(i as int));
                assert(all.take(i + 1).last() == all[i as int]);
            }
            let key = to_chars(members[i].0.as_str());
            let id = parse_u32(key.as_slice());
            let pattern = match get_member(&members[i].1, "pattern") {
                Some(Json::Text(pattern)) => Some(pattern),
                _ => None,
            };
            if let Some(id) = id {
                if let Some(pattern) = pattern {
                    self.register(id, pattern.clone());
                }
            }
            i = i + 1;
        }
        proof {
            assert(all.take(i as int) =~= all);
        }
    }

    /// Parses `content` as a template store and registers its templates.
    /// Fails, and changes nothing, where the content is no JSON document.
    pub fn load_from_json(&mut self, content: &str) -> (r: Result<(), AuraError>)
        ensures
            match r {
                Ok(()) => parsed_json(content@) matches Some(store) && final(self)@ == loaded(
                    old(self)@,
                    store,
                ),
                Err(e) => parsed_json(content@) is None && e@ == ErrorView::Json && final(self)@
                    == old(self)@,
            },
    {
        match parse_json(content) {
            Ok(store) => {
                self.load_store(&store);
                Ok(())
            },
            Err(e) => Err(AuraError::Json(e)),
        }
    }
}

} // verus!
