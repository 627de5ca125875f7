//! The template library: a registry from template id to pattern, slot
//! substitution, and matching of a text against the registered patterns.
//!
//! A pattern is a text with placeholders `{0}`, `{1}`, ... . Templates are
//! kept in ascending order of id, so that matching is reproducible: among
//! the templates that match a text, the one with the lowest id wins.

use crate::error::{AuraError, ErrorView};
use crate::text::{decimal, find, find_from, lemma_find_from_is_first, push_chars, push_decimal, replace, replace_all, split_on, string_views, to_chars, to_text, views};
use std::collections::HashMap;
use vstd::prelude::*;

verus! {

/// A registered template.
#[derive(Debug)]
pub struct Template {
    pub id: u32,
    pub pattern: String,
}

/// The placeholder of slot `i`: `{`, the decimal digits of `i`, `}`.
pub open spec fn placeholder(i: nat) -> Seq<char> {
    seq!['{'] + decimal(i) + seq!['}']
}

/// `pattern` with the placeholder of each slot replaced by the slot's text,
/// one slot after the other in increasing order. A later replacement also
/// sees what earlier ones put in. A placeholder that does not occur changes
/// nothing.
pub open spec fn fill(pattern: Seq<char>, slots: Seq<Seq<char>>) -> Seq<char>
    decreases slots.len(),
{
    if slots.len() == 0 {
        pattern
    } else {
        replace_all(
            fill(pattern, slots.drop_last()),
            placeholder((slots.len() - 1) as nat),
            slots.last(),
        )
    }
}

/// Whether a character opens or closes a placeholder.
pub open spec fn is_brace(c: char) -> bool {
    c == '{' || c == '}'
}

/// The parts of a pattern between braces. In a pattern whose braces only
/// enclose placeholders, the parts at even positions are the literal texts
/// and those at odd positions the placeholder numbers.
pub open spec fn pattern_parts(pattern: Seq<char>) -> Seq<Seq<char>> {
    split_on(pattern, |c: char| is_brace(c))
}

/// The slot extraction, from part `i` on: `cursor` is where the search in
/// `text` goes on, `slots` what has been captured so far.
///
/// Empty parts and parts at odd positions are passed over. Each other part
/// is searched in the text from the cursor on. Where it is not found, the
/// extraction fails. Where it is found, the text between the cursor and the
/// place found becomes a slot, an empty text too, unless the part is the
/// pattern's first; the cursor moves behind the part.
pub open spec fn extract_from(
    text: Seq<char>,
    parts: Seq<Seq<char>>,
    i: int,
    cursor: int,
    slots: Seq<Seq<char>>,
) -> Option<Seq<Seq<char>>>
    decreases parts.len() - i,
{
    if i < 0 || i >= parts.len() {
        Some(slots)
    } else if parts[i].len() == 0 || i % 2 == 1 {
        extract_from(text, parts, i + 1, cursor, slots)
    } else {
        match find_from(text, parts[i], cursor) {
            None => None,
            Some(pos) => extract_from(
                text,
                parts,
                i + 1,
                pos + parts[i].len(),
                if i > 0 {
                    slots.push(text.subrange(cursor, pos))
                } else {
                    slots
                },
            ),
        }
    }
}

/// The slots that `pattern` captures in `text`, or `None` where the pattern
/// does not match. The matcher is greedy and does not backtrack; text behind
/// the last literal part is not examined.
pub open spec fn extract(text: Seq<char>, pattern: Seq<char>) -> Option<Seq<Seq<char>>> {
    extract_from(text, pattern_parts(pattern), 0, 0, Seq::empty())
}

/// Whether the template registered under `id` matches `text`.
pub open spec fn matches(library: Map<u32, Seq<char>>, text: Seq<char>, id: u32) -> bool {
    library.contains_key(id) && extract(text, library[id]) is Some
}

/// Whether `id` is the lowest id whose template matches `text`.
pub open spec fn is_first_match(library: Map<u32, Seq<char>>, text: Seq<char>, id: u32) -> bool {
    matches(library, text, id) && forall|lower: u32| lower < id ==> !matches(library, text, lower)
}

/// The lowest id whose template matches `text`, or `None` where no template
/// matches.
pub open spec fn first_match(library: Map<u32, Seq<char>>, text: Seq<char>) -> Option<u32> {
    if exists|id: u32| is_first_match(library, text, id) {
        Some(choose|id: u32| is_first_match(library, text, id))
    } else {
        None
    }
}

/// `first_match` is the lowest matching id, and `None` exactly when no
/// template matches.
pub proof fn lemma_first_match(library: Map<u32, Seq<char>>, text: Seq<char>)
    ensures
        first_match(library, text) matches Some(id) ==> is_first_match(library, text, id),
        first_match(library, text) is None ==> forall|id: u32| !matches(library, text, id),
        forall|id: u32| is_first_match(library, text, id) ==> first_match(library, text) == Some(id),
{
    if first_match(library, text) is None {
        assert forall|id: u32| !matches(library, text, id) by {
            if matches(library, text, id) {
                lemma_lowest_match_exists(library, text, id);
            }
        }
    }
    assert forall|id: u32| is_first_match(library, text, id) implies first_match(library, text)
        == Some(id) by {
        let chosen = choose|c: u32| is_first_match(library, text, c);
        assert(is_first_match(library, text, chosen));
        if chosen < id {
            assert(!matches(library, text, chosen));
        } else if id < chosen {
            assert(!matches(library, text, id));
        }
    }
}

proof fn lemma_lowest_match_exists(library: Map<u32, Seq<char>>, text: Seq<char>, id: u32)
    requires
        matches(library, text, id),
    ensures
        exists|first: u32| is_first_match(library, text, first),
    decreases id,
{
    if exists|lower: u32| lower < id && matches(library, text, lower) {
        let lower = choose|lower: u32| lower < id && matches(library, text, lower);
        lemma_lowest_match_exists(library, text, lower);
    } else {
        assert(is_first_match(library, text, id));
    }
}

/// Splits a pattern at its braces.
pub fn split_pattern(pattern: &[char]) -> (parts: Vec<Vec<char>>)
    ensures
        views(parts@) == pattern_parts(pattern@),
{
    let ghost is_delimiter = |c: char| is_brace(c);
    let mut parts: Vec<Vec<char>> = Vec::new();
    let mut current: Vec<char> = Vec::new();
    let mut i: usize = 0;
    while i < pattern.len()
        invariant
            i <= pattern.len(),
            is_delimiter == (|c: char| is_brace(c)),
            views(parts@).push(current@) == split_on(pattern@.take(i as int), is_delimiter),
        decreases pattern.len() - i,
    {
        let c = pattern[i];
        proof {
            assert(pattern@.take(i + 1).drop_last() =~= pattern@.take(i as int));
            assert(pattern@.take(i + 1).last() == c);
        }
        if c == '{' || c == '}' {
            let ghost before = views(parts@).push(current@);
            parts.push(current);
            current = Vec::new();
            proof {
                assert(views(parts@) =~= before);
                assert(is_delimiter(c));
            }
        } else {
            let ghost before = views(parts@).push(current@);
            current.push(c);
            proof {
                assert(!is_delimiter(c));
                assert(views(parts@).push(current@) =~= before.update(
                    before.len() - 1,
                    before.last().push(c),
                ));
            }
        }
        i = i + 1;
    }
    proof {
        assert(pattern@.take(i as int) =~= pattern@);
    }
    parts.push(current);
    proof {
        assert(views(parts@) =~= views(parts@.drop_last()).push(current@));
    }
    parts
}

/// The sub-sequence of `text` from `from` to `to`, as a string.
fn slice_text(text: &[char], from: usize, to: usize) -> (s: String)
    requires
        from <= to <= text.len(),
    ensures
        s@ == text@.subrange(from as int, to as int),
{
    let mut out: Vec<char> = Vec::new();
    let mut k: usize = from;
    while k < to
        invariant
            from <= k <= to <= text.len(),
            out@ == text@.subrange(from as int, k as int),
        decreases to - k,
    {
        proof {
            assert(text@.subrange(from as int, k + 1) =~= text@.subrange(from as int, k as int).push(
                text@[k as int],
            ));
        }
        out.push(text[k]);
        k = k + 1;
    }
    to_text(out.as_slice())
}

/// Extracts the slots that `pattern` captures in `text`.
pub fn extract_slots_chars(text: &[char], pattern: &[char]) -> (r: Option<Vec<String>>)
    ensures
        r is Some <==> extract(text@, pattern@) is Some,
        r matches Some(slots) ==> extract(text@, pattern@) == Some(string_views(slots@)),
{
    let parts = split_pattern(pattern);
    let mut slots: Vec<String> = Vec::new();
    let mut cursor: usize = 0;
    let mut i: usize = 0;
    proof {
        assert(string_views(slots@) =~= Seq::<Seq<char>>::empty());
    }
    while i < parts.len()
        invariant
            i <= parts.len(),
            cursor <= text.len(),
            views(parts@) == pattern_parts(pattern@),
            extract(text@, pattern@) == extract_from(
                text@,
                views(parts@),
                i as int,
                cursor as int,
                string_views(slots@),
            ),
        decreases parts.len() - i,
    {
        let part = &parts[i];
        proof {
            assert(views(parts@)[i as int] == part@);
        }
        if part.len() != 0 && i % 2 == 0 {
            match find(text, part.as_slice(), cursor) {
                None => {
                    return None;
                },
                Some(pos) => {
                    proof {
                        lemma_find_from_is_first(text@, part@, cursor as int);
                    }
                    if i > 0 {
                        let ghost before = string_views(slots@);
                        let slot = slice_text(text, cursor, pos);
                        slots.push(slot);
                        proof {
                            assert(string_views(slots@) =~= before.push(
                                text@.subrange(cursor as int, pos as int),
                            ));
                        }
                    }
                    cursor = pos + part.len();
                },
            }
        }
        i = i + 1;
    }
    Some(slots)
}

/// Appends the placeholder of slot `i` to `out`.
fn push_placeholder(out: &mut Vec<char>, i: usize)
    ensures
        final(out)@ == old(out)@ + placeholder(i as nat),
{
    out.push('{');
    push_decimal(out, i as u64);
    out.push('}');
    proof {
        assert(out@ =~= old(out)@ + placeholder(i as nat));
    }
}

/// Fills the slots into a pattern.
pub fn fill_pattern(pattern: &[char], slots: &[String]) -> (out: Vec<char>)
    ensures
        out@ == fill(pattern@, string_views(slots@)),
{
    let mut out: Vec<char> = Vec::new();
    push_chars(&mut out, pattern);
    let mut i: usize = 0;
    while i < slots.len()
        invariant
            i <= slots.len(),
            out@ == fill(pattern@, string_views(slots@).take(i as int)),
        decreases slots.len() - i,
    {
        let mut token: Vec<char> = Vec::new();
        push_placeholder(&mut token, i);
        let slot = to_chars(slots[i].as_str());
        proof {
            let all = string_views(slots@);
            assert(all.take(i + 1).drop_last() =~= all.take(i as int));
            assert(all.take(i + 1).last() == slots@[i as int]@);
            assert(token@ =~= placeholder(i as nat));
        }
        out = replace(out.as_slice(), token.as_slice(), slot.as_slice());
        i = i + 1;
    }
    proof {
        assert(string_views(slots@).take(i as int) =~= string_views(slots@));
    }
    out
}

/// Whether the ids of a list of templates go up strictly.
pub open spec fn ascending(ts: Seq<Template>) -> bool {
    forall|i: int, j: int| 0 <= i < j < ts.len() ==> ts[i].id < ts[j].id
}

/// Whether some template of the list has the given id.
pub open spec fn has_id(ts: Seq<Template>, id: u32) -> bool {
    exists|i: int| 0 <= i < ts.len() && (#[trigger] ts[i]).id == id
}

/// The position of a template with the given id.
pub open spec fn index_of(ts: Seq<Template>, id: u32) -> int {
    choose|i: int| 0 <= i < ts.len() && (#[trigger] ts[i]).id == id
}

/// The mapping from id to pattern that a list of templates stands for.
pub open spec fn mapping(ts: Seq<Template>) -> Map<u32, Seq<char>> {
    Map::new(|id: u32| has_id(ts, id), |id: u32| ts[index_of(ts, id)].pattern@)
}

proof fn lemma_mapping_at(ts: Seq<Template>, i: int)
    requires
        ascending(ts),
        0 <= i < ts.len(),
    ensures
        mapping(ts).contains_key(ts[i].id),
        mapping(ts)[ts[i].id] == ts[i].pattern@,
        index_of(ts, ts[i].id) == i,
{
    let id = ts[i].id;
    assert(has_id(ts, id));
    let k = index_of(ts, id);
    assert(0 <= k < ts.len() && ts[k].id == id);
    if k < i {
        assert(ts[k].id < ts[i].id);
    } else if i < k {
        assert(ts[i].id < ts[k].id);
    }
}

proof fn lemma_mapping_insert(ts: Seq<Template>, at: int, t: Template)
    requires
        ascending(ts),
        0 <= at <= ts.len(),
        forall|i: int| 0 <= i < at ==> (#[trigger] ts[i]).id < t.id,
        forall|i: int| at <= i < ts.len() ==> t.id < (#[trigger] ts[i]).id,
    ensures
        ascending(ts.insert(at, t)),
        mapping(ts.insert(at, t)) == mapping(ts).insert(t.id, t.pattern@),
{
    let new = ts.insert(at, t);
    assert(ascending(new)) by {
        assert forall|i: int, j: int| 0 <= i < j < new.len() implies new[i].id < new[j].id by {
            let oi = if i < at { i } else { i - 1 };
            let oj = if j < at { j } else { j - 1 };
            if i != at && j != at {
                assert(new[i] == ts[oi] && new[j] == ts[oj]);
            }
        }
    }
    let left = mapping(new);
    let right = mapping(ts).insert(t.id, t.pattern@);
    assert forall|id: u32| left.contains_key(id) <==> right.contains_key(id) by {
        if has_id(new, id) {
            let k = index_of(new, id);
            if k != at {
                let ok = if k < at { k } else { k - 1 };
                assert(ts[ok].id == id);
            }
        }
        if has_id(ts, id) {
            let k = index_of(ts, id);
            let nk = if k < at { k } else { k + 1 };
            assert(new[nk].id == id);
        }
        if id == t.id {
            assert(new[at].id == id);
        }
    }
    assert forall|id: u32| left.contains_key(id) implies left[id] == right[id] by {
        let k = index_of(new, id);
        lemma_mapping_at(new, k);
        if k != at {
            let ok = if k < at { k } else { k - 1 };
            assert(new[k] == ts[ok]);
            lemma_mapping_at(ts, ok);
        }
    }
    assert(left =~= right);
}

proof fn lemma_mapping_update(ts: Seq<Template>, at: int, t: Template)
    requires
        ascending(ts),
        0 <= at < ts.len(),
        ts[at].id == t.id,
    ensures
        ascending(ts.update(at, t)),
        mapping(ts.update(at, t)) == mapping(ts).insert(t.id, t.pattern@),
{
    let new = ts.update(at, t);
    assert(ascending(new)) by {
        assert forall|i: int, j: int| 0 <= i < j < new.len() implies new[i].id < new[j].id by {
            assert(new[i].id == ts[i].id && new[j].id == ts[j].id);
        }
    }
    let left = mapping(new);
    let right = mapping(ts).insert(t.id, t.pattern@);
    assert forall|id: u32| left.contains_key(id) <==> right.contains_key(id) by {
        if has_id(new, id) {
            let k = index_of(new, id);
            assert(ts[k].id == id);
        }
        if has_id(ts, id) {
            let k = index_of(ts, id);
            assert(new[k].id == id);
        }
        if id == t.id {
            assert(new[at].id == id);
        }
    }
    assert forall|id: u32| left.contains_key(id) implies left[id] == right[id] by {
        let k = index_of(new, id);
        lemma_mapping_at(new, k);
        if k != at {
            assert(new[k] == ts[k]);
            lemma_mapping_at(ts, k);
        }
    }
    assert(left =~= right);
}

/// A registry of templates, from id to pattern.
pub struct TemplateLibrary {
    templates: Vec<Template>,
}

impl View for TemplateLibrary {
    type V = Map<u32, Seq<char>>;

    /// The registry as a mapping from id to pattern.
    closed spec fn view(&self) -> Map<u32, Seq<char>> {
        mapping(self.templates@)
    }
}

impl TemplateLibrary {
    #[verifier::type_invariant]
    spec fn ordered(&self) -> bool {
        ascending(self.templates@)
    }

    /// An empty registry, without the built-in templates.
    pub fn empty() -> (library: TemplateLibrary)
        ensures
            library@ == Map::<u32, Seq<char>>::empty(),
    {
        let library = TemplateLibrary { templates: Vec::new() };
        proof {
            assert(mapping(library.templates@) =~= Map::<u32, Seq<char>>::empty());
        }
        library
    }

    /// The position of the first template whose id is not below `id`, and
    /// whether that template has the id.
    fn locate(&self, id: u32) -> (r: (usize, bool))
        ensures
            r.0 <= self.templates@.len(),
            forall|i: int| 0 <= i < r.0 ==> (#[trigger] self.templates@[i]).id < id,
            forall|i: int| r.0 <= i < self.templates@.len() ==> id <= (#[trigger] self.templates@[i]).id,
            r.1 <==> (r.0 < self.templates@.len() && self.templates@[r.0 as int].id == id),
            r.1 <==> self@.contains_key(id),
    {
        proof {
            use_type_invariant(self);
        }
        let mut low: usize = 0;
        let mut high: usize = self.templates.len();
        while low < high
            invariant
                low <= high <= self.templates@.len(),
                ascending(self.templates@),
                forall|i: int| 0 <= i < low ==> (#[trigger] self.templates@[i]).id < id,
                forall|i: int| high <= i < self.templates@.len() ==> id <= (
                #[trigger] self.templates@[i]).id,
            decreases high - low,
        {
            let mid: usize = low + (high - low) / 2;
            if self.templates[mid].id < id {
                low = mid + 1;
            } else {
                high = mid;
            }
        }
        let found = low < self.templates.len() && self.templates[low].id == id;
        proof {
            if found {
                lemma_mapping_at(self.templates@, low as int);
            } else if has_id(self.templates@, id) {
                let k = index_of(self.templates@, id);
                assert(self.templates@[k].id == id);
                if k > low {
                    assert(self.templates@[low as int].id < self.templates@[k].id);
                }
            }
        }
        (low, found)
    }

    /// Whether a template is registered under `id`.
    pub fn contains(&self, template_id: u32) -> (b: bool)
        ensures
            b == self@.contains_key(template_id),
    {
        self.locate(template_id).1
    }

    /// The number of registered templates.
    pub fn len(&self) -> (n: usize)
        ensures
            n == self@.len(),
            self@.dom().finite(),
    {
        proof {
            use_type_invariant(self);
            lemma_mapping_len(self.templates@);
        }
        self.templates.len()
    }

    /// Registers `pattern` under `template_id`. A template that was
    /// registered under this id before is replaced. The pattern is not
    /// examined.
    pub fn register(&mut self, template_id: u32, pattern: String)
        ensures
            final(self)@ == old(self)@.insert(template_id, pattern@),
    {
        proof {
            use_type_invariant(&*self);
        }
        let (at, found) = self.locate(template_id);
        let template = Template { id: template_id, pattern };
        let mut templates: Vec<Template> = Vec::new();
        std::mem::swap(&mut self.templates, &mut templates);
        proof {
            if found {
                lemma_mapping_update(templates@, at as int, template);
            } else {
                lemma_mapping_insert(templates@, at as int, template);
            }
        }
        if found {
            templates.set(at, template);
        } else {
            templates.insert(at, template);
        }
        std::mem::swap(&mut self.templates, &mut templates);
    }

    /// A registry that holds the built-in templates.
    pub fn new() -> (library: TemplateLibrary)
        ensures
            library@ == core_templates(),
    {
        let mut library = TemplateLibrary::empty();
        library.load_core_templates();
        proof {
            assert(library@ =~= core_templates());
        }
        library
    }

    /// Registers the built-in templates, ids 0 to 19. Templates that were
    /// registered under these ids before are replaced; others stay.
    pub fn load_core_templates(&mut self)
        ensures
            final(self)@ == old(self)@.union_prefer_right(core_templates()),
    {
        self.register(0, "I don't have access to {0}. {1}".to_owned());
        self.register(1, "I cannot {0}.".to_owned());
        self.register(2, "I'm unable to {0} because {1}.".to_owned());
        self.register(3, "I don't have the ability to {0}.".to_owned());
        self.register(4, "I'm not able to {0}.".to_owned());
        self.register(5, "I cannot {0} as I {1}.".to_owned());
        self.register(6, "I'm sorry, but I cannot {0}.".to_owned());
        self.register(7, "I don't have {0}.".to_owned());
        self.register(8, "Unfortunately, I cannot {0}.".to_owned());
        self.register(9, "I'm unable to {0}.".to_owned());
        self.register(10, "The {0} of {1} is {2}.".to_owned());
        self.register(11, "{0} is {1}.".to_owned());
        self.register(12, "The capital of {0} is {1}.".to_owned());
        self.register(13, "{0} was born in {1}.".to_owned());
        self.register(14, "The population of {0} is approximately {1}.".to_owned());
        self.register(15, "{0} is located in {1}.".to_owned());
        self.register(16, "The year {0} was {1}.".to_owned());
        self.register(17, "{0} occurred in {1}.".to_owned());
        self.register(18, "The distance from {0} to {1} is {2}.".to_owned());
        self.register(19, "{0} is known for {1}.".to_owned());
        proof {
            assert(self@ =~= old(self)@.union_prefer_right(core_templates()));
        }
    }

    /// The pattern registered under `template_id`, with the slots filled in.
    /// Fails exactly when no template is registered under the id.
    pub fn format_template(&self, template_id: u32, slots: &[String]) -> (r: Result<
        String,
        AuraError,
    >)
        ensures
            match r {
                Ok(text) => self@.contains_key(template_id) && text@ == fill(
                    self@[template_id],
                    string_views(slots@),
                ),
                Err(e) => !self@.contains_key(template_id) && e@ == ErrorView::TemplateNotFound(
                    template_id,
                ),
            },
    {
        proof {
            use_type_invariant(self);
        }
        let (at, found) = self.locate(template_id);
        if !found {
            return Err(AuraError::TemplateNotFound(template_id));
        }
        proof {
            lemma_mapping_at(self.templates@, at as int);
        }
        let pattern = to_chars(self.templates[at].pattern.as_str());
        let filled = fill_pattern(pattern.as_slice(), slots);
        Ok(to_text(filled.as_slice()))
    }

    /// Matches `text` against the registered patterns, in ascending order of
    /// id, and returns the first template that matches with the slots it
    /// captures; `None` when no template matches.
    pub fn match_template(&self, text: &str) -> (r: Option<(u32, Vec<String>)>)
        ensures
            match r {
                Some((id, slots)) => first_match(self@, text@) == Some(id) && extract(
                    text@,
                    self@[id],
                ) == Some(string_views(slots@)),
                None => first_match(self@, text@) is None,
            },
    {
        proof {
            use_type_invariant(self);
        }
        let chars = to_chars(text);
        let mut i: usize = 0;
        while i < self.templates.len()
            invariant
                i <= self.templates@.len(),
                chars@ == text@,
                ascending(self.templates@),
                forall|k: int|
                    0 <= k < i ==> extract(text@, (#[trigger] self.templates@[k]).pattern@) is None,
            decreases self.templates@.len() - i,
        {
            let template = &self.templates[i];
            let pattern = to_chars(template.pattern.as_str());
            match extract_slots_chars(chars.as_slice(), pattern.as_slice()) {
                Some(slots) => {
                    proof {
                        lemma_mapping_at(self.templates@, i as int);
                        assert forall|lower: u32|
                            lower < template.id && self@.contains_key(lower) implies extract(
                            text@,
                            self@[lower],
                        ) is None by {
                            let k = index_of(self.templates@, lower);
                            lemma_mapping_at(self.templates@, k);
                            if k >= i {
                                assert(k == i || self.templates@[i as int].id
                                    < self.templates@[k].id);
                            }
                        }
                        assert(is_first_match(self@, text@, template.id));
                        lemma_first_match(self@, text@);
                    }
                    return Some((template.id, slots));
                },
                None => {},
            }
            i = i + 1;
        }
        proof {
            assert forall|id: u32| self@.contains_key(id) implies extract(text@, self@[id])
                is None by {
                let k = index_of(self.templates@, id);
                lemma_mapping_at(self.templates@, k);
            }
            lemma_first_match(self@, text@);
        }
        None
    }

    /// The slots that `pattern` captures in `text`, or `None` where the
    /// pattern does not match.
    pub fn extract_slots(&self, text: &str, pattern: &str) -> (r: Option<Vec<String>>)
        ensures
            r is Some <==> extract(text@, pattern@) is Some,
            r matches Some(slots) ==> extract(text@, pattern@) == Some(string_views(slots@)),
    {
        let text_chars = to_chars(text);
        let pattern_chars = to_chars(pattern);
        extract_slots_chars(text_chars.as_slice(), pattern_chars.as_slice())
    }

    /// The registered templates as a map from id to pattern.
    pub fn list(&self) -> (all: HashMap<u32, String>)
        ensures
            all@.dom() == self@.dom(),
            forall|id: u32| self@.contains_key(id) ==> (#[trigger] all@[id])@ == self@[id],
    {
        broadcast use vstd::std_specs::hash::group_hash_axioms;

        proof {
            use_type_invariant(self);
        }
        let mut all: HashMap<u32, String> = HashMap::new();
        let mut i: usize = 0;
        while i < self.templates.len()
            invariant
                i <= self.templates@.len(),
                ascending(self.templates@),
                forall|id: u32|
                    all@.contains_key(id) <==> exists|k: int|
                        0 <= k < i && (#[trigger] self.templates@[k]).id == id,
                forall|k: int|
                    0 <= k < i ==> all@[(#[trigger] self.templates@[k]).id]@
                        == self.templates@[k].pattern@,
            decreases self.templates@.len() - i,
        {
            let template = &self.templates[i];
            let ghost before = all@;
            all.insert(template.id, template.pattern.clone());
            proof {
                assert forall|k: int| 0 <= k < i + 1 implies all@[(
                #[trigger] self.templates@[k]).id]@ == self.templates@[k].pattern@ by {
                    if k < i {
                        assert(self.templates@[k].id < self.templates@[i as int].id);
                        assert(before.contains_key(self.templates@[k].id));
                    }
                }
                assert forall|id: u32|
                    all@.contains_key(id) <==> exists|k: int|
                        0 <= k < i + 1 && (#[trigger] self.templates@[k]).id == id by {
                    if before.contains_key(id) {
                        let k = choose|k: int|
                            0 <= k < i && (#[trigger] self.templates@[k]).id == id;
                        assert(0 <= k < i + 1 && self.templates@[k].id == id);
                    }
                    if id == template.id {
                        assert(self.templates@[i as int].id == id);
                    }
                }
            }
            i = i + 1;
        }
        proof {
            assert(all@.dom() =~= self@.dom());
            assert forall|id: u32| self@.contains_key(id) implies (#[trigger] all@[id])@
                == self@[id] by {
                let k = index_of(self.templates@, id);
                lemma_mapping_at(self.templates@, k);
            }
        }
        all
    }
}

/// The built-in templates: ids 0 to 9 are limitation responses, ids 10 to
/// 19 fact responses.
pub open spec fn core_templates() -> Map<u32, Seq<char>> {
    Map::<u32, Seq<char>>::empty()
        .insert(0, "I don't have access to {0}. {1}"@)
        .insert(1, "I cannot {0}."@)
        .insert(2, "I'm unable to {0} because {1}."@)
        .insert(3, "I don't have the ability to {0}."@)
        .insert(4, "I'm not able to {0}."@)
        .insert(5, "I cannot {0} as I {1}."@)
        .insert(6, "I'm sorry, but I cannot {0}."@)
        .insert(7, "I don't have {0}."@)
        .insert(8, "Unfortunately, I cannot {0}."@)
        .insert(9, "I'm unable to {0}."@)
        .insert(10, "The {0} of {1} is {2}."@)
        .insert(11, "{0} is {1}."@)
        .insert(12, "The capital of {0} is {1}."@)
        .insert(13, "{0} was born in {1}."@)
        .insert(14, "The population of {0} is approximately {1}."@)
        .insert(15, "{0} is located in {1}."@)
        .insert(16, "The year {0} was {1}."@)
        .insert(17, "{0} occurred in {1}."@)
        .insert(18, "The distance from {0} to {1} is {2}."@)
        .insert(19, "{0} is known for {1}."@)
}

/// A list with ascending ids stands for a mapping with as many keys.
proof fn lemma_mapping_len(ts: Seq<Template>)
    requires
        ascending(ts),
    ensures
        mapping(ts).dom().finite(),
        mapping(ts).len() == ts.len(),
    decreases ts.len(),
{
    if ts.len() == 0 {
        assert(mapping(ts).dom() =~= Set::<u32>::empty());
    } else {
        let init = ts.drop_last();
        let t = ts.last();
        assert(ascending(init)) by {
            assert forall|i: int, j: int| 0 <= i < j < init.len() implies init[i].id < init[j].id by {
                assert(init[i] == ts[i] && init[j] == ts[j]);
            }
        }
        lemma_mapping_len(init);
        assert forall|i: int| 0 <= i < init.len() implies (#[trigger] init[i]).id < t.id by {
            assert(init[i] == ts[i]);
        }
        lemma_mapping_insert(init, init.len() as int, t);
        assert(init.insert(init.len() as int, t) =~= ts);
        assert(!mapping(init).contains_key(t.id)) by {
            if has_id(init, t.id) {
                let k = index_of(init, t.id);
                assert(init[k].id < t.id);
            }
        }
        assert(mapping(ts).dom() =~= mapping(init).dom().insert(t.id));
    }
}

} // verus!
