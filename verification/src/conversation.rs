//! The conversation cache, which holds what a conversation has seen under
//! the signature of its metadata, and the accelerators that build on it.
//!
//! Times are whole nanoseconds. Rates and averages are exact fractions.

use crate::clock::Clock;
use crate::frequency::keys_of;
use crate::metadata::{compute_metadata_signature, signature_of, MetadataEntry};
use crate::ratio::Ratio;
use crate::text::{copy_text, text_view};
use std::collections::HashMap;
use vstd::prelude::*;
use vstd::slice::slice_to_vec;

verus! {

/// A cached message: what was stored under a signature, how often it was
/// found again, and when it was last used.
#[derive(Debug)]
pub struct CachedPattern {
    pub signature: u32,
    pub metadata: Vec<MetadataEntry>,
    pub compressed_payload: Vec<u8>,
    pub decompressed_text: Option<String>,
    pub hit_count: usize,
    /// Reading of the cache's clock at the last use, in nanoseconds.
    pub last_used: u128,
}

/// A cached message as plain values.
pub struct PatternView {
    pub signature: u32,
    pub metadata: Seq<MetadataEntry>,
    pub compressed_payload: Seq<u8>,
    pub decompressed_text: Option<Seq<char>>,
    pub hit_count: nat,
    pub last_used: nat,
}

impl View for CachedPattern {
    type V = PatternView;

    open spec fn view(&self) -> PatternView {
        PatternView {
            signature: self.signature,
            metadata: self.metadata@,
            compressed_payload: self.compressed_payload@,
            decompressed_text: text_view(self.decompressed_text),
            hit_count: self.hit_count as nat,
            last_used: self.last_used as nat,
        }
    }
}

/// A message as it is first stored: never found again yet, used at `now`.
pub open spec fn fresh_pattern(
    signature: u32,
    metadata: Seq<MetadataEntry>,
    compressed_payload: Seq<u8>,
    decompressed_text: Option<Seq<char>>,
    now: nat,
) -> PatternView {
    PatternView {
        signature,
        metadata,
        compressed_payload,
        decompressed_text,
        hit_count: 0,
        last_used: now,
    }
}

/// A message as it is first stored, under the signature of its metadata.
pub open spec fn stored_pattern(
    metadata: Seq<MetadataEntry>,
    compressed_payload: Seq<u8>,
    decompressed_text: Option<Seq<char>>,
    now: nat,
) -> PatternView {
    fresh_pattern(signature_of(metadata), metadata, compressed_payload, decompressed_text, now)
}

impl CachedPattern {
    /// A message as it is first stored, used at `now`.
    pub fn new(
        signature: u32,
        metadata: Vec<MetadataEntry>,
        compressed_payload: Vec<u8>,
        decompressed_text: Option<String>,
        now: u128,
    ) -> (pattern: CachedPattern)
        ensures
            pattern@ == fresh_pattern(
                signature,
                metadata@,
                compressed_payload@,
                text_view(decompressed_text),
                now as nat,
            ),
    {
        CachedPattern {
            signature,
            metadata,
            compressed_payload,
            decompressed_text,
            hit_count: 0,
            last_used: now,
        }
    }

    /// A copy of this message.
    pub fn snapshot(&self) -> (copy: CachedPattern)
        ensures
            copy@ == self@,
    {
        CachedPattern {
            signature: self.signature,
            metadata: slice_to_vec(self.metadata.as_slice()),
            compressed_payload: slice_to_vec(self.compressed_payload.as_slice()),
            decompressed_text: copy_text(&self.decompressed_text),
            hit_count: self.hit_count,
            last_used: self.last_used,
        }
    }
}

/// The state of a cache as plain values.
pub struct CacheView {
    /// The capacity that the cache was made with.
    pub max_size: nat,
    /// The cached messages, by signature.
    pub entries: Map<u32, PatternView>,
    /// Lookups that found their signature.
    pub hits: nat,
    /// Lookups that did not.
    pub misses: nat,
}

/// Whether the message under `a` goes before the message under `b` when a
/// message has to leave: the one used earlier goes first, and of two used at
/// the same time the one with the lower signature.
pub open spec fn leaves_before(entries: Map<u32, PatternView>, a: u32, b: u32) -> bool {
    entries[a].last_used < entries[b].last_used || (entries[a].last_used == entries[b].last_used
        && a <= b)
}

/// Whether `victim` is the message that leaves a full cache: the least
/// recently used one.
pub open spec fn is_least_recent(entries: Map<u32, PatternView>, victim: u32) -> bool {
    entries.contains_key(victim) && forall|other: u32|
        entries.contains_key(other) ==> leaves_before(entries, victim, other)
}

/// The signature of the least recently used message.
pub open spec fn least_recent(entries: Map<u32, PatternView>) -> u32 {
    choose|victim: u32| is_least_recent(entries, victim)
}

/// At most one message is the least recently used.
pub proof fn lemma_least_recent_unique(entries: Map<u32, PatternView>, victim: u32)
    requires
        is_least_recent(entries, victim),
    ensures
        least_recent(entries) == victim,
{
    let chosen = least_recent(entries);
    assert(is_least_recent(entries, chosen));
    assert(leaves_before(entries, victim, chosen));
    assert(leaves_before(entries, chosen, victim));
}

/// A message after it was found again at `now`.
pub open spec fn touched(pattern: PatternView, now: nat) -> PatternView {
    PatternView { hit_count: pattern.hit_count + 1, last_used: now, ..pattern }
}

impl CacheView {
    /// An empty cache of the given capacity.
    pub open spec fn empty(max_size: nat) -> CacheView {
        CacheView { max_size, entries: Map::empty(), hits: 0, misses: 0 }
    }

    /// The cache after a lookup of `signature` at `now`. A hit counts on
    /// the message and on the cache and refreshes the message's time; a miss
    /// counts on the cache.
    pub open spec fn after_lookup(self, signature: u32, now: nat) -> CacheView {
        if self.entries.contains_key(signature) {
            CacheView {
                entries: self.entries.insert(signature, touched(self.entries[signature], now)),
                hits: self.hits + 1,
                ..self
            }
        } else {
            CacheView { misses: self.misses + 1, ..self }
        }
    }

    /// Whether storing under `signature` makes a message leave: the cache
    /// is full, and holds no message under this signature.
    pub open spec fn evicts_for(self, signature: u32) -> bool {
        self.entries.len() >= self.max_size && !self.entries.contains_key(signature)
    }

    /// The cache after `pattern` was stored. Where that makes a message
    /// leave, the least recently used one leaves, and no other. A cache of
    /// capacity zero has no room for any message and stays as it is.
    pub open spec fn after_store(self, pattern: PatternView) -> CacheView {
        if self.max_size == 0 {
            self
        } else {
            let kept = if self.evicts_for(pattern.signature) {
                self.entries.remove(least_recent(self.entries))
            } else {
                self.entries
            };
            CacheView { entries: kept.insert(pattern.signature, pattern), ..self }
        }
    }

    /// The share of lookups that were hits; zero before the first lookup.
    pub open spec fn hit_rate(self) -> Ratio {
        if self.hits + self.misses > 0 {
            Ratio {
                numerator: self.hits as u128,
                denominator: (self.hits + self.misses) as u128,
            }
        } else {
            Ratio { numerator: 0, denominator: 1 }
        }
    }

    /// What a cache keeps true of itself: it holds no more messages than
    /// its capacity, every message stands under its own signature, no
    /// message was found more often than the cache counts hits, and the two
    /// counters of lookups are machine numbers.
    pub open spec fn well_formed(self) -> bool {
        &&& self.entries.dom().finite()
        &&& self.entries.len() <= self.max_size
        &&& self.hits <= usize::MAX
        &&& self.misses <= usize::MAX
        &&& forall|signature: u32|
            self.entries.contains_key(signature) ==> (#[trigger] self.entries[signature]).signature
                == signature && self.entries[signature].hit_count <= self.hits
    }
}

/// The views of the messages of a map.
pub open spec fn pattern_views(cache: Map<u32, CachedPattern>) -> Map<u32, PatternView> {
    cache.map_values(|p: CachedPattern| p@)
}

/// A bounded cache of messages, by the signature of their metadata.
pub struct ConversationCache {
    max_size: usize,
    cache: HashMap<u32, CachedPattern>,
    hit_count: usize,
    miss_count: usize,
    clock: Clock,
}

impl View for ConversationCache {
    type V = CacheView;

    closed spec fn view(&self) -> CacheView {
        CacheView {
            max_size: self.max_size as nat,
            entries: pattern_views(self.cache@),
            hits: self.hit_count as nat,
            misses: self.miss_count as nat,
        }
    }
}

/// The signature of the least recently used message of a cache that is not
/// empty.
fn find_least_recent(cache: &HashMap<u32, CachedPattern>) -> (victim: u32)
    requires
        cache@.len() > 0,
    ensures
        is_least_recent(pattern_views(cache@), victim),
{
    broadcast use vstd::std_specs::hash::group_hash_axioms;

    let keys = keys_of(cache);
    let ghost entries = pattern_views(cache@);
    proof {
        assert(keys@.len() > 0);
        assert forall|i: int| 0 <= i < keys@.len() implies cache@.contains_key(
            #[trigger] keys@[i],
        ) by {
            assert(keys@.to_set().contains(keys@[i]));
        }
    }
    let mut victim: u32 = keys[0];
    let mut oldest: u128 = match cache.get(&victim) {
        Some(pattern) => pattern.last_used,
        None => 0,
    };
    let mut i: usize = 1;
    while i < keys.len()
        invariant
            1 <= i <= keys@.len(),
            entries == pattern_views(cache@),
            forall|j: int| 0 <= j < keys@.len() ==> cache@.contains_key(#[trigger] keys@[j]),
            cache@.contains_key(victim),
            oldest == entries[victim].last_used,
            forall|j: int| 0 <= j < i ==> leaves_before(entries, victim, #[trigger] keys@[j]),
        decreases keys@.len() - i,
    {
        let key = keys[i];
        let used: u128 = match cache.get(&key) {
            Some(pattern) => pattern.last_used,
            None => 0,
        };
        if used < oldest || (used == oldest && key <= victim) {
            victim = key;
            oldest = used;
        }
        i = i + 1;
    }
    proof {
        assert forall|other: u32| entries.contains_key(other) implies leaves_before(
            entries,
            victim,
            other,
        ) by {
            assert(keys@.to_set().contains(other));
            let j = choose|j: int| 0 <= j < keys@.len() && keys@[j] == other;
            assert(leaves_before(entries, victim, keys@[j]));
        }
    }
    victim
}

impl ConversationCache {
    #[verifier::type_invariant]
    spec fn consistent(&self) -> bool {
        self@.well_formed()
    }

    /// An empty cache that holds up to `max_size` messages.
    pub fn new(max_size: usize) -> (cache: ConversationCache)
        ensures
            cache@ == CacheView::empty(max_size as nat),
    {
        let empty: HashMap<u32, CachedPattern> = HashMap::new();
        proof {
            assert(pattern_views(empty@) =~= Map::<u32, PatternView>::empty());
        }
        ConversationCache {
            max_size,
            cache: empty,
            hit_count: 0,
            miss_count: 0,
            clock: Clock::start(),
        }
    }

    /// The number of messages in the cache.
    pub fn len(&self) -> (n: usize)
        ensures
            n == self@.entries.len(),
    {
        broadcast use vstd::std_specs::hash::group_hash_axioms;

        proof {
            assert(pattern_views(self.cache@).dom() =~= self.cache@.dom());
        }
        self.cache.len()
    }

    /// The capacity that the cache was made with.
    pub fn max_size(&self) -> (n: usize)
        ensures
            n == self@.max_size,
    {
        self.max_size
    }

    /// The number of lookups that found their signature.
    pub fn hit_count(&self) -> (n: usize)
        ensures
            n == self@.hits,
    {
        self.hit_count
    }

    /// The number of lookups that did not find their signature.
    pub fn miss_count(&self) -> (n: usize)
        ensures
            n == self@.misses,
    {
        self.miss_count
    }

    /// Looks up the message stored under the signature of `metadata`, at
    /// time `now`. A hit counts on the message and on the cache, and
    /// refreshes the message's time; a miss counts on the cache.
    pub fn lookup_at(&mut self, metadata: &[MetadataEntry], now: u128) -> (found: Option<
        &CachedPattern,
    >)
        requires
            old(self)@.hits < usize::MAX,
            old(self)@.misses < usize::MAX,
        ensures
            final(self)@ == old(self)@.after_lookup(signature_of(metadata@), now as nat),
            final(self)@.well_formed(),
            match found {
                Some(pattern) => old(self)@.entries.contains_key(signature_of(metadata@))
                    && pattern@ == final(self)@.entries[signature_of(metadata@)],
                None => !old(self)@.entries.contains_key(signature_of(metadata@)),
            },
    {
        broadcast use vstd::std_specs::hash::group_hash_axioms;

        proof {
            use_type_invariant(&*self);
        }
        let signature = compute_metadata_signature(metadata);
        let ghost before = self.cache@;
        let ghost old_view = self@;
        let mut cache: HashMap<u32, CachedPattern> = HashMap::new();
        proof {
            assert(old_view.well_formed());
            assert(pattern_views(cache@) =~= Map::<u32, PatternView>::empty());
        }
        std::mem::swap(&mut self.cache, &mut cache);
        match cache.remove(&signature) {
            Some(pattern) => {
                proof {
                    assert(old_view.entries[signature] == pattern@);
                }
                let updated = CachedPattern {
                    signature: pattern.signature,
                    metadata: pattern.metadata,
                    compressed_payload: pattern.compressed_payload,
                    decompressed_text: pattern.decompressed_text,
                    hit_count: pattern.hit_count + 1,
                    last_used: now,
                };
                cache.insert(signature, updated);
                self.hit_count = self.hit_count + 1;
                proof {
                    let entries = pattern_views(cache@);
                    assert(updated@ == touched(old_view.entries[signature], now as nat));
                    assert(entries =~= old_view.entries.insert(signature, updated@));
                    assert(entries.dom() =~= old_view.entries.dom());
                    assert forall|s: u32| entries.contains_key(s) implies (#[trigger] entries[s]).signature
                        == s && entries[s].hit_count <= old_view.hits + 1 by {
                        if s != signature {
                            assert(entries[s] == old_view.entries[s]);
                        }
                    }
                }
            },
            None => {
                self.miss_count = self.miss_count + 1;
                proof {
                    assert(cache@ =~= before);
                }
            },
        }
        std::mem::swap(&mut self.cache, &mut cache);
        self.cache.get(&signature)
    }

    /// Looks up the message stored under the signature of `metadata`, now.
    /// The result is that of [`ConversationCache::lookup_at`] at some time.
    pub fn lookup(&mut self, metadata: &[MetadataEntry]) -> (found: Option<&CachedPattern>)
        requires
            old(self)@.hits < usize::MAX,
            old(self)@.misses < usize::MAX,
        ensures
            exists|now: u128|
                final(self)@ == #[trigger] old(self)@.after_lookup(
                    signature_of(metadata@),
                    now as nat,
                ),
            final(self)@.well_formed(),
            match found {
                Some(pattern) => old(self)@.entries.contains_key(signature_of(metadata@))
                    && pattern@ == final(self)@.entries[signature_of(metadata@)],
                None => !old(self)@.entries.contains_key(signature_of(metadata@)),
            },
    {
        let now = self.clock.nanos();
        self.lookup_at(metadata, now)
    }

    /// Stores a message under the signature of its metadata, at time `now`.
    /// A message that stood under the signature is replaced. Where the cache
    /// is full and the signature is new to it, the least recently used
    /// message leaves first. A cache of capacity zero stores nothing.
    pub fn store_at(
        &mut self,
        metadata: Vec<MetadataEntry>,
        compressed_payload: Vec<u8>,
        decompressed_text: Option<String>,
        now: u128,
    )
        ensures
            final(self)@ == old(self)@.after_store(
                stored_pattern(
                    metadata@,
                    compressed_payload@,
                    text_view(decompressed_text),
                    now as nat,
                ),
            ),
            final(self)@.well_formed(),
    {
        broadcast use vstd::std_specs::hash::group_hash_axioms;

        proof {
            use_type_invariant(&*self);
        }
        if self.max_size == 0 {
            return ;
        }
        let signature = compute_metadata_signature(metadata.as_slice());
        let ghost old_view = self@;
        let ghost before = self.cache@;
        let ghost stored = fresh_pattern(
            signature,
            metadata@,
            compressed_payload@,
            text_view(decompressed_text),
            now as nat,
        );
        let mut cache: HashMap<u32, CachedPattern> = HashMap::new();
        proof {
            assert(old_view.well_formed());
            assert(old_view.entries.dom() =~= before.dom());
            assert(pattern_views(cache@) =~= Map::<u32, PatternView>::empty());
        }
        std::mem::swap(&mut self.cache, &mut cache);
        if cache.len() >= self.max_size && !cache.contains_key(&signature) {
            let victim = find_least_recent(&cache);
            proof {
                lemma_least_recent_unique(old_view.entries, victim);
            }
            cache.remove(&victim);
            proof {
                assert(pattern_views(cache@) =~= old_view.entries.remove(victim));
                assert(pattern_views(cache@).dom() =~= old_view.entries.dom().remove(victim));
            }
        }
        let ghost kept = pattern_views(cache@);
        let pattern = CachedPattern::new(
            signature,
            metadata,
            compressed_payload,
            decompressed_text,
            now,
        );
        cache.insert(signature, pattern);
        proof {
            let entries = pattern_views(cache@);
            assert(entries =~= kept.insert(signature, stored));
            assert(entries.dom() =~= kept.dom().insert(signature));
            assert forall|s: u32| entries.contains_key(s) implies (#[trigger] entries[s]).signature
                == s && entries[s].hit_count <= old_view.hits by {
                if s != signature {
                    assert(entries[s] == old_view.entries[s]);
                }
            }
        }
        std::mem::swap(&mut self.cache, &mut cache);
    }

    /// Stores a message under the signature of its metadata, now. The
    /// result is that of [`ConversationCache::store_at`] at some time.
    pub fn store(
        &mut self,
        metadata: Vec<MetadataEntry>,
        compressed_payload: Vec<u8>,
        decompressed_text: Option<String>,
    )
        ensures
            exists|now: u128|
                final(self)@ == old(self)@.after_store(
                    #[trigger] stored_pattern(
                        metadata@,
                        compressed_payload@,
                        text_view(decompressed_text),
                        now as nat,
                    ),
                ),
            final(self)@.well_formed(),
    {
        let now = self.clock.nanos();
        self.store_at(metadata, compressed_payload, decompressed_text, now);
    }

    /// The share of lookups that were hits, as a fraction; `0 / 1` before
    /// the first lookup.
    pub fn get_hit_rate(&self) -> (rate: Ratio)
        ensures
            rate == self@.hit_rate(),
            rate.numerator == self@.hits,
            rate.denominator == if self@.hits + self@.misses > 0 {
                self@.hits + self@.misses
            } else {
                1
            },
            self@.well_formed(),
    {
        proof {
            use_type_invariant(self);
        }
        let total: u128 = self.hit_count as u128 + self.miss_count as u128;
        if total > 0 {
            Ratio::new(self.hit_count as u128, total)
        } else {
            Ratio::zero()
        }
    }

    /// The counters of the cache.
    pub fn get_stats(&self) -> (stats: CacheStats)
        ensures
            stats.size == self@.entries.len(),
            stats.max_size == self@.max_size,
            stats.hits == self@.hits,
            stats.misses == self@.misses,
            stats.hit_rate == self@.hit_rate(),
            stats.total_patterns == self@.entries.len(),
            self@.well_formed(),
    {
        CacheStats {
            size: self.len(),
            max_size: self.max_size,
            hits: self.hit_count,
            misses: self.miss_count,
            hit_rate: self.get_hit_rate(),
            total_patterns: self.len(),
        }
    }
}

/// The counters of a cache.
#[derive(Debug, Clone, Copy, PartialEq, Eq, Structural)]
pub struct CacheStats {
    pub size: usize,
    pub max_size: usize,
    pub hits: usize,
    pub misses: usize,
    pub hit_rate: Ratio,
    pub total_patterns: usize,
}

/// The cache after the given messages were stored one after the other.
pub open spec fn store_all(cache: CacheView, patterns: Seq<PatternView>) -> CacheView
    decreases patterns.len(),
{
    if patterns.len() == 0 {
        cache
    } else {
        store_all(cache, patterns.drop_last()).after_store(patterns.last())
    }
}

/// Whether no two of the messages have the same signature.
pub open spec fn distinct_signatures(patterns: Seq<PatternView>) -> bool {
    forall|i: int, j: int|
        0 <= i < j < patterns.len() ==> patterns[i].signature != patterns[j].signature
}

/// Whether each message was used later than the one before it.
pub open spec fn increasing_recency(patterns: Seq<PatternView>) -> bool {
    forall|i: int, j: int|
        0 <= i < j < patterns.len() ==> patterns[i].last_used < patterns[j].last_used
}

/// An empty cache that takes no more messages than its capacity holds
/// exactly these messages.
proof fn lemma_store_below_capacity(capacity: nat, patterns: Seq<PatternView>, k: int)
    requires
        0 <= k <= capacity,
        k <= patterns.len(),
        distinct_signatures(patterns),
    ensures
        ({
            let cache = store_all(CacheView::empty(capacity), patterns.take(k));
            &&& cache.max_size == capacity
            &&& cache.entries.dom().finite()
            &&& cache.entries.len() == k
            &&& forall|i: int|
                0 <= i < k ==> cache.entries.contains_key(#[trigger] patterns[i].signature)
                    && cache.entries[patterns[i].signature] == patterns[i]
            &&& forall|s: u32|
                cache.entries.contains_key(s) ==> exists|i: int|
                    0 <= i < k && #[trigger] patterns[i].signature == s
        }),
    decreases k,
{
    if k == 0 {
        assert(patterns.take(0) =~= Seq::<PatternView>::empty());
    } else {
        lemma_store_below_capacity(capacity, patterns, k - 1);
        let before = store_all(CacheView::empty(capacity), patterns.take(k - 1));
        let pattern = patterns[k - 1];
        assert(patterns.take(k).drop_last() =~= patterns.take(k - 1));
        assert(patterns.take(k).last() == pattern);
        let after = before.after_store(pattern);
        assert(store_all(CacheView::empty(capacity), patterns.take(k)) == after);
        assert(!before.entries.contains_key(pattern.signature)) by {
            if before.entries.contains_key(pattern.signature) {
                let i = choose|i: int|
                    0 <= i < k - 1 && #[trigger] patterns[i].signature == pattern.signature;
                assert(patterns[i].signature != patterns[k - 1].signature);
            }
        }
        assert(!before.evicts_for(pattern.signature));
        assert(after.entries == before.entries.insert(pattern.signature, pattern));
        assert forall|i: int| 0 <= i < k implies after.entries.contains_key(
            #[trigger] patterns[i].signature,
        ) && after.entries[patterns[i].signature] == patterns[i] by {
            if i < k - 1 {
                assert(patterns[i].signature != patterns[k - 1].signature);
            }
        }
        assert forall|s: u32| after.entries.contains_key(s) implies exists|i: int|
            0 <= i < k && #[trigger] patterns[i].signature == s by {
            if s == pattern.signature {
                assert(patterns[k - 1].signature == s);
            } else {
                let i = choose|i: int| 0 <= i < k - 1 && #[trigger] patterns[i].signature == s;
                assert(0 <= i < k && patterns[i].signature == s);
            }
        }
    }
}

/// A cache of capacity `C` that was empty and then took `C + 1` messages
/// with different signatures, each used later than the one before, holds
/// exactly `C` messages: all but the first.
pub proof fn lemma_cache_bound(capacity: nat, patterns: Seq<PatternView>)
    requires
        patterns.len() == capacity + 1,
        distinct_signatures(patterns),
        increasing_recency(patterns),
    ensures
        ({
            let cache = store_all(CacheView::empty(capacity), patterns);
            &&& cache.entries.len() == capacity
            &&& !cache.entries.contains_key(patterns[0].signature)
            &&& forall|i: int|
                1 <= i <= capacity ==> cache.entries.contains_key(#[trigger] patterns[i].signature)
        }),
{
    let k = capacity as int;
    lemma_store_below_capacity(capacity, patterns, k);
    let before = store_all(CacheView::empty(capacity), patterns.take(k));
    let last = patterns[k];
    assert(patterns.drop_last() =~= patterns.take(k));
    assert(patterns.last() == last);
    let after = before.after_store(last);
    assert(store_all(CacheView::empty(capacity), patterns) == after);
    if capacity == 0 {
        // The cache has no room: the one message is not stored.
        assert(after == before);
    } else {
        let first = patterns[0].signature;
        assert(!before.entries.contains_key(last.signature)) by {
            if before.entries.contains_key(last.signature) {
                let i = choose|i: int| 0 <= i < k && #[trigger] patterns[i].signature == last.signature;
                assert(patterns[i].signature != patterns[k].signature);
            }
        }
        assert(before.evicts_for(last.signature));
        assert(is_least_recent(before.entries, first)) by {
            assert forall|other: u32| before.entries.contains_key(other) implies leaves_before(
                before.entries,
                first,
                other,
            ) by {
                let i = choose|i: int| 0 <= i < k && #[trigger] patterns[i].signature == other;
                assert(before.entries[patterns[i].signature] == patterns[i]);
                assert(before.entries[patterns[0].signature] == patterns[0]);
                if i > 0 {
                    assert(patterns[0].last_used < patterns[i].last_used);
                }
            }
        }
        lemma_least_recent_unique(before.entries, first);
        assert(first != last.signature);
        assert(after.entries == before.entries.remove(first).insert(last.signature, last));
        assert forall|i: int| 1 <= i <= capacity implies after.entries.contains_key(
            #[trigger] patterns[i].signature,
        ) by {
            assert(patterns[0].signature != patterns[i].signature);
            if i < k {
                assert(before.entries.contains_key(patterns[i].signature));
            }
        }
    }
}

/// A lookup keeps a cache well formed, as long as its counters have room.
pub proof fn lemma_lookup_keeps_well_formed(cache: CacheView, signature: u32, now: nat)
    requires
        cache.well_formed(),
        cache.hits < usize::MAX,
        cache.misses < usize::MAX,
    ensures
        cache.after_lookup(signature, now).well_formed(),
{
    let after = cache.after_lookup(signature, now);
    if cache.entries.contains_key(signature) {
        assert(after.entries.dom() =~= cache.entries.dom());
        assert forall|s: u32| after.entries.contains_key(s) implies (#[trigger] after.entries[s]).signature
            == s && after.entries[s].hit_count <= after.hits by {
            if s != signature {
                assert(after.entries[s] == cache.entries[s]);
            }
        }
    }
}

/// Storing a message that was never found keeps a cache well formed: in
/// particular the cache never holds more messages than its capacity.
pub proof fn lemma_store_keeps_well_formed(cache: CacheView, pattern: PatternView)
    requires
        cache.well_formed(),
        pattern.hit_count == 0,
    ensures
        cache.after_store(pattern).well_formed(),
{
    let after = cache.after_store(pattern);
    if cache.max_size > 0 && cache.evicts_for(pattern.signature) {
        assert(exists|victim: u32| is_least_recent(cache.entries, victim)) by {
            lemma_least_recent_exists(cache.entries);
        }
        let victim = least_recent(cache.entries);
        assert(is_least_recent(cache.entries, victim));
    }
}

/// A map that is finite and not empty has a least recently used message.
pub proof fn lemma_least_recent_exists(entries: Map<u32, PatternView>)
    requires
        entries.dom().finite(),
        entries.len() > 0,
    ensures
        exists|victim: u32| is_least_recent(entries, victim),
    decreases entries.len(),
{
    let key = entries.dom().choose();
    let rest = entries.remove(key);
    if rest.len() == 0 {
        assert forall|other: u32| entries.contains_key(other) implies other == key by {
            if other != key {
                assert(rest.contains_key(other));
                assert(rest.dom().contains(other));
                assert(rest.dom().len() > 0);
            }
        }
        assert(is_least_recent(entries, key));
    } else {
        lemma_least_recent_exists(rest);
        let best = choose|victim: u32| is_least_recent(rest, victim);
        assert(rest.contains_key(best));
        if leaves_before(entries, best, key) {
            assert forall|other: u32| entries.contains_key(other) implies leaves_before(
                entries,
                best,
                other,
            ) by {
                if other != key {
                    assert(rest.contains_key(other));
                    assert(leaves_before(rest, best, other));
                }
            }
            assert(is_least_recent(entries, best));
        } else {
            assert forall|other: u32| entries.contains_key(other) implies leaves_before(
                entries,
                key,
                other,
            ) by {
                if other != key {
                    assert(rest.contains_key(other));
                    assert(leaves_before(rest, best, other));
                }
            }
            assert(is_least_recent(entries, key));
        }
    }
}

} // verus!
