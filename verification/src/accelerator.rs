//! The conversation accelerator, which answers repeated messages from its
//! cache and keeps statistics, and the platform accelerator, which counts
//! signatures across conversations.

use crate::clock::{elapsed_between, Clock};
use crate::conversation::{
    stored_pattern, CacheStats, CacheView, ConversationCache, PatternView,
};
use crate::frequency::{count_one, frequency, is_top, top_patterns};
use crate::metadata::{compute_metadata_signature, signature_of, MetadataEntry};
use crate::ratio::Ratio;
use crate::text::{copy_text, text_view};
use std::collections::HashMap;
use vstd::prelude::*;
use vstd::slice::slice_to_vec;

verus! {

/// The time that a message takes without the cache, in nanoseconds.
pub const BASELINE_NANOS: u64 = 13_000_000;

/// Capacity of the cache of a conversation.
pub const CONVERSATION_CACHE_SIZE: usize = 1000;

/// What processing one message gave.
#[derive(Debug)]
pub struct ProcessingResult {
    /// Whether the message was found in the cache.
    pub cache_hit: bool,
    /// The time that processing took, in nanoseconds.
    pub processing_time_ns: u64,
    /// The cached text on a hit, the supplied text on a miss.
    pub decompressed_text: Option<String>,
    /// The baseline time over the time taken; `1 / 1` on a miss.
    pub speedup: Ratio,
}

/// The statistics of a conversation.
#[derive(Debug, Clone, Copy, PartialEq, Eq, Structural)]
pub struct ConversationStats {
    pub message_count: usize,
    pub cache_hit_rate: Ratio,
    /// Average processing time in nanoseconds.
    pub avg_processing_time_ns: Ratio,
    /// Average of the first five samples in nanoseconds.
    pub early_avg_ns: Ratio,
    /// Average of the last five samples in nanoseconds.
    pub late_avg_ns: Ratio,
    /// The early average over the late one.
    pub improvement_factor: Ratio,
    /// The baseline time over the average time.
    pub total_speedup: Ratio,
    pub cache_stats: CacheStats,
}

/// The speedup of a cache hit that took `elapsed` nanoseconds: the baseline
/// over the time taken, and `1 / 1` where no time was measured.
pub open spec fn speedup_of(elapsed: u64) -> Ratio {
    if elapsed > 0 {
        Ratio { numerator: BASELINE_NANOS as u128, denominator: elapsed as u128 }
    } else {
        Ratio { numerator: 1, denominator: 1 }
    }
}

/// The sum of the samples.
pub open spec fn total(samples: Seq<u64>) -> nat
    decreases samples.len(),
{
    if samples.len() == 0 {
        0
    } else {
        total(samples.drop_last()) + samples.last() as nat
    }
}

/// The average of the samples; `0 / 1` where there are none.
pub open spec fn average(samples: Seq<u64>) -> Ratio {
    if samples.len() > 0 {
        Ratio { numerator: total(samples) as u128, denominator: samples.len() as u128 }
    } else {
        Ratio { numerator: 0, denominator: 1 }
    }
}

/// The first five samples; none where there are fewer than five.
pub open spec fn early(samples: Seq<u64>) -> Seq<u64> {
    if samples.len() >= 5 {
        samples.take(5)
    } else {
        Seq::empty()
    }
}

/// The last five samples; none where there are fewer than five.
pub open spec fn late(samples: Seq<u64>) -> Seq<u64> {
    if samples.len() >= 5 {
        samples.skip(samples.len() - 5)
    } else {
        Seq::empty()
    }
}

/// The early average over the late one; `1 / 1` where the late average is
/// zero.
pub open spec fn improvement(samples: Seq<u64>) -> Ratio {
    if total(late(samples)) > 0 {
        Ratio {
            numerator: total(early(samples)) as u128,
            denominator: total(late(samples)) as u128,
        }
    } else {
        Ratio { numerator: 1, denominator: 1 }
    }
}

/// The baseline time over the average time; `1 / 1` where the average is
/// zero.
pub open spec fn overall_speedup(samples: Seq<u64>) -> Ratio {
    if total(samples) > 0 {
        Ratio {
            numerator: (BASELINE_NANOS * samples.len()) as u128,
            denominator: total(samples) as u128,
        }
    } else {
        Ratio { numerator: 1, denominator: 1 }
    }
}

/// A sum of samples is at most as many times the largest sample.
pub proof fn lemma_total_bound(samples: Seq<u64>)
    ensures
        total(samples) <= samples.len() * u64::MAX,
    decreases samples.len(),
{
    if samples.len() > 0 {
        lemma_total_bound(samples.drop_last());
        assert(samples.len() * u64::MAX == (samples.len() - 1) * u64::MAX + u64::MAX)
            by (nonlinear_arith);
    }
}

/// The sum of the samples from `from` to `to`.
pub fn sum_of(samples: &[u64], from: usize, to: usize) -> (sum: u128)
    requires
        from <= to <= samples.len(),
    ensures
        sum == total(samples@.subrange(from as int, to as int)),
{
    let mut sum: u128 = 0;
    let mut i: usize = from;
    proof {
        assert(samples@.subrange(from as int, from as int) =~= Seq::<u64>::empty());
    }
    while i < to
        invariant
            from <= i <= to <= samples.len(),
            sum == total(samples@.subrange(from as int, i as int)),
        decreases to - i,
    {
        proof {
            let next = samples@.subrange(from as int, i + 1);
            assert(next.drop_last() =~= samples@.subrange(from as int, i as int));
            assert(next.last() == samples@[i as int]);
            lemma_total_bound(samples@.subrange(from as int, i as int));
            assert((i - from) * u64::MAX + u64::MAX <= usize::MAX * u64::MAX + u64::MAX)
                by (nonlinear_arith)
                requires
                    i - from <= usize::MAX,
            ;
        }
        sum = sum + samples[i] as u128;
        i = i + 1;
    }
    sum
}

/// The state of a conversation accelerator as plain values.
pub struct AcceleratorView {
    pub cache: CacheView,
    pub message_count: nat,
    pub platform_learning: bool,
    pub predictive_preload: bool,
    /// How often each signature missed the cache.
    pub platform_patterns: Map<u32, usize>,
    /// The processing time of each message, in nanoseconds, oldest first.
    pub processing_times: Seq<u64>,
}

impl AcceleratorView {
    /// A new accelerator.
    pub open spec fn new(platform_learning: bool, predictive_preload: bool) -> AcceleratorView {
        AcceleratorView {
            cache: CacheView::empty(CONVERSATION_CACHE_SIZE as nat),
            message_count: 0,
            platform_learning,
            predictive_preload,
            platform_patterns: Map::empty(),
            processing_times: Seq::empty(),
        }
    }

    /// Whether the message is answered from the cache.
    pub open spec fn hits(self, signature: u32) -> bool {
        self.cache.entries.contains_key(signature)
    }

    /// The accelerator after a message was processed. `pattern` is the
    /// message as it would be stored; `elapsed` the time taken.
    ///
    /// The message counts, and is looked up in the cache. On a miss it is
    /// stored, and counted in the frequency table where platform learning is
    /// on. The time taken joins the samples.
    pub open spec fn after_message(self, pattern: PatternView, elapsed: u64) -> AcceleratorView {
        let looked = self.cache.after_lookup(pattern.signature, pattern.last_used);
        if self.hits(pattern.signature) {
            AcceleratorView {
                cache: looked,
                message_count: self.message_count + 1,
                processing_times: self.processing_times.push(elapsed),
                ..self
            }
        } else {
            AcceleratorView {
                cache: looked.after_store(pattern),
                message_count: self.message_count + 1,
                platform_patterns: if self.platform_learning {
                    self.platform_patterns.insert(
                        pattern.signature,
                        (frequency(self.platform_patterns, pattern.signature) + 1) as usize,
                    )
                } else {
                    self.platform_patterns
                },
                processing_times: self.processing_times.push(elapsed),
                ..self
            }
        }
    }

    /// What an accelerator keeps true of itself: its cache is well formed,
    /// every message was looked up once and left one sample of its time,
    /// and no signature was counted more often than the cache missed.
    pub open spec fn well_formed(self) -> bool {
        &&& self.cache.well_formed()
        &&& self.message_count == self.cache.hits + self.cache.misses
        &&& self.message_count == self.processing_times.len()
        &&& forall|signature: u32|
            self.platform_patterns.contains_key(signature) ==> (
            #[trigger] self.platform_patterns[signature]) <= self.cache.misses
    }

    /// The kind of conversation, from its hit rate: `unknown` before the
    /// third message, `qa` above four fifths, `chat` above one half,
    /// `support` otherwise.
    pub open spec fn conversation_type(self) -> Seq<char> {
        if self.message_count < 3 {
            "unknown"@
        } else if self.cache.hit_rate().exceeds(4, 5) {
            "qa"@
        } else if self.cache.hit_rate().exceeds(1, 2) {
            "chat"@
        } else {
            "support"@
        }
    }
}

/// Whether `result` is what processing a message gives: a hit with the
/// cached text and the speedup of the time taken, or a miss with the
/// supplied text and no speedup.
pub open spec fn is_result_of(
    result: ProcessingResult,
    before: AcceleratorView,
    pattern: PatternView,
    elapsed: u64,
) -> bool {
    &&& result.cache_hit == before.hits(pattern.signature)
    &&& result.processing_time_ns == elapsed
    &&& text_view(result.decompressed_text) == if before.hits(pattern.signature) {
        before.cache.entries[pattern.signature].decompressed_text
    } else {
        pattern.decompressed_text
    }
    &&& result.speedup == if before.hits(pattern.signature) {
        speedup_of(elapsed)
    } else {
        Ratio { numerator: 1, denominator: 1 }
    }
}

/// Whether `after` and `result` are what processing the message `pattern`
/// in `elapsed` nanoseconds makes of `before`.
pub open spec fn processed_at(
    before: AcceleratorView,
    after: AcceleratorView,
    result: ProcessingResult,
    pattern: PatternView,
    elapsed: u64,
) -> bool {
    after == before.after_message(pattern, elapsed) && is_result_of(result, before, pattern, elapsed)
}

/// Processing a message keeps an accelerator well formed, as long as its
/// message counter has room.
pub proof fn lemma_message_keeps_well_formed(
    before: AcceleratorView,
    pattern: PatternView,
    elapsed: u64,
)
    requires
        before.well_formed(),
        before.message_count < usize::MAX,
        pattern.hit_count == 0,
    ensures
        before.after_message(pattern, elapsed).well_formed(),
{
    let after = before.after_message(pattern, elapsed);
    let looked = before.cache.after_lookup(pattern.signature, pattern.last_used);
    crate::conversation::lemma_lookup_keeps_well_formed(
        before.cache,
        pattern.signature,
        pattern.last_used,
    );
    if !before.hits(pattern.signature) {
        crate::conversation::lemma_store_keeps_well_formed(looked, pattern);
        assert forall|s: u32| after.platform_patterns.contains_key(s) implies (
        #[trigger] after.platform_patterns[s]) <= after.cache.misses by {
            if before.platform_patterns.contains_key(s) {
                assert(before.platform_patterns[s] <= before.cache.misses);
            }
        }
    } else {
        assert forall|s: u32| after.platform_patterns.contains_key(s) implies (
        #[trigger] after.platform_patterns[s]) <= after.cache.misses by {
            assert(before.platform_patterns[s] <= before.cache.misses);
        }
    }
}

/// An accelerator for one conversation.
pub struct ConversationAccelerator {
    cache: ConversationCache,
    message_count: usize,
    enable_platform_learning: bool,
    enable_predictive_preload: bool,
    platform_patterns: HashMap<u32, usize>,
    processing_times: Vec<u64>,
    clock: Clock,
}

impl View for ConversationAccelerator {
    type V = AcceleratorView;

    closed spec fn view(&self) -> AcceleratorView {
        AcceleratorView {
            cache: self.cache@,
            message_count: self.message_count as nat,
            platform_learning: self.enable_platform_learning,
            predictive_preload: self.enable_predictive_preload,
            platform_patterns: self.platform_patterns@,
            processing_times: self.processing_times@,
        }
    }
}

impl ConversationAccelerator {
    /// A new accelerator with an empty cache of 1000 messages.
    pub fn new(enable_platform_learning: bool, enable_predictive_preload: bool) -> (accelerator:
        ConversationAccelerator)
        ensures
            accelerator@ == AcceleratorView::new(enable_platform_learning, enable_predictive_preload),
            accelerator@.well_formed(),
    {
        ConversationAccelerator {
            cache: ConversationCache::new(CONVERSATION_CACHE_SIZE),
            message_count: 0,
            enable_platform_learning,
            enable_predictive_preload,
            platform_patterns: HashMap::new(),
            processing_times: Vec::new(),
            clock: Clock::start(),
        }
    }

    /// The number of messages processed.
    pub fn message_count(&self) -> (n: usize)
        ensures
            n == self@.message_count,
    {
        self.message_count
    }

    /// Looks the message up and, on a miss, stores it. Gives back whether
    /// it was a hit, and the text to answer with.
    fn consult(
        &mut self,
        metadata: Vec<MetadataEntry>,
        compressed_payload: Vec<u8>,
        decompressed_text: Option<String>,
        now: u128,
    ) -> (r: (bool, Option<String>))
        requires
            old(self)@.well_formed(),
            old(self)@.message_count < usize::MAX,
        ensures
            final(self)@ == (AcceleratorView {
                processing_times: old(self)@.processing_times,
                ..old(self)@.after_message(
                    stored_pattern(
                        metadata@,
                        compressed_payload@,
                        text_view(decompressed_text),
                        now as nat,
                    ),
                    0,
                )
            }),
            r.0 == old(self)@.hits(signature_of(metadata@)),
            r.0 ==> text_view(r.1) == old(self)@.cache.entries[signature_of(
                metadata@,
            )].decompressed_text,
            !r.0 ==> text_view(r.1) == text_view(decompressed_text),
    {
        broadcast use vstd::std_specs::hash::group_hash_axioms;

        let ghost before = self@;
        let ghost pattern = stored_pattern(
            metadata@,
            compressed_payload@,
            text_view(decompressed_text),
            now as nat,
        );
        self.message_count = self.message_count + 1;
        let cached = match self.cache.lookup_at(metadata.as_slice(), now) {
            Some(found) => Some(copy_text(&found.decompressed_text)),
            None => None,
        };
        match cached {
            Some(text) => {
                proof {
                    assert(before.hits(pattern.signature));
                    assert(self@.cache == before.cache.after_lookup(pattern.signature, now as nat));
                }
                (true, text)
            },
            None => {
                let signature = compute_metadata_signature(metadata.as_slice());
                let answer = copy_text(&decompressed_text);
                self.cache.store_at(metadata, compressed_payload, decompressed_text, now);
                if self.enable_platform_learning {
                    proof {
                        assert(self.platform_patterns@ == before.platform_patterns);
                        assert(frequency(before.platform_patterns, signature)
                            <= before.cache.misses);
                    }
                    count_one(&mut self.platform_patterns, signature);
                }
                proof {
                    assert(!before.hits(pattern.signature));
                    let looked = before.cache.after_lookup(pattern.signature, now as nat);
                    assert(self@.cache == looked.after_store(pattern));
                }
                (false, answer)
            },
        }
    }

    /// Records the time taken and builds the result.
    fn conclude(&mut self, hit: bool, text: Option<String>, elapsed: u64) -> (result:
        ProcessingResult)
        ensures
            final(self)@ == (AcceleratorView {
                processing_times: old(self)@.processing_times.push(elapsed),
                ..old(self)@
            }),
            result.cache_hit == hit,
            result.processing_time_ns == elapsed,
            result.decompressed_text == text,
            result.speedup == if hit {
                speedup_of(elapsed)
            } else {
                Ratio { numerator: 1, denominator: 1 }
            },
    {
        self.processing_times.push(elapsed);
        let speedup = if hit {
            calculate_speedup(elapsed)
        } else {
            Ratio::one()
        };
        ProcessingResult {
            cache_hit: hit,
            processing_time_ns: elapsed,
            decompressed_text: text,
            speedup,
        }
    }

    /// Processes a message at time `now`, taking `elapsed` nanoseconds. See
    /// [`AcceleratorView::after_message`] and [`is_result_of`].
    pub fn process_message_at(
        &mut self,
        metadata: Vec<MetadataEntry>,
        compressed_payload: Vec<u8>,
        decompressed_text: Option<String>,
        now: u128,
        elapsed: u64,
    ) -> (result: ProcessingResult)
        requires
            old(self)@.well_formed(),
            old(self)@.message_count < usize::MAX,
        ensures
            processed_at(
                old(self)@,
                final(self)@,
                result,
                stored_pattern(
                    metadata@,
                    compressed_payload@,
                    text_view(decompressed_text),
                    now as nat,
                ),
                elapsed,
            ),
            final(self)@.well_formed(),
    {
        proof {
            lemma_message_keeps_well_formed(
                self@,
                stored_pattern(
                    metadata@,
                    compressed_payload@,
                    text_view(decompressed_text),
                    now as nat,
                ),
                elapsed,
            );
        }
        let (hit, text) = self.consult(metadata, compressed_payload, decompressed_text, now);
        self.conclude(hit, text, elapsed)
    }

    /// Processes a message now, and measures the time that it takes. The
    /// result is that of [`ConversationAccelerator::process_message_at`] for
    /// some time and some time taken.
    pub fn process_message(
        &mut self,
        metadata: Vec<MetadataEntry>,
        compressed_payload: Vec<u8>,
        decompressed_text: Option<String>,
    ) -> (result: ProcessingResult)
        requires
            old(self)@.well_formed(),
            old(self)@.message_count < usize::MAX,
        ensures
            exists|now: u128, elapsed: u64| #[trigger]
                processed_at(
                    old(self)@,
                    final(self)@,
                    result,
                    stored_pattern(
                        metadata@,
                        compressed_payload@,
                        text_view(decompressed_text),
                        now as nat,
                    ),
                    elapsed,
                ),
            final(self)@.well_formed(),
    {
        let ghost pattern_at = |now: u128|
            stored_pattern(
                metadata@,
                compressed_payload@,
                text_view(decompressed_text),
                now as nat,
            );
        let start = self.clock.nanos();
        let (hit, text) = self.consult(metadata, compressed_payload, decompressed_text, start);
        let end = self.clock.nanos();
        let elapsed = elapsed_between(start, end);
        let result = self.conclude(hit, text, elapsed);
        proof {
            lemma_message_keeps_well_formed(old(self)@, pattern_at(start), elapsed);
            assert(processed_at(old(self)@, self@, result, pattern_at(start), elapsed));
        }
        result
    }

    /// The statistics of the conversation so far.
    pub fn get_conversation_stats(&self) -> (stats: ConversationStats)
        ensures
            stats.message_count == self@.message_count,
            stats.cache_hit_rate == self@.cache.hit_rate(),
            stats.avg_processing_time_ns == average(self@.processing_times),
            stats.early_avg_ns == average(early(self@.processing_times)),
            stats.late_avg_ns == average(late(self@.processing_times)),
            stats.improvement_factor == improvement(self@.processing_times),
            stats.total_speedup == overall_speedup(self@.processing_times),
            stats.cache_stats.size == self@.cache.entries.len(),
            stats.cache_stats.max_size == self@.cache.max_size,
            stats.cache_stats.hits == self@.cache.hits,
            stats.cache_stats.misses == self@.cache.misses,
            stats.cache_stats.hit_rate == self@.cache.hit_rate(),
            stats.cache_stats.total_patterns == self@.cache.entries.len(),
    {
        let cache_stats = self.cache.get_stats();
        let samples = self.processing_times.as_slice();
        let count = samples.len();
        let sum = sum_of(samples, 0, count);
        proof {
            assert(samples@.subrange(0, count as int) =~= samples@);
            lemma_total_bound(samples@);
            assert(count * u64::MAX <= usize::MAX * u64::MAX) by (nonlinear_arith)
                requires
                    count <= usize::MAX,
            ;
        }
        let avg = if count > 0 {
            Ratio::new(sum, count as u128)
        } else {
            Ratio::zero()
        };
        let (early_avg, late_avg, improvement_factor) = if count >= 5 {
            let early_sum = sum_of(samples, 0, 5);
            let late_sum = sum_of(samples, count - 5, count);
            proof {
                assert(samples@.subrange(0, 5) =~= early(samples@));
                assert(samples@.subrange(count - 5, count as int) =~= late(samples@));
            }
            (
                Ratio::new(early_sum, 5),
                Ratio::new(late_sum, 5),
                if late_sum > 0 {
                    Ratio::new(early_sum, late_sum)
                } else {
                    Ratio::one()
                },
            )
        } else {
            (Ratio::zero(), Ratio::zero(), Ratio::one())
        };
        proof {
            assert(13_000_000 * count <= 13_000_000 * usize::MAX) by (nonlinear_arith)
                requires
                    count <= usize::MAX,
            ;
        }
        let total_speedup = if sum > 0 {
            Ratio::new(BASELINE_NANOS as u128 * count as u128, sum)
        } else {
            Ratio::one()
        };
        ConversationStats {
            message_count: self.message_count,
            cache_hit_rate: cache_stats.hit_rate,
            avg_processing_time_ns: avg,
            early_avg_ns: early_avg,
            late_avg_ns: late_avg,
            improvement_factor,
            total_speedup,
            cache_stats,
        }
    }

    /// The signatures expected next: the `num_predictions` signatures that
    /// missed the cache most often, the most frequent first. Nothing where
    /// predictive preload is off. The current message does not count.
    pub fn predict_next_patterns(
        &self,
        current_metadata: &[MetadataEntry],
        num_predictions: usize,
    ) -> (predictions: Vec<u32>)
        ensures
            !self@.predictive_preload ==> predictions@.len() == 0,
            self@.predictive_preload ==> is_top(
                self@.platform_patterns,
                num_predictions as nat,
                predictions@,
            ),
    {
        if !self.enable_predictive_preload {
            return Vec::new();
        }
        top_patterns(&self.platform_patterns, num_predictions)
    }

    /// The kind of conversation, from its hit rate.
    pub fn classify_conversation_type(&self) -> (kind: &'static str)
        ensures
            kind@ == self@.conversation_type(),
    {
        if self.message_count < 3 {
            return "unknown";
        }
        let hits = self.cache.hit_count() as u128;
        let lookups = hits + self.cache.miss_count() as u128;
        if lookups == 0 {
            return "support";
        }
        if hits * 5 > 4 * lookups {
            "qa"
        } else if hits * 2 > lookups {
            "chat"
        } else {
            "support"
        }
    }
}

/// The speedup of a cache hit that took `elapsed` nanoseconds.
pub fn calculate_speedup(elapsed: u64) -> (speedup: Ratio)
    ensures
        speedup == speedup_of(elapsed),
{
    if elapsed > 0 {
        Ratio::new(BASELINE_NANOS as u128, elapsed as u128)
    } else {
        Ratio::one()
    }
}

/// The kinds of conversation seen, each with how many.
pub open spec fn tally_views(tally: Seq<(String, usize)>) -> Seq<(Seq<char>, usize)> {
    Seq::new(tally.len(), |i: int| (tally[i].0@, tally[i].1))
}

/// The sum of the counts of a tally.
pub open spec fn tally_total(tally: Seq<(Seq<char>, usize)>) -> nat
    decreases tally.len(),
{
    if tally.len() == 0 {
        0
    } else {
        tally_total(tally.drop_last()) + tally.last().1 as nat
    }
}

/// The sum over a part of a tally is no more than the sum over all of it.
proof fn lemma_tally_total_grows(tally: Seq<(Seq<char>, usize)>, k: int)
    requires
        0 <= k <= tally.len(),
    ensures
        tally_total(tally.take(k)) <= tally_total(tally),
    decreases tally.len() - k,
{
    if k == tally.len() {
        assert(tally.take(k) =~= tally);
    } else {
        lemma_tally_total_grows(tally, k + 1);
        assert(tally.take(k + 1).drop_last() =~= tally.take(k));
    }
}

/// The state of a platform accelerator as plain values.
pub struct PlatformView {
    /// How often each signature was seen, over all conversations.
    pub patterns: Map<u32, usize>,
    /// The kinds of conversation seen, each with how many.
    pub conversation_types: Seq<(Seq<char>, usize)>,
}

/// The statistics of a platform.
#[derive(Debug)]
pub struct PlatformStats {
    pub total_patterns: usize,
    pub total_conversations: usize,
    pub conversation_types: Vec<(String, usize)>,
    pub top_10_patterns: Vec<u32>,
}

/// Frequencies of signatures across conversations. It stores no payloads
/// and never forgets a signature.
pub struct PlatformAccelerator {
    global_patterns: HashMap<u32, usize>,
    conversation_types: Vec<(String, usize)>,
}

impl View for PlatformAccelerator {
    type V = PlatformView;

    closed spec fn view(&self) -> PlatformView {
        PlatformView {
            patterns: self.global_patterns@,
            conversation_types: tally_views(self.conversation_types@),
        }
    }
}

impl PlatformAccelerator {
    #[verifier::type_invariant]
    spec fn countable(&self) -> bool {
        tally_total(tally_views(self.conversation_types@)) <= usize::MAX
    }

    /// A platform accelerator that has seen nothing.
    pub fn new() -> (platform: PlatformAccelerator)
        ensures
            platform@.patterns == Map::<u32, usize>::empty(),
            platform@.conversation_types == Seq::<(Seq<char>, usize)>::empty(),
    {
        let tally: Vec<(String, usize)> = Vec::new();
        proof {
            assert(tally_views(tally@) =~= Seq::<(Seq<char>, usize)>::empty());
        }
        PlatformAccelerator { global_patterns: HashMap::new(), conversation_types: tally }
    }

    /// How often the signature of `metadata` was seen.
    pub fn pattern_frequency(&self, metadata: &[MetadataEntry]) -> (count: usize)
        ensures
            count == frequency(self@.patterns, signature_of(metadata@)),
    {
        crate::frequency::count_of(&self.global_patterns, compute_metadata_signature(metadata))
    }

    /// Counts one more sighting of the signature of `metadata`.
    pub fn update_global_patterns(&mut self, metadata: &[MetadataEntry])
        requires
            frequency(old(self)@.patterns, signature_of(metadata@)) < usize::MAX,
        ensures
            final(self)@.patterns == old(self)@.patterns.insert(
                signature_of(metadata@),
                (frequency(old(self)@.patterns, signature_of(metadata@)) + 1) as usize,
            ),
            final(self)@.conversation_types == old(self)@.conversation_types,
    {
        proof {
            use_type_invariant(&*self);
        }
        let signature = compute_metadata_signature(metadata);
        let mut patterns: HashMap<u32, usize> = HashMap::new();
        std::mem::swap(&mut self.global_patterns, &mut patterns);
        count_one(&mut patterns, signature);
        std::mem::swap(&mut self.global_patterns, &mut patterns);
    }

    /// The `limit` signatures seen most often, the most frequent first. Of
    /// two seen equally often the lower one comes first.
    pub fn get_top_patterns(&self, limit: usize) -> (top: Vec<u32>)
        ensures
            is_top(self@.patterns, limit as nat, top@),
    {
        top_patterns(&self.global_patterns, limit)
    }

    /// The statistics of the platform.
    pub fn get_platform_stats(&self) -> (stats: PlatformStats)
        ensures
            stats.total_patterns == self@.patterns.len(),
            stats.total_conversations == tally_total(self@.conversation_types),
            tally_views(stats.conversation_types@) == self@.conversation_types,
            is_top(self@.patterns, 10, stats.top_10_patterns@),
    {
        broadcast use vstd::std_specs::hash::group_hash_axioms;

        proof {
            use_type_invariant(self);
        }
        let ghost all = tally_views(self.conversation_types@);
        let mut total_conversations: usize = 0;
        let mut conversation_types: Vec<(String, usize)> = Vec::new();
        let mut i: usize = 0;
        proof {
            assert(all.take(0) =~= Seq::<(Seq<char>, usize)>::empty());
            assert(tally_views(conversation_types@) =~= all.take(0));
        }
        while i < self.conversation_types.len()
            invariant
                i <= self.conversation_types@.len(),
                all == tally_views(self.conversation_types@),
                tally_total(all) <= usize::MAX,
                total_conversations == tally_total(all.take(i as int)),
                tally_views(conversation_types@) == all.take(i as int),
            decreases self.conversation_types@.len() - i,
        {
            let entry = &self.conversation_types[i];
            proof {
                lemma_tally_total_grows(all, i + 1);
                assert(all.take(i + 1).drop_last() =~= all.take(i as int));
                assert(all.take(i + 1).last() == (entry.0@, entry.1));
            }
            total_conversations = total_conversations + entry.1;
            conversation_types.push((entry.0.clone(), entry.1));
            proof {
                assert(tally_views(conversation_types@) =~= all.take(i + 1));
            }
            i = i + 1;
        }
        proof {
            assert(all.take(i as int) =~= all);
        }
        PlatformStats {
            total_patterns: self.global_patterns.len(),
            total_conversations,
            conversation_types,
            top_10_patterns: self.get_top_patterns(10),
        }
    }
}

impl Default for PlatformAccelerator {
    fn default() -> (platform: PlatformAccelerator)
        ensures
            platform@.patterns == Map::<u32, usize>::empty(),
            platform@.conversation_types == Seq::<(Seq<char>, usize)>::empty(),
    {
        PlatformAccelerator::new()
    }
}

} // verus!
