//! The optimization engine: configuration, the snapshot history, the
//! counters, and the single-text and batch entry points.

use vstd::prelude::*;
use crate::cache::cache_capacity;
use crate::cache::cache_entries;
use crate::cache::cache_get;
use crate::cache::cache_new;
use crate::cache::cache_put;
use crate::cache::cache_recency;
use crate::cache::cache_wf;
use crate::cache::put_entries;
use crate::cache::put_recency;
use crate::cache::touch;
use crate::clock::now_millis;
use crate::edits::apply_edits;
use crate::edits::char_diff;
use crate::edits::char_edit_distance;
use crate::edits::count_edit_size;
use crate::numfmt::decimal_of;
use crate::numfmt::decimal_string;
use crate::segment::segment;
use crate::segment::segments_of;
use crate::strategies::aggressive_result;
use crate::strategies::aggressive_join;
use crate::strategies::balanced_result;
use crate::strategies::balanced_join;
use crate::strategies::collapse_repeats;
use crate::strategies::conservative_result;
use crate::strategies::conservative_join;
use crate::text::chars_of;
use crate::text::string_of_chars;

verus! {

/// How many recent raw inputs the engine remembers.
pub const SNAPSHOT_CAPACITY: usize = 5;

/// How many entries the shared result cache may hold.
pub const CACHE_CAPACITY: usize = 10000;

/// How old a snapshot may be, in milliseconds, and still serve an
/// incremental reconstruction.
pub const FRESHNESS_WINDOW_MILLIS: u128 = 200;

/// The largest batch the executor accepts.
pub const MAX_BATCH: usize = 1000;

/// The token-handling policy of a compression pass.
#[derive(Clone, Copy, Debug, PartialEq, Eq, Structural)]
pub enum CompressionLevel {
    Aggressive,
    Balanced,
    Conservative,
}

/// The engine-instance configuration, fixed at construction.
#[derive(Clone, Copy, Debug, PartialEq, Eq, Structural)]
pub struct OptimizationConfig {
    pub batch_size: i64,
    pub window_size: i64,
    pub semantic_mode: bool,
    pub compression_level: CompressionLevel,
}

/// Per-call result figures.  Lengths count characters; the cache-hit and
/// incremental counters are the engine's running totals at reply time.
#[derive(Clone, Copy, Debug, PartialEq, Eq, Structural)]
pub struct OptimizationStats {
    pub original_count: u128,
    pub optimized_count: u128,
    pub cache_hits: u64,
    pub incremental_updates: u64,
}

/// The mathematical content of per-call result figures.
#[verifier::ext_equal]
pub struct StatsModel {
    pub original_count: nat,
    pub optimized_count: nat,
    pub cache_hits: u64,
    pub incremental_updates: u64,
}

impl View for OptimizationStats {
    type V = StatsModel;

    open spec fn view(&self) -> StatsModel {
        StatsModel {
            original_count: self.original_count as nat,
            optimized_count: self.optimized_count as nat,
            cache_hits: self.cache_hits,
            incremental_updates: self.incremental_updates,
        }
    }
}

/// What a batch request produces.
#[derive(Debug)]
pub struct BatchResult {
    pub batch_id: String,
    pub optimized_requests: Vec<String>,
    pub stats: OptimizationStats,
}

/// Why a batch request is refused.
#[derive(Clone, Copy, Debug, PartialEq, Eq, Structural)]
pub enum BatchError {
    /// The batch held no requests.
    EmptyBatch,
    /// The batch held more requests than the executor accepts.
    BatchTooLarge,
    /// The system clock could not be read for the batch identifier.
    ClockError,
}

/// A remembered raw input and the time it was recorded.
#[derive(Debug)]
pub struct Snapshot {
    pub content: String,
    pub recorded_at: u128,
}

/// The mathematical content of a snapshot.
#[verifier::ext_equal]
pub struct SnapshotModel {
    pub content: Seq<char>,
    pub recorded_at: u128,
}

/// The mathematical content of an engine instance.
#[verifier::ext_equal]
pub struct EngineModel {
    pub entries: Map<Seq<char>, Seq<char>>,
    pub recency: Seq<Seq<char>>,
    pub capacity: nat,
    pub snapshots: Seq<SnapshotModel>,
    pub cache_hits: u64,
    pub cache_misses: u64,
    pub incremental_updates: u64,
    pub level: CompressionLevel,
}

/// A counter bump that stops at the counter's ceiling instead of wrapping.
pub open spec fn inc_sat(x: u64) -> u64 {
    if x == u64::MAX {
        x
    } else {
        (x + 1) as u64
    }
}

/// What the configured strategy produces from a token list.
pub open spec fn strategy_result(level: CompressionLevel, toks: Seq<Seq<char>>) -> Seq<char> {
    match level {
        CompressionLevel::Aggressive => aggressive_result(toks),
        CompressionLevel::Balanced => balanced_result(toks),
        CompressionLevel::Conservative => conservative_result(toks),
    }
}

/// What a full recomputation produces from a text.
pub open spec fn optimized_of(level: CompressionLevel, text: Seq<char>) -> Seq<char> {
    strategy_result(level, segments_of(text))
}

/// Whether a snapshot is within the freshness window at time `now`.
pub open spec fn snap_fresh(s: SnapshotModel, now: u128) -> bool {
    s.recorded_at <= now && now - s.recorded_at <= FRESHNESS_WINDOW_MILLIS
}

/// Whether a snapshot can serve an incremental reconstruction of `text` at
/// time `now`: it is fresh and the edit script to `text` is small.
pub open spec fn snap_usable(s: SnapshotModel, text: Seq<char>, now: u128) -> bool {
    snap_fresh(s, now) && char_edit_distance(s.content, text) < text.len() / 4
}

/// Whether any remembered snapshot can serve an incremental reconstruction.
pub open spec fn incremental_hit(snaps: Seq<SnapshotModel>, text: Seq<char>, now: u128) -> bool {
    exists|i: int| 0 <= i < snaps.len() && snap_usable(snaps[i], text, now)
}

/// The snapshot history after recording a new raw input: the oldest entry
/// leaves when the ring is full.
pub open spec fn push_snapshot(
    snaps: Seq<SnapshotModel>,
    content: Seq<char>,
    now: u128,
) -> Seq<SnapshotModel> {
    (if snaps.len() >= SNAPSHOT_CAPACITY {
        snaps.skip(1)
    } else {
        snaps
    }).push(SnapshotModel { content, recorded_at: now })
}

/// The engine after one single-text request.  A cached text is served from
/// the cache; otherwise a fresh, close snapshot is patched instead of
/// recomputing; otherwise the configured strategy runs and both the cache
/// and the snapshot history are updated.  Without a clock reading the
/// incremental path is skipped and no snapshot is recorded.
pub open spec fn text_step_model(m: EngineModel, text: Seq<char>, now: Option<u128>) -> EngineModel {
    if m.entries.contains_key(text) {
        EngineModel { cache_hits: inc_sat(m.cache_hits), recency: touch(m.recency, text), ..m }
    } else if now matches Some(n) && incremental_hit(m.snapshots, text, n) {
        EngineModel {
            cache_misses: inc_sat(m.cache_misses),
            incremental_updates: inc_sat(m.incremental_updates),
            ..m
        }
    } else {
        EngineModel {
            cache_misses: inc_sat(m.cache_misses),
            entries: put_entries(m.entries, m.recency, m.capacity, text, optimized_of(m.level, text)),
            recency: put_recency(m.entries, m.recency, m.capacity, text),
            snapshots: (match now {
                Some(n) => push_snapshot(m.snapshots, text, n),
                None => m.snapshots,
            }),
            ..m
        }
    }
}

/// The figures one single-text request reports.  An incremental
/// reconstruction replays the edit script against the snapshot's raw
/// content, which spells the requested text itself.
pub open spec fn text_step_stats(m: EngineModel, text: Seq<char>, now: Option<u128>) -> StatsModel {
    if m.entries.contains_key(text) {
        StatsModel {
            original_count: text.len(),
            optimized_count: m.entries[text].len(),
            cache_hits: inc_sat(m.cache_hits),
            incremental_updates: m.incremental_updates,
        }
    } else if now matches Some(n) && incremental_hit(m.snapshots, text, n) {
        StatsModel {
            original_count: text.len(),
            optimized_count: text.len(),
            cache_hits: m.cache_hits,
            incremental_updates: inc_sat(m.incremental_updates),
        }
    } else {
        StatsModel {
            original_count: text.len(),
            optimized_count: optimized_of(m.level, text).len(),
            cache_hits: m.cache_hits,
            incremental_updates: m.incremental_updates,
        }
    }
}

/// The engine after recording one snapshot (no clock reading, no change).
pub open spec fn snapshot_step_model(
    m: EngineModel,
    content: Seq<char>,
    now: Option<u128>,
) -> EngineModel {
    match now {
        Some(n) => EngineModel { snapshots: push_snapshot(m.snapshots, content, n), ..m },
        None => m,
    }
}

/// The cache portion of the engine model.
#[verifier::ext_equal]
pub struct CacheModel {
    pub entries: Map<Seq<char>, Seq<char>>,
    pub recency: Seq<Seq<char>>,
    pub capacity: nat,
}

/// The cache and the output after one batch item: a hit is served and
/// refreshed, a miss is recomputed and written back.
pub open spec fn one_request(c: CacheModel, level: CompressionLevel, req: Seq<char>) -> (
    CacheModel,
    Seq<char>,
) {
    if c.entries.contains_key(req) {
        (CacheModel { recency: touch(c.recency, req), ..c }, c.entries[req])
    } else {
        (
            CacheModel {
                entries: put_entries(c.entries, c.recency, c.capacity, req, optimized_of(level, req)),
                recency: put_recency(c.entries, c.recency, c.capacity, req),
                ..c
            },
            optimized_of(level, req),
        )
    }
}

/// The cache after a whole batch, processed in request order.
pub open spec fn batch_cache(c: CacheModel, level: CompressionLevel, reqs: Seq<Seq<char>>) -> CacheModel
    decreases reqs.len(),
{
    if reqs.len() == 0 {
        c
    } else {
        batch_cache(one_request(c, level, reqs.first()).0, level, reqs.drop_first())
    }
}

/// The outputs of a whole batch, in request order.
pub open spec fn batch_outputs(c: CacheModel, level: CompressionLevel, reqs: Seq<Seq<char>>) -> Seq<
    Seq<char>,
>
    decreases reqs.len(),
{
    if reqs.len() == 0 {
        Seq::empty()
    } else {
        seq![one_request(c, level, reqs.first()).1] + batch_outputs(
            one_request(c, level, reqs.first()).0,
            level,
            reqs.drop_first(),
        )
    }
}

/// The sum of the lengths of a list of texts.
pub open spec fn sum_lens(ss: Seq<Seq<char>>) -> nat
    decreases ss.len(),
{
    if ss.len() == 0 {
        0
    } else {
        sum_lens(ss.drop_last()) + ss.last().len()
    }
}

/// The cache portion of an engine model.
pub open spec fn cache_of(m: EngineModel) -> CacheModel {
    CacheModel { entries: m.entries, recency: m.recency, capacity: m.capacity }
}

/// The engine after one batch request.  A refused batch changes nothing;
/// an accepted one updates the cache, and nothing else, whether or not the
/// clock could be read for the batch identifier.
pub open spec fn batch_step_model(m: EngineModel, reqs: Seq<Seq<char>>) -> EngineModel {
    if reqs.len() == 0 || reqs.len() > MAX_BATCH {
        m
    } else {
        let c = batch_cache(cache_of(m), m.level, reqs);
        EngineModel { entries: c.entries, recency: c.recency, ..m }
    }
}

/// Folding one more request onto a processed batch is one more
/// `one_request` step; the batch executor's loop leans on this.
proof fn lemma_batch_push(c: CacheModel, level: CompressionLevel, reqs: Seq<Seq<char>>, x: Seq<char>)
    ensures
        batch_cache(c, level, reqs.push(x)) == one_request(batch_cache(c, level, reqs), level, x).0,
        batch_outputs(c, level, reqs.push(x)) =~= batch_outputs(c, level, reqs).push(
            one_request(batch_cache(c, level, reqs), level, x).1,
        ),
    decreases reqs.len(),
{
    if reqs.len() == 0 {
        assert(reqs.push(x).first() == x);
        assert(reqs.push(x).drop_first() =~= Seq::<Seq<char>>::empty());
        assert(batch_cache(c, level, reqs.push(x)) == batch_cache(
            one_request(c, level, x).0,
            level,
            Seq::<Seq<char>>::empty(),
        ));
        assert(batch_cache(one_request(c, level, x).0, level, Seq::<Seq<char>>::empty())
            == one_request(c, level, x).0);
        assert(batch_outputs(c, level, reqs.push(x)) == seq![one_request(c, level, x).1]
            + batch_outputs(one_request(c, level, x).0, level, Seq::<Seq<char>>::empty()));
        assert(batch_outputs(one_request(c, level, x).0, level, Seq::<Seq<char>>::empty())
            =~= Seq::<Seq<char>>::empty());
        assert(batch_outputs(c, level, reqs.push(x)) =~= batch_outputs(c, level, reqs).push(
            one_request(batch_cache(c, level, reqs), level, x).1,
        ));
    } else {
        assert(reqs.push(x).first() == reqs.first());
        assert(reqs.push(x).drop_first() =~= reqs.drop_first().push(x));
        lemma_batch_push(one_request(c, level, reqs.first()).0, level, reqs.drop_first(), x);
    }
}

/// The shared token-footprint optimizer: an owned bounded result cache, a
/// ring of recent raw inputs, running counters, and the fixed
/// configuration.
pub struct TokenOptimizer {
    config: OptimizationConfig,
    snapshots: Vec<Snapshot>,
    cache: lru::LruCache<String, String>,
    cache_hits: u64,
    cache_misses: u64,
    incremental_updates: u64,
}

impl View for TokenOptimizer {
    type V = EngineModel;

    closed spec fn view(&self) -> EngineModel {
        EngineModel {
            entries: cache_entries(self.cache),
            recency: cache_recency(self.cache),
            capacity: cache_capacity(self.cache),
            snapshots: Seq::new(
                self.snapshots@.len(),
                |i: int| SnapshotModel {
                    content: self.snapshots@[i].content@,
                    recorded_at: self.snapshots@[i].recorded_at,
                },
            ),
            cache_hits: self.cache_hits,
            cache_misses: self.cache_misses,
            incremental_updates: self.incremental_updates,
            level: self.config.compression_level,
        }
    }
}

impl TokenOptimizer {
    /// The engine's structural invariant: the cache is a well-formed
    /// least-recently-used map and the snapshot ring is within capacity.
    pub closed spec fn wf(&self) -> bool {
        &&& cache_wf(self.cache)
        &&& self.snapshots@.len() <= SNAPSHOT_CAPACITY
    }

    /// The configuration the engine was built with.
    pub closed spec fn spec_config(&self) -> OptimizationConfig {
        self.config
    }

    /// A well-formed engine keeps its bounds: the snapshot ring never
    /// passes its capacity, and the cache never holds more keys than it
    /// was created for.
    pub proof fn lemma_wf_bounds(&self)
        requires
            self.wf(),
        ensures
            self@.snapshots.len() <= SNAPSHOT_CAPACITY,
            self@.recency.len() <= self@.capacity,
            self@.entries.dom() =~= self@.recency.to_set(),
    {
    }

    /// Builds an engine with an empty cache, an empty snapshot ring, zeroed
    /// counters, and the Balanced compression level.
    pub fn new(batch_size: i64, window_size: i64, semantic_mode: bool) -> (r: TokenOptimizer)
        ensures
            r.wf(),
            (r@ == EngineModel {
                entries: Map::<Seq<char>, Seq<char>>::empty(),
                recency: Seq::<Seq<char>>::empty(),
                capacity: CACHE_CAPACITY as nat,
                snapshots: Seq::<SnapshotModel>::empty(),
                cache_hits: 0u64,
                cache_misses: 0u64,
                incremental_updates: 0u64,
                level: CompressionLevel::Balanced,
            }),
            (r.spec_config() == OptimizationConfig {
                batch_size,
                window_size,
                semantic_mode,
                compression_level: CompressionLevel::Balanced,
            }),
    {
        let r = TokenOptimizer {
            config: OptimizationConfig {
                batch_size,
                window_size,
                semantic_mode,
                compression_level: CompressionLevel::Balanced,
            },
            snapshots: Vec::new(),
            cache: cache_new(CACHE_CAPACITY),
            cache_hits: 0,
            cache_misses: 0,
            incremental_updates: 0,
        };
        proof {
            assert(r@.snapshots =~= Seq::<SnapshotModel>::empty());
            assert(r@ =~= EngineModel {
                entries: Map::<Seq<char>, Seq<char>>::empty(),
                recency: Seq::<Seq<char>>::empty(),
                capacity: CACHE_CAPACITY as nat,
                snapshots: Seq::<SnapshotModel>::empty(),
                cache_hits: 0u64,
                cache_misses: 0u64,
                incremental_updates: 0u64,
                level: CompressionLevel::Balanced,
            });
        }
        r
    }

    /// Runs the configured compression strategy over the text.
    fn run_strategy(&self, text: &str) -> (r: String)
        ensures
            r@ == optimized_of(self@.level, text@),
    {
        let tokens = segment(text);
        match self.config.compression_level {
            CompressionLevel::Aggressive => {
                let joined = aggressive_join(&tokens);
                let cs = chars_of(joined.as_str());
                let collapsed = collapse_repeats(&cs);
                string_of_chars(&collapsed)
            },
            CompressionLevel::Balanced => balanced_join(&tokens),
            CompressionLevel::Conservative => conservative_join(&tokens),
        }
    }

    /// The aggressive strategy, run directly: stop words dropped, known
    /// abbreviations substituted, repeated runs collapsed.
    pub fn aggressive_optimize(&self, text: &str) -> (r: String)
        ensures
            r@ == aggressive_result(segments_of(text@)),
    {
        let tokens = segment(text);
        let joined = aggressive_join(&tokens);
        let cs = chars_of(joined.as_str());
        let collapsed = collapse_repeats(&cs);
        string_of_chars(&collapsed)
    }

    /// The balanced strategy, run directly: key terms kept, other tokens
    /// abbreviated where the table allows.
    pub fn balanced_optimize(&self, text: &str) -> (r: String)
        ensures
            r@ == balanced_result(segments_of(text@)),
    {
        let tokens = segment(text);
        balanced_join(&tokens)
    }

    /// The conservative strategy, run directly: every token abbreviated
    /// where the table allows, kept verbatim otherwise.
    pub fn conservative_optimize(&self, text: &str) -> (r: String)
        ensures
            r@ == conservative_result(segments_of(text@)),
    {
        let tokens = segment(text);
        conservative_join(&tokens)
    }

    /// Scans the snapshot ring from newest to oldest for one that is fresh
    /// at `now` and whose edit script to `text` is small, and replays that
    /// script against the snapshot's raw content.
    fn incremental_core(&self, text: &str, now: u128) -> (r: Option<String>)
        ensures
            r matches Some(v) ==> incremental_hit(self@.snapshots, text@, now) && v@ == text@,
            r is None ==> !incremental_hit(self@.snapshots, text@, now),
    {
        let ghost snaps = self@.snapshots;
        let threshold = text.unicode_len() / 4;
        let mut i: usize = self.snapshots.len();
        proof {
            assert(snaps.len() == self.snapshots@.len());
        }
        while i > 0
            invariant
                0 <= i <= self.snapshots@.len(),
                snaps == self@.snapshots,
                snaps.len() == self.snapshots@.len(),
                threshold == text@.len() / 4,
                forall|j: int|
                    i <= j < snaps.len() ==> !snap_usable(#[trigger] snaps[j], text@, now),
            decreases i,
        {
            i -= 1;
            let snap = &self.snapshots[i];
            proof {
                assert(snaps[i as int].content == snap.content@);
                assert(snaps[i as int].recorded_at == snap.recorded_at);
            }
            if snap.recorded_at <= now && now - snap.recorded_at <= FRESHNESS_WINDOW_MILLIS {
                let edits = char_diff(snap.content.as_str(), text);
                let size = count_edit_size(&edits);
                if size < threshold {
                    let reconstruction = apply_edits(&edits);
                    proof {
                        assert(snap_usable(snaps[i as int], text@, now));
                        assert(incremental_hit(snaps, text@, now));
                    }
                    return Some(reconstruction);
                } else {
                    proof {
                        assert(!snap_usable(snaps[i as int], text@, now));
                    }
                }
            } else {
                proof {
                    assert(!snap_fresh(snaps[i as int], now));
                }
            }
        }
        proof {
            assert(forall|j: int| 0 <= j < snaps.len() ==> !snap_usable(#[trigger] snaps[j], text@, now));
        }
        None
    }

    /// Tries the incremental path against the clock: the reconstruction it
    /// returns always spells the requested text itself, because the edit
    /// script is replayed against the raw (not optimized) snapshot content.
    pub fn try_incremental_update(&self, text: &str) -> (r: Option<String>)
        ensures
            r matches Some(v) ==> v@ == text@,
    {
        match now_millis() {
            Some(n) => self.incremental_core(text, n),
            None => None,
        }
    }

    /// Records a raw input in the snapshot ring at a given time, evicting
    /// the oldest entry when the ring is full.
    pub fn update_snapshot_at(&mut self, content: String, now: u128)
        requires
            old(self).wf(),
        ensures
            final(self).wf(),
            final(self)@ == snapshot_step_model(old(self)@, content@, Some(now)),
            final(self).spec_config() == old(self).spec_config(),
    {
        if self.snapshots.len() >= SNAPSHOT_CAPACITY {
            self.snapshots.remove(0);
        }
        self.snapshots.push(Snapshot { content, recorded_at: now });
        proof {
            assert(final(self)@.snapshots =~= snapshot_step_model(
                old(self)@,
                content@,
                Some(now),
            ).snapshots);
            assert(final(self)@ =~= snapshot_step_model(old(self)@, content@, Some(now)));
        }
    }

    /// Records a raw input in the snapshot ring at the current time; when
    /// the clock cannot be read, nothing is recorded.
    pub fn update_state_snapshot(&mut self, content: String)
        requires
            old(self).wf(),
        ensures
            final(self).wf(),
            exists|now: Option<u128>| final(self)@ == snapshot_step_model(old(self)@, content@, now),
            final(self).spec_config() == old(self).spec_config(),
    {
        match now_millis() {
            Some(n) => {
                self.update_snapshot_at(content, n);
                proof {
                    assert(final(self)@ == snapshot_step_model(
                        old(self)@,
                        content@,
                        Some(n),
                    ));
                }
            },
            None => {
                proof {
                    assert(final(self)@ == snapshot_step_model(
                        old(self)@,
                        content@,
                        None::<u128>,
                    ));
                }
            },
        }
    }

    /// One single-text request at a given clock reading: the cache probe,
    /// then the incremental path, then full recomputation with cache and
    /// snapshot updates, exactly as `text_step_model` and `text_step_stats`
    /// describe.
    pub fn optimize_text_at(&mut self, text: &str, now: Option<u128>) -> (r: OptimizationStats)
        requires
            old(self).wf(),
        ensures
            final(self).wf(),
            final(self)@ == text_step_model(old(self)@, text@, now),
            r@ == text_step_stats(old(self)@, text@, now),
            final(self).spec_config() == old(self).spec_config(),
    {
        let original_count = text.unicode_len();
        if let Some(cached) = cache_get(&mut self.cache, text) {
            self.cache_hits = if self.cache_hits == u64::MAX {
                self.cache_hits
            } else {
                self.cache_hits + 1
            };
            let optimized_count = cached.unicode_len();
            proof {
                assert(final(self)@ =~= text_step_model(old(self)@, text@, now));
            }
            return OptimizationStats {
                original_count: original_count as u128,
                optimized_count: optimized_count as u128,
                cache_hits: self.cache_hits,
                incremental_updates: self.incremental_updates,
            };
        }
        self.cache_misses = if self.cache_misses == u64::MAX {
            self.cache_misses
        } else {
            self.cache_misses + 1
        };
        if let Some(n) = now {
            if let Some(reconstruction) = self.incremental_core(text, n) {
                self.incremental_updates = if self.incremental_updates == u64::MAX {
                    self.incremental_updates
                } else {
                    self.incremental_updates + 1
                };
                let optimized_count = reconstruction.unicode_len();
                proof {
                    assert(final(self)@ =~= text_step_model(old(self)@, text@, now));
                }
                return OptimizationStats {
                    original_count: original_count as u128,
                    optimized_count: optimized_count as u128,
                    cache_hits: self.cache_hits,
                    incremental_updates: self.incremental_updates,
                };
            }
        }
        let optimized = self.run_strategy(text);
        let optimized_count = optimized.unicode_len();
        cache_put(&mut self.cache, String::from_str(text), optimized);
        if let Some(n) = now {
            self.update_snapshot_at(String::from_str(text), n);
        }
        proof {
            assert(final(self)@ =~= text_step_model(old(self)@, text@, now));
        }
        OptimizationStats {
            original_count: original_count as u128,
            optimized_count: optimized_count as u128,
            cache_hits: self.cache_hits,
            incremental_updates: self.incremental_updates,
        }
    }

    /// One single-text request against the clock.  It never fails: for some
    /// clock reading (or none), the engine steps and reports exactly as the
    /// step functions describe.
    pub fn optimize_text(&mut self, text: String) -> (r: OptimizationStats)
        requires
            old(self).wf(),
        ensures
            final(self).wf(),
            exists|now: Option<u128>|
                final(self)@ == text_step_model(old(self)@, text@, now) && r@ == text_step_stats(
                    old(self)@,
                    text@,
                    now,
                ),
            final(self).spec_config() == old(self).spec_config(),
    {
        let now = now_millis();
        let r = self.optimize_text_at(text.as_str(), now);
        proof {
            assert(final(self)@ == text_step_model(old(self)@, text@, now) && r@
                == text_step_stats(old(self)@, text@, now));
        }
        r
    }

    /// The chunk length the batch executor hands each worker: an even share
    /// of the requests, floored at one to keep the division meaningful.
    pub fn chunk_size(len: usize, workers: usize) -> (r: usize)
        requires
            1 <= workers,
        ensures
            r == if len / workers >= 1 { (len / workers) as int } else { 1int },
    {
        let c = len / workers;
        if c == 0 {
            1
        } else {
            c
        }
    }

    /// One batch request at a given clock reading.  An empty batch and an
    /// oversized batch are refused unchanged; otherwise every request is
    /// served through the cache in order, the cache is updated, and the
    /// reply carries the outputs in request order, the summed lengths, and
    /// a batch identifier spelling the clock reading — or a clock error
    /// when there was no reading, the cache updates standing either way.
    pub fn optimize_batch_at(&mut self, requests: &Vec<String>, now: Option<u128>) -> (r: Result<
        BatchResult,
        BatchError,
    >)
        requires
            old(self).wf(),
        ensures
            final(self).wf(),
            final(self)@ == batch_step_model(old(self)@, requests.deep_view()),
            final(self).spec_config() == old(self).spec_config(),
            requests@.len() == 0 ==> (r matches Err(e) && e == BatchError::EmptyBatch),
            requests@.len() > MAX_BATCH ==> (r matches Err(e) && e == BatchError::BatchTooLarge),
            0 < requests@.len() <= MAX_BATCH ==> (match now {
                None => r matches Err(e) && e == BatchError::ClockError,
                Some(n) => r matches Ok(b) && {
                    let outs = batch_outputs(
                        cache_of(old(self)@),
                        old(self)@.level,
                        requests.deep_view(),
                    );
                    &&& b.batch_id@ == decimal_of(n as int)
                    &&& b.optimized_requests.deep_view() == outs
                    &&& b.stats@.original_count == sum_lens(requests.deep_view())
                    &&& b.stats@.optimized_count == sum_lens(outs)
                    &&& b.stats@.cache_hits == old(self)@.cache_hits
                    &&& b.stats@.incremental_updates == old(self)@.incremental_updates
                },
            }),
    {
        let ghost m0 = self@;
        let ghost dv = requests.deep_view();
        if requests.len() == 0 {
            return Err(BatchError::EmptyBatch);
        }
        if requests.len() > MAX_BATCH {
            return Err(BatchError::BatchTooLarge);
        }
        let n_reqs = requests.len();
        let mut outputs: Vec<String> = Vec::new();
        let mut i: usize = 0;
        proof {
            assert(dv.take(0) =~= Seq::<Seq<char>>::empty());
            assert(outputs.deep_view() =~= batch_outputs(cache_of(m0), m0.level, dv.take(0)));
        }
        while i < n_reqs
            invariant
                0 <= i <= n_reqs,
                n_reqs == requests@.len(),
                dv == requests.deep_view(),
                dv.len() == requests@.len(),
                old(self).wf(),
                self.wf(),
                n_reqs <= MAX_BATCH,
                self.config == old(self).config,
                self.cache_hits == m0.cache_hits,
                self.cache_misses == m0.cache_misses,
                self.incremental_updates == m0.incremental_updates,
                self@.snapshots == m0.snapshots,
                self@.capacity == m0.capacity,
                self@.level == m0.level,
                m0 == old(self)@,
                outputs@.len() == i,
                cache_of(self@) == batch_cache(cache_of(m0), m0.level, dv.take(i as int)),
                outputs.deep_view() =~= batch_outputs(cache_of(m0), m0.level, dv.take(i as int)),
            decreases n_reqs - i,
        {
            let ghost c_before = cache_of(self@);
            proof {
                assert(dv.take(i + 1 as int).drop_last() =~= dv.take(i as int));
                assert(dv.take(i + 1 as int) =~= dv.take(i as int).push(dv[i as int]));
                lemma_batch_push(cache_of(m0), m0.level, dv.take(i as int), dv[i as int]);
                assert(requests@[i as int]@ == dv[i as int]);
            }
            let req = &requests[i];
            match cache_get(&mut self.cache, req.as_str()) {
                Some(cached) => {
                    outputs.push(cached);
                    proof {
                        assert(one_request(c_before, m0.level, dv[i as int]).0 == cache_of(self@));
                    }
                },
                None => {
                    let optimized = self.run_strategy(req.as_str());
                    cache_put(&mut self.cache, String::from_str(req.as_str()), optimized.clone());
                    outputs.push(optimized);
                    proof {
                        assert(one_request(c_before, m0.level, dv[i as int]).0 == cache_of(self@));
                    }
                },
            }
            proof {
                assert(outputs.deep_view() =~= batch_outputs(cache_of(m0), m0.level, dv.take(i + 1 as int)));
            }
            i += 1;
        }
        proof {
            assert(dv.take(n_reqs as int) =~= dv);
            assert(cache_of(self@) == batch_cache(cache_of(m0), m0.level, dv));
            assert(self@.entries == batch_cache(cache_of(m0), m0.level, dv).entries);
            assert(self@.recency == batch_cache(cache_of(m0), m0.level, dv).recency);
            assert(final(self)@ =~= batch_step_model(old(self)@, dv));
        }
        let original_total = Self::total_len(requests);
        let optimized_total = Self::total_len(&outputs);
        match now {
            Some(n) => Ok(
                BatchResult {
                    batch_id: decimal_string(n),
                    optimized_requests: outputs,
                    stats: OptimizationStats {
                        original_count: original_total,
                        optimized_count: optimized_total,
                        cache_hits: self.cache_hits,
                        incremental_updates: self.incremental_updates,
                    },
                },
            ),
            None => Err(BatchError::ClockError),
        }
    }

    /// The summed character counts of a list of texts, wide enough that no
    /// admissible batch can overflow it.
    fn total_len(texts: &Vec<String>) -> (r: u128)
        requires
            texts@.len() <= 0xffff_ffff_ffff_ffff,
        ensures
            r == sum_lens(texts.deep_view()),
    {
        let ghost dv = texts.deep_view();
        let mut acc: u128 = 0;
        let mut i: usize = 0;
        proof {
            assert(dv.take(0) =~= Seq::<Seq<char>>::empty());
        }
        while i < texts.len()
            invariant
                0 <= i <= texts@.len(),
                texts@.len() <= 0xffff_ffff_ffff_ffff,
                dv == texts.deep_view(),
                dv.len() == texts@.len(),
                acc == sum_lens(dv.take(i as int)),
                acc <= i * 0xffff_ffff_ffff_ffff,
            decreases texts@.len() - i,
        {
            let l = texts[i].as_str().unicode_len();
            proof {
                assert(dv.take(i + 1 as int).drop_last() =~= dv.take(i as int));
                assert(dv.take(i + 1 as int).last() == dv[i as int]);
                assert(dv[i as int] == texts@[i as int]@);
                assert(l <= 0xffff_ffff_ffff_ffff);
                assert((i + 1) * 0xffff_ffff_ffff_ffff == i * 0xffff_ffff_ffff_ffff
                    + 0xffff_ffff_ffff_ffff) by (nonlinear_arith);
            }
            acc = acc + (l as u128);
            i += 1;
        }
        proof {
            assert(dv.take(dv.len() as int) =~= dv);
        }
        acc
    }

    /// One batch request against the clock: refusals and the accepted path
    /// exactly as at a given reading, with the reading supplied by the
    /// system clock.
    pub fn optimize_batch(&mut self, requests: Vec<String>) -> (r: Result<BatchResult, BatchError>)
        requires
            old(self).wf(),
        ensures
            final(self).wf(),
            final(self)@ == batch_step_model(old(self)@, requests.deep_view()),
            final(self).spec_config() == old(self).spec_config(),
            requests@.len() == 0 ==> (r matches Err(e) && e == BatchError::EmptyBatch),
            requests@.len() > MAX_BATCH ==> (r matches Err(e) && e == BatchError::BatchTooLarge),
            0 < requests@.len() <= MAX_BATCH ==> match r {
                Ok(b) => {
                    let outs = batch_outputs(
                        cache_of(old(self)@),
                        old(self)@.level,
                        requests.deep_view(),
                    );
                    &&& b.optimized_requests.deep_view() == outs
                    &&& b.stats@.original_count == sum_lens(requests.deep_view())
                    &&& b.stats@.optimized_count == sum_lens(outs)
                    &&& b.stats@.cache_hits == old(self)@.cache_hits
                    &&& b.stats@.incremental_updates == old(self)@.incremental_updates
                    &&& exists|n: u128| b.batch_id@ == decimal_of(n as int)
                },
                Err(e) => e == BatchError::ClockError,
            },
    {
        let now = now_millis();
        let r = self.optimize_batch_at(&requests, now);
        proof {
            if 0 < requests@.len() <= MAX_BATCH {
                if let Some(n) = now {
                    assert(r matches Ok(b) ==> b.batch_id@ == decimal_of(n as int));
                }
            }
        }
        r
    }
}

} // verus!
