//! Laws of the engine, stated over the same models the contracts use and
//! proved once for all inputs.

use vstd::prelude::*;
use crate::cache::cache_model_wf;
use crate::cache::lemma_put_preserves_wf;
use crate::cache::lemma_touch_preserves_wf;
use crate::lexicon::abbrev_or_self;
use crate::lexicon::abbrev_token;
use crate::lexicon::balanced_token;
use crate::lexicon::is_stop_token;
use crate::lexicon::lemma_abbrev_no_longer;
use crate::strategies::abbrev_all;
use crate::strategies::aggressive_result;
use crate::strategies::balance_all;
use crate::strategies::balanced_result;
use crate::strategies::collapse;
use crate::strategies::conservative_result;
use crate::strategies::drop_stops;
use crate::strategies::find_rep;
use crate::strategies::lemma_find_rep_bounds;
use crate::engine::batch_outputs;
use crate::engine::cache_of;
use crate::engine::incremental_hit;
use crate::engine::one_request;
use crate::engine::snap_fresh;
use crate::engine::snap_usable;
use crate::engine::sum_lens;
use crate::engine::text_step_model;
use crate::engine::text_step_stats;
use crate::engine::EngineModel;
use crate::edits::char_edit_distance;

verus! {

/// Repeating a request is served from the cache: when a first request for
/// `text` did not go down the incremental path, the text is cached
/// afterwards, and a second request for the same text reports one more
/// cache hit and the same optimized count as the first reply.
pub proof fn lemma_repeated_text_is_cache_hit(
    m: EngineModel,
    text: Seq<char>,
    n1: Option<u128>,
    n2: Option<u128>,
)
    requires
        (match n1 {
            Some(n) => m.entries.contains_key(text) || !incremental_hit(m.snapshots, text, n),
            None => true,
        }),
        m.cache_hits + 1 < u64::MAX,
    ensures
        text_step_model(m, text, n1).entries.contains_key(text),
        text_step_stats(text_step_model(m, text, n1), text, n2).optimized_count == text_step_stats(
            m,
            text,
            n1,
        ).optimized_count,
        text_step_stats(text_step_model(m, text, n1), text, n2).cache_hits == text_step_model(
            m,
            text,
            n1,
        ).cache_hits + 1,
{
    let m1 = text_step_model(m, text, n1);
    if m.entries.contains_key(text) {
        assert(m1.entries == m.entries);
    } else {
        assert(m1.entries.contains_key(text));
        assert(m1.entries[text] == crate::engine::optimized_of(m.level, text));
    }
}

/// A batch of one request aggregates to exactly that request's own
/// figures: one output, whose length is the one optimized length, and the
/// request's own length as the original total.
pub proof fn lemma_singleton_batch(m: EngineModel, req: Seq<char>)
    ensures
        batch_outputs(cache_of(m), m.level, seq![req]).len() == 1,
        sum_lens(seq![req]) == text_step_stats(m, req, None).original_count,
        sum_lens(batch_outputs(cache_of(m), m.level, seq![req])) == text_step_stats(
            m,
            req,
            None,
        ).optimized_count,
{
    let c = cache_of(m);
    let outs = batch_outputs(c, m.level, seq![req]);
    assert(seq![req].first() == req);
    assert(seq![req].drop_first() =~= Seq::<Seq<char>>::empty());
    assert(batch_outputs(one_request(c, m.level, req).0, m.level, Seq::<Seq<char>>::empty())
        =~= Seq::<Seq<char>>::empty());
    assert(outs =~= seq![one_request(c, m.level, req).1]);
    assert(seq![req].drop_last() =~= Seq::<Seq<char>>::empty());
    assert(sum_lens(Seq::<Seq<char>>::empty()) == 0);
    assert(sum_lens(seq![req]) == req.len());
    assert(outs.drop_last() =~= Seq::<Seq<char>>::empty());
    assert(sum_lens(outs) == one_request(c, m.level, req).1.len());
}

/// A token list of stop words alone reduces to the empty text under the
/// Aggressive strategy.
pub proof fn lemma_all_stop_words_vanish(toks: Seq<Seq<char>>)
    requires
        forall|i: int| 0 <= i < toks.len() ==> is_stop_token(#[trigger] toks[i]),
    ensures
        aggressive_result(toks) == Seq::<char>::empty(),
{
    lemma_drop_stops_all(toks);
    assert(abbrev_all(Seq::<Seq<char>>::empty()) =~= Seq::<Seq<char>>::empty());
    assert(Seq::<Seq<char>>::empty().flatten() =~= Seq::<char>::empty());
    assert(collapse(Seq::<char>::empty()) =~= Seq::<char>::empty());
}

proof fn lemma_drop_stops_all(toks: Seq<Seq<char>>)
    requires
        forall|i: int| 0 <= i < toks.len() ==> is_stop_token(#[trigger] toks[i]),
    ensures
        drop_stops(toks) == Seq::<Seq<char>>::empty(),
    decreases toks.len(),
{
    if toks.len() == 0 {
        assert(drop_stops(toks) =~= Seq::<Seq<char>>::empty());
    } else {
        lemma_drop_stops_all(toks.drop_last());
    }
}

/// The token the abbreviation table maps is replaced by its canonical
/// short form at every position where it appears, under Conservative.
pub proof fn lemma_conservative_substitutes(toks: Seq<Seq<char>>, i: int, short: Seq<char>)
    requires
        0 <= i < toks.len(),
        abbrev_token(toks[i]) == Some(short),
    ensures
        abbrev_all(toks).len() == toks.len(),
        abbrev_all(toks)[i] == short,
{
    lemma_abbrev_all_index(toks, i);
}

proof fn lemma_abbrev_all_index(toks: Seq<Seq<char>>, i: int)
    requires
        0 <= i < toks.len(),
    ensures
        abbrev_all(toks).len() == toks.len(),
        abbrev_all(toks)[i] == abbrev_or_self(toks[i]),
    decreases toks.len(),
{
    lemma_abbrev_all_len(toks);
    if i < toks.len() - 1 {
        lemma_abbrev_all_index(toks.drop_last(), i);
    }
}

proof fn lemma_abbrev_all_len(toks: Seq<Seq<char>>)
    ensures
        abbrev_all(toks).len() == toks.len(),
    decreases toks.len(),
{
    if toks.len() > 0 {
        lemma_abbrev_all_len(toks.drop_last());
    }
}

/// Collapsing repeated runs never lengthens a text.
pub proof fn lemma_collapse_shrinks(s: Seq<char>)
    ensures
        collapse(s).len() <= s.len(),
    decreases s.len(),
{
    if s.len() > 0 {
        lemma_find_rep_bounds(s, 2);
        let l = find_rep(s, 2);
        if l == 0 {
            lemma_collapse_shrinks(s.skip(1));
        } else {
            lemma_collapse_shrinks(s.skip(l));
        }
    }
}

proof fn lemma_cons_le_bal(toks: Seq<Seq<char>>)
    ensures
        abbrev_all(toks).flatten().len() <= balance_all(toks).flatten().len(),
    decreases toks.len(),
{
    if toks.len() > 0 {
        lemma_cons_le_bal(toks.drop_last());
        lemma_abbrev_no_longer(toks.last());
        abbrev_all(toks.drop_last()).lemma_flatten_push(abbrev_or_self(toks.last()));
        balance_all(toks.drop_last()).lemma_flatten_push(balanced_token(toks.last()));
    }
}

proof fn lemma_dropped_le_all(toks: Seq<Seq<char>>)
    ensures
        abbrev_all(drop_stops(toks)).flatten().len() <= abbrev_all(toks).flatten().len(),
    decreases toks.len(),
{
    if toks.len() > 0 {
        lemma_dropped_le_all(toks.drop_last());
        abbrev_all(toks.drop_last()).lemma_flatten_push(abbrev_or_self(toks.last()));
        if !is_stop_token(toks.last()) {
            assert(drop_stops(toks) == drop_stops(toks.drop_last()).push(toks.last()));
            assert(drop_stops(toks.drop_last()).push(toks.last()).drop_last() =~= drop_stops(
                toks.drop_last(),
            ));
            assert(drop_stops(toks.drop_last()).push(toks.last()).last() == toks.last());
            assert(abbrev_all(drop_stops(toks)) == abbrev_all(drop_stops(toks.drop_last())).push(
                abbrev_or_self(toks.last()),
            ));
            abbrev_all(drop_stops(toks.drop_last())).lemma_flatten_push(
                abbrev_or_self(toks.last()),
            );
        }
    }
}

/// Under this lexicon every canonical short form is at most as long as the
/// token it stands for, so for every token list the strategies order by
/// output length: Aggressive is no longer than Conservative, and
/// Conservative no longer than Balanced.
pub proof fn lemma_strategy_lengths(toks: Seq<Seq<char>>)
    ensures
        aggressive_result(toks).len() <= conservative_result(toks).len(),
        conservative_result(toks).len() <= balanced_result(toks).len(),
{
    lemma_collapse_shrinks(abbrev_all(drop_stops(toks)).flatten());
    lemma_dropped_le_all(toks);
    lemma_cons_le_bal(toks);
}

/// What always holds of a reachable engine model: a well-formed cache and
/// a snapshot ring within its capacity.
pub open spec fn model_wf(m: EngineModel) -> bool {
    &&& cache_model_wf(m.entries, m.recency, m.capacity)
    &&& m.snapshots.len() <= crate::engine::SNAPSHOT_CAPACITY
}

/// A single-text request preserves the structural invariants: the cache
/// keys stay unique and within capacity, and the snapshot ring stays
/// within its own.
pub proof fn lemma_text_step_preserves_wf(m: EngineModel, text: Seq<char>, now: Option<u128>)
    requires
        model_wf(m),
    ensures
        model_wf(text_step_model(m, text, now)),
{
    if m.entries.contains_key(text) {
        assert(m.recency.contains(text));
        lemma_touch_preserves_wf(m.recency, text);
    } else if now matches Some(n) && incremental_hit(m.snapshots, text, n) {
    } else {
        lemma_put_preserves_wf(
            m.entries,
            m.recency,
            m.capacity,
            text,
            crate::engine::optimized_of(m.level, text),
        );
    }
}

/// One batch item preserves the cache's structural invariants.
pub proof fn lemma_one_request_preserves_wf(
    c: crate::engine::CacheModel,
    level: crate::engine::CompressionLevel,
    req: Seq<char>,
)
    requires
        cache_model_wf(c.entries, c.recency, c.capacity),
    ensures
        ({
            let c1 = one_request(c, level, req).0;
            cache_model_wf(c1.entries, c1.recency, c1.capacity)
        }),
{
    if c.entries.contains_key(req) {
        assert(c.recency.contains(req));
        lemma_touch_preserves_wf(c.recency, req);
    } else {
        lemma_put_preserves_wf(
            c.entries,
            c.recency,
            c.capacity,
            req,
            crate::engine::optimized_of(level, req),
        );
    }
}

proof fn lemma_batch_cache_preserves_wf(
    c: crate::engine::CacheModel,
    level: crate::engine::CompressionLevel,
    reqs: Seq<Seq<char>>,
)
    requires
        cache_model_wf(c.entries, c.recency, c.capacity),
    ensures
        ({
            let c1 = crate::engine::batch_cache(c, level, reqs);
            cache_model_wf(c1.entries, c1.recency, c1.capacity) && c1.capacity == c.capacity
        }),
    decreases reqs.len(),
{
    if reqs.len() > 0 {
        lemma_one_request_preserves_wf(c, level, reqs.first());
        lemma_batch_cache_preserves_wf(one_request(c, level, reqs.first()).0, level, reqs.drop_first());
    }
}

/// A batch request preserves the structural invariants.
pub proof fn lemma_batch_step_preserves_wf(m: EngineModel, reqs: Seq<Seq<char>>)
    requires
        model_wf(m),
    ensures
        model_wf(crate::engine::batch_step_model(m, reqs)),
{
    if 0 < reqs.len() <= crate::engine::MAX_BATCH {
        lemma_batch_cache_preserves_wf(cache_of(m), m.level, reqs);
    }
}

/// A request that misses the cache but finds a fresh snapshot whose edit
/// script is small is served incrementally: the incremental counter moves,
/// nothing is cached or recorded, and the reply's optimized count is the
/// length of the requested text itself, because the edit script is
/// replayed against the snapshot's raw content.
pub proof fn lemma_fresh_snapshot_served_incrementally(
    m: EngineModel,
    text: Seq<char>,
    i: int,
    n: u128,
)
    requires
        !m.entries.contains_key(text),
        0 <= i < m.snapshots.len(),
        snap_fresh(m.snapshots[i], n),
        char_edit_distance(m.snapshots[i].content, text) < text.len() / 4,
        m.incremental_updates < u64::MAX,
    ensures
        text_step_model(m, text, Some(n)).incremental_updates == m.incremental_updates + 1,
        text_step_model(m, text, Some(n)).entries == m.entries,
        text_step_model(m, text, Some(n)).snapshots == m.snapshots,
        text_step_stats(m, text, Some(n)).optimized_count == text.len(),
        text_step_stats(m, text, Some(n)).incremental_updates == m.incremental_updates + 1,
{
    assert(snap_usable(m.snapshots[i], text, n));
    assert(incremental_hit(m.snapshots, text, n));
}

} // verus!
