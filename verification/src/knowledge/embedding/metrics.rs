//! Counters of embedding work.
use vstd::prelude::*;

verus! {

/// `a + b` wrapped around at 2^64, as the counters add.
pub open spec fn wrap_add(a: u64, b: u64) -> u64 {
    if a + b > u64::MAX {
        (a + b - u64::MAX - 1) as u64
    } else {
        (a + b) as u64
    }
}

/// The counters of an [`EmbeddingMetrics`].
#[derive(Debug, Clone, Copy, PartialEq, Eq)]
pub struct MetricsCounts {
    /// Single embeddings made.
    pub total_embeddings: u64,
    /// Texts embedded in batches.
    pub total_batch_embeddings: u64,
    /// Time spent embedding, in milliseconds.
    pub total_embedding_time_ms: u64,
    /// Cache lookups that found an embedding.
    pub cache_hits: u64,
    /// Cache lookups that found none.
    pub cache_misses: u64,
    /// Model loads.
    pub model_load_count: u64,
    /// Time spent loading models, in milliseconds.
    pub total_model_load_time_ms: u64,
}

/// All counters at zero.
pub open spec fn zero_counts() -> MetricsCounts {
    MetricsCounts {
        total_embeddings: 0,
        total_batch_embeddings: 0,
        total_embedding_time_ms: 0,
        cache_hits: 0,
        cache_misses: 0,
        model_load_count: 0,
        total_model_load_time_ms: 0,
    }
}

/// Counts embedding work; every counter wraps around at 2^64.
///
/// There is one set of counters per value, and the value has one owner: the
/// type is neither `Clone` nor `Copy`, so no second value can hold a stale or
/// diverging copy of the counters.  Code that shares the counters among several
/// users holds the one value behind a lock; every record and every reset made
/// through the lock is then seen by all its users.
#[derive(Debug)]
pub struct EmbeddingMetrics {
    counts: MetricsCounts,
}

impl View for EmbeddingMetrics {
    type V = MetricsCounts;

    closed spec fn view(&self) -> MetricsCounts {
        self.counts
    }
}

impl EmbeddingMetrics {
    /// Metrics with every counter at zero.
    pub fn new() -> (r: Self)
        ensures
            r@ == zero_counts(),
    {
        EmbeddingMetrics {
            counts: MetricsCounts {
                total_embeddings: 0,
                total_batch_embeddings: 0,
                total_embedding_time_ms: 0,
                cache_hits: 0,
                cache_misses: 0,
                model_load_count: 0,
                total_model_load_time_ms: 0,
            },
        }
    }

    /// Records one embedding that took `duration_ms`.
    pub fn record_embedding(&mut self, duration_ms: u64)
        ensures
            final(self)@ == (MetricsCounts {
                total_embeddings: wrap_add(old(self)@.total_embeddings, 1),
                total_embedding_time_ms: wrap_add(old(self)@.total_embedding_time_ms, duration_ms),
                ..old(self)@
            }),
    {
        self.counts.total_embeddings = self.counts.total_embeddings.wrapping_add(1);
        self.counts.total_embedding_time_ms = self.counts.total_embedding_time_ms.wrapping_add(duration_ms);
    }

    /// Records a batch of `count` embeddings that took `duration_ms`.
    pub fn record_batch_embedding(&mut self, count: u64, duration_ms: u64)
        ensures
            final(self)@ == (MetricsCounts {
                total_batch_embeddings: wrap_add(old(self)@.total_batch_embeddings, count),
                total_embedding_time_ms: wrap_add(old(self)@.total_embedding_time_ms, duration_ms),
                ..old(self)@
            }),
    {
        self.counts.total_batch_embeddings = self.counts.total_batch_embeddings.wrapping_add(count);
        self.counts.total_embedding_time_ms = self.counts.total_embedding_time_ms.wrapping_add(duration_ms);
    }

    /// Records a cache hit.
    pub fn record_cache_hit(&mut self)
        ensures
            final(self)@ == (MetricsCounts { cache_hits: wrap_add(old(self)@.cache_hits, 1), ..old(self)@ }),
    {
        self.counts.cache_hits = self.counts.cache_hits.wrapping_add(1);
    }

    /// Records a cache miss.
    pub fn record_cache_miss(&mut self)
        ensures
            final(self)@ == (MetricsCounts { cache_misses: wrap_add(old(self)@.cache_misses, 1), ..old(self)@ }),
    {
        self.counts.cache_misses = self.counts.cache_misses.wrapping_add(1);
    }

    /// Records a model load that took `duration_ms`.
    pub fn record_model_load(&mut self, duration_ms: u64)
        ensures
            final(self)@ == (MetricsCounts {
                model_load_count: wrap_add(old(self)@.model_load_count, 1),
                total_model_load_time_ms: wrap_add(old(self)@.total_model_load_time_ms, duration_ms),
                ..old(self)@
            }),
    {
        self.counts.model_load_count = self.counts.model_load_count.wrapping_add(1);
        self.counts.total_model_load_time_ms = self.counts.total_model_load_time_ms.wrapping_add(duration_ms);
    }

    /// Single embeddings made.
    pub fn total_embeddings(&self) -> (r: u64)
        ensures
            r == self@.total_embeddings,
    {
        self.counts.total_embeddings
    }

    /// Texts embedded in batches.
    pub fn total_batch_embeddings(&self) -> (r: u64)
        ensures
            r == self@.total_batch_embeddings,
    {
        self.counts.total_batch_embeddings
    }

    /// Every counter, at once.
    pub fn counts(&self) -> (r: MetricsCounts)
        ensures
            r == self@,
    {
        self.counts
    }

    /// Sets every counter back to zero.
    pub fn reset(&mut self)
        ensures
            final(self)@ == zero_counts(),
    {
        self.counts = MetricsCounts {
            total_embeddings: 0,
            total_batch_embeddings: 0,
            total_embedding_time_ms: 0,
            cache_hits: 0,
            cache_misses: 0,
            model_load_count: 0,
            total_model_load_time_ms: 0,
        };
    }
}

impl Default for EmbeddingMetrics {
    /// Metrics with every counter at zero.
    fn default() -> (r: Self)
        ensures
            r@ == zero_counts(),
    {
        EmbeddingMetrics::new()
    }
}

} // verus!
