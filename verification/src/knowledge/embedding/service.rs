//! Settings of the embedding service.
use vstd::prelude::*;
use crate::knowledge::embedding::backend::errors::{backend_error_text, BackendError};
use crate::knowledge::embedding::backend::registry::BackendConfig;
use crate::knowledge::embedding::cache::copy_components;
use crate::knowledge::embedding::metrics::{wrap_add, EmbeddingMetrics, MetricsCounts};
use crate::strmap::StrMap;
use crate::text::{join2, owned};
use vstd::string::StrSliceExecFns;

verus! {

/// Settings of the embedding service.
#[derive(Debug, Clone)]
pub struct EmbeddingServiceConfig {
    /// Which backend to use.
    pub backend: BackendConfig,
    /// Number of texts per batch.
    pub batch_size: usize,
    /// Whether embeddings are cached.
    pub cache_enabled: bool,
    /// Whether embeddings are normalized.
    pub normalize: bool,
}

impl EmbeddingServiceConfig {
    /// The default backend, batches of 32, with caching and normalization.
    pub fn new() -> (r: Self)
        ensures
            r.backend.provider@ == "bge-small"@,
            r.backend.model_path is None,
            r.batch_size == 32,
            r.cache_enabled,
            r.normalize,
    {
        EmbeddingServiceConfig { backend: BackendConfig::default(), batch_size: 32, cache_enabled: true, normalize: true }
    }

    /// The default settings with the backend `backend`.
    pub fn with_backend(backend: &str) -> (r: Self)
        ensures
            r.backend.provider@ == backend@,
            r.backend.model_path is None,
            r.batch_size == 32,
            r.cache_enabled,
            r.normalize,
    {
        EmbeddingServiceConfig { backend: BackendConfig::new(backend), ..Self::new() }
    }
}

impl Default for EmbeddingServiceConfig {
    /// The default settings.
    fn default() -> (r: Self)
        ensures
            r.backend.provider@ == "bge-small"@,
            r.backend.model_path is None,
            r.batch_size == 32,
            r.cache_enabled,
            r.normalize,
    {
        Self::new()
    }
}

/// What the service's backend is and can do.
#[derive(Debug, Clone)]
pub struct BackendInfo {
    pub model_name: String,
    pub dimension: usize,
    pub supports_batch: bool,
    pub supports_gpu: bool,
    pub supports_cpu: bool,
}

/// The cache and counters of the embedding service: vectors (of components of
/// type `T`) cached by the text they embed, and the service's metrics.
pub struct ServiceState<T> {
    cache: StrMap<Vec<T>>,
    metrics: EmbeddingMetrics,
    cache_enabled: bool,
}

/// The cache after storing the embeddings of a batch, text by text in order.
pub open spec fn cache_batch<T>(m: Map<Seq<char>, Seq<T>>, texts: Seq<Seq<char>>, vs: Seq<Seq<T>>) -> Map<Seq<char>, Seq<T>>
    decreases texts.len(),
{
    if texts.len() == 0 || vs.len() == 0 {
        m
    } else {
        cache_batch(m.insert(texts[0], vs[0]), texts.drop_first(), vs.drop_first())
    }
}

impl<T: Copy> ServiceState<T> {
    /// The cached vectors by text.
    pub closed spec fn cached(&self) -> Map<Seq<char>, Seq<T>> {
        self.cache@.map_values(|v: Vec<T>| v@)
    }

    /// The counters.
    pub closed spec fn counts(&self) -> MetricsCounts {
        self.metrics@
    }

    /// Whether embeddings are cached.
    pub closed spec fn spec_cache_enabled(&self) -> bool {
        self.cache_enabled
    }

    /// An empty cache, counters at zero.
    pub fn new(cache_enabled: bool) -> (r: Self)
        ensures
            r.cached() == Map::<Seq<char>, Seq<T>>::empty(),
            r.counts() == crate::knowledge::embedding::metrics::zero_counts(),
            r.spec_cache_enabled() == cache_enabled,
    {
        let r = ServiceState { cache: StrMap::new(), metrics: EmbeddingMetrics::new(), cache_enabled };
        proof {
            assert(r.cached() =~= Map::<Seq<char>, Seq<T>>::empty());
        }
        r
    }

    /// The first half of embedding `text`: empty text is refused; with the cache
    /// on, a cached vector is a hit and is the answer; anything else is a miss,
    /// to be embedded by the backend.
    pub fn begin_embed(&mut self, text: &str) -> (r: Result<Option<Vec<T>>, String>)
        ensures
            final(self).cached() == old(self).cached(),
            final(self).spec_cache_enabled() == old(self).spec_cache_enabled(),
            text@.len() == 0 ==> (r matches Err(e) && e@ == "Text cannot be empty"@) && final(self).counts() == old(
                self,
            ).counts(),
            text@.len() > 0 && old(self).spec_cache_enabled() && old(self).cached().dom().contains(text@) ==> (r matches Ok(
                Some(v),
            ) && v@ == old(self).cached()[text@]) && final(self).counts() == (MetricsCounts {
                cache_hits: wrap_add(old(self).counts().cache_hits, 1),
                ..old(self).counts()
            }),
            text@.len() > 0 && !(old(self).spec_cache_enabled() && old(self).cached().dom().contains(text@)) ==> r
                == Ok::<Option<Vec<T>>, String>(None) && final(self).counts() == (MetricsCounts {
                cache_misses: wrap_add(old(self).counts().cache_misses, 1),
                ..old(self).counts()
            }),
    {
        if text.unicode_len() == 0 {
            return Err(owned("Text cannot be empty"));
        }
        if self.cache_enabled {
            let found = match self.cache.get(text) {
                Some(v) => Some(copy_components(v)),
                None => None,
            };
            if let Some(v) = found {
                self.metrics.record_cache_hit();
                return Ok(Some(v));
            }
        }
        self.metrics.record_cache_miss();
        Ok(None)
    }

    /// The second half of embedding `text` after a miss, given what the backend
    /// answered (already normalized when the service normalizes): a failure
    /// becomes the service's error; a vector is cached (with the cache on),
    /// counted with `duration_ms`, and is the answer.
    pub fn finish_embed(&mut self, text: &str, outcome: Result<Vec<T>, BackendError>, duration_ms: u64) -> (r: Result<Vec<T>, String>)
        ensures
            final(self).spec_cache_enabled() == old(self).spec_cache_enabled(),
            outcome is Err ==> final(self).cached() == old(self).cached() && final(self).counts() == old(self).counts(),
            outcome matches Err(e) ==> (r matches Err(m) && m@ == "Backend embedding failed: "@ + backend_error_text(e)),
            outcome matches Ok(v) ==> r == Ok::<Vec<T>, String>(v) && final(self).counts() == (MetricsCounts {
                total_embeddings: wrap_add(old(self).counts().total_embeddings, 1),
                total_embedding_time_ms: wrap_add(old(self).counts().total_embedding_time_ms, duration_ms),
                ..old(self).counts()
            }) && final(self).cached() == (if old(self).spec_cache_enabled() {
                old(self).cached().insert(text@, v@)
            } else {
                old(self).cached()
            }),
    {
        match outcome {
            Err(e) => Err(join2("Backend embedding failed: ", e.to_string().as_str())),
            Ok(v) => {
                if self.cache_enabled {
                    let ghost before = self.cache@;
                    self.cache.insert(owned(text), copy_components(&v));
                    proof {
                        assert(self.cached() =~= before.map_values(|w: Vec<T>| w@).insert(text@, v@));
                    }
                }
                self.metrics.record_embedding(duration_ms);
                Ok(v)
            },
        }
    }

    /// Caches the embeddings of a batch (with the cache on): text `i` of
    /// `texts` gets vector `i` of `embeddings`, in order, as far as both go.
    pub fn store_batch(&mut self, texts: &[&str], embeddings: &Vec<Vec<T>>)
        ensures
            final(self).cached() == (if old(self).spec_cache_enabled() {
                cache_batch(old(self).cached(), texts@.map_values(|t: &str| t@), embeddings@.map_values(|v: Vec<T>| v@))
            } else {
                old(self).cached()
            }),
            final(self).counts() == old(self).counts(),
            final(self).spec_cache_enabled() == old(self).spec_cache_enabled(),
    {
        if !self.cache_enabled {
            return;
        }
        let ghost ts = texts@.map_values(|t: &str| t@);
        let ghost vs = embeddings@.map_values(|v: Vec<T>| v@);
        let ghost target = cache_batch(self.cached(), ts, vs);
        let n = if texts.len() < embeddings.len() { texts.len() } else { embeddings.len() };
        let mut i: usize = 0;
        proof {
            assert(ts.skip(0) =~= ts);
            assert(vs.skip(0) =~= vs);
        }
        while i < n
            invariant
                i <= n,
                n <= texts@.len(),
                n <= embeddings@.len(),
                n == texts@.len() || n == embeddings@.len(),
                ts == texts@.map_values(|t: &str| t@),
                vs == embeddings@.map_values(|v: Vec<T>| v@),
                self.cache_enabled,
                target == cache_batch(self.cached(), ts.skip(i as int), vs.skip(i as int)),
                self.counts() == old(self).counts(),
            decreases n - i,
        {
            let ghost before = self.cache@;
            proof {
                assert(ts.skip(i as int)[0] == texts@[i as int]@);
                assert(vs.skip(i as int)[0] == embeddings@[i as int]@);
                assert(ts.skip(i as int).drop_first() =~= ts.skip(i + 1));
                assert(vs.skip(i as int).drop_first() =~= vs.skip(i + 1));
            }
            self.cache.insert(owned(texts[i]), copy_components(&embeddings[i]));
            proof {
                assert(self.cached() =~= before.map_values(|w: Vec<T>| w@).insert(texts@[i as int]@, embeddings@[i as int]@));
            }
            i = i + 1;
        }
        proof {
            if n == texts@.len() {
                assert(ts.skip(n as int).len() == 0);
            } else {
                assert(vs.skip(n as int).len() == 0);
            }
        }
    }

    /// Counts a batch of `count` texts embedded in `duration_ms`.
    pub fn finish_batch(&mut self, count: u64, duration_ms: u64)
        ensures
            final(self).cached() == old(self).cached(),
            final(self).spec_cache_enabled() == old(self).spec_cache_enabled(),
            final(self).counts() == (MetricsCounts {
                total_batch_embeddings: wrap_add(old(self).counts().total_batch_embeddings, count),
                total_embedding_time_ms: wrap_add(old(self).counts().total_embedding_time_ms, duration_ms),
                ..old(self).counts()
            }),
    {
        self.metrics.record_batch_embedding(count, duration_ms);
    }

    /// The error of a failed batch.
    pub fn batch_failure(e: &BackendError) -> (r: String)
        ensures
            r@ == "Batch embedding failed: "@ + backend_error_text(*e),
    {
        join2("Batch embedding failed: ", e.to_string().as_str())
    }

    /// Empties the cache.
    pub fn clear_cache(&mut self)
        ensures
            final(self).cached() == Map::<Seq<char>, Seq<T>>::empty(),
            final(self).counts() == old(self).counts(),
            final(self).spec_cache_enabled() == old(self).spec_cache_enabled(),
    {
        self.cache.clear();
        proof {
            assert(self.cached() =~= Map::<Seq<char>, Seq<T>>::empty());
        }
    }

    /// Number of cached texts.
    pub fn cache_size(&self) -> (r: usize)
        ensures
            r == self.cached().dom().len(),
    {
        let r = self.cache.len();
        proof {
            assert(self.cached().dom() =~= self.cache@.dom());
        }
        r
    }

    /// The counters.
    pub fn metrics(&self) -> (r: MetricsCounts)
        ensures
            r == self.counts(),
    {
        self.metrics.counts()
    }
}

} // verus!
