//! Splitting texts into batches for embedding.
use vstd::prelude::*;

verus! {

/// Batch settings.
#[derive(Debug, Clone, Copy)]
pub struct BatchConfig {
    /// Number of texts per batch.
    pub batch_size: usize,
    /// Number of queued texts before processing starts.
    pub max_queue_size: usize,
}

impl BatchConfig {
    /// Batches of `batch_size`, with a queue of ten batches.
    pub fn new(batch_size: usize) -> (r: Self)
        requires
            batch_size * 10 <= usize::MAX,
        ensures
            r.batch_size == batch_size,
            r.max_queue_size == batch_size * 10,
    {
        BatchConfig { batch_size, max_queue_size: batch_size * 10 }
    }

    /// The settings with a queue of `size` texts.
    pub fn with_max_queue_size(self, size: usize) -> (r: Self)
        ensures
            r.batch_size == self.batch_size,
            r.max_queue_size == size,
    {
        let mut c = self;
        c.max_queue_size = size;
        c
    }
}

impl Default for BatchConfig {
    /// Batches of 32 with a queue of 320.
    fn default() -> (r: Self)
        ensures
            r.batch_size == 32,
            r.max_queue_size == 320,
    {
        BatchConfig { batch_size: 32, max_queue_size: 320 }
    }
}

/// `s` cut into consecutive pieces of `b` items, the last possibly shorter (as
/// `slice::chunks` cuts it).
pub open spec fn spec_chunks<T>(s: Seq<T>, b: nat) -> Seq<Seq<T>>
    decreases s.len(),
{
    if s.len() == 0 || b == 0 {
        Seq::empty()
    } else if s.len() <= b {
        seq![s]
    } else {
        seq![s.subrange(0, b as int)] + spec_chunks(s.subrange(b as int, s.len() as int), b)
    }
}

/// The concatenation of pieces.
pub open spec fn flatten<T>(parts: Seq<Seq<T>>) -> Seq<T>
    decreases parts.len(),
{
    if parts.len() == 0 {
        Seq::empty()
    } else {
        parts[0] + flatten(parts.drop_first())
    }
}

/// Cuts texts into batches.
#[derive(Debug, Clone, Copy)]
pub struct BatchProcessor {
    config: BatchConfig,
}

impl BatchProcessor {
    /// The settings of the processor.
    pub closed spec fn spec_config(&self) -> BatchConfig {
        self.config
    }

    /// A processor with the given settings.
    pub fn new(config: BatchConfig) -> (r: Self)
        ensures
            r.spec_config() == config,
    {
        BatchProcessor { config }
    }

    /// `texts` cut into consecutive batches of the configured size, the last
    /// possibly shorter.
    pub fn split_into_batches<'a>(&self, texts: &[&'a str]) -> (r: Vec<Vec<&'a str>>)
        requires
            self.spec_config().batch_size > 0,
        ensures
            r@.map_values(|v: Vec<&'a str>| v@) == spec_chunks(texts@, self.spec_config().batch_size as nat),
    {
        let b = self.config.batch_size;
        let ghost s = texts@;
        let n = texts.len();
        let mut r: Vec<Vec<&'a str>> = Vec::new();
        let mut start: usize = 0;
        proof {
            assert(s.subrange(0, n as int) =~= s);
            assert(r@.map_values(|v: Vec<&'a str>| v@) + spec_chunks(s.subrange(0, n as int), b as nat) =~= spec_chunks(s, b as nat));
        }
        while start < n
            invariant
                start <= n,
                n == s.len(),
                s == texts@,
                b == self.spec_config().batch_size,
                b > 0,
                r@.map_values(|v: Vec<&'a str>| v@) + spec_chunks(s.subrange(start as int, n as int), b as nat) == spec_chunks(s, b as nat),
            decreases n - start,
        {
            let end = if n - start <= b { n } else { start + b };
            let mut batch: Vec<&'a str> = Vec::new();
            let mut k = start;
            while k < end
                invariant
                    start <= k <= end <= n,
                    n == texts@.len(),
                    batch@ == texts@.subrange(start as int, k as int),
                decreases end - k,
            {
                batch.push(texts[k]);
                proof {
                    assert(batch@ =~= texts@.subrange(start as int, k + 1));
                }
                k = k + 1;
            }
            let ghost r0 = r@;
            let ghost rest = s.subrange(start as int, n as int);
            r.push(batch);
            proof {
                assert(r@.map_values(|v: Vec<&'a str>| v@) =~= r0.map_values(|v: Vec<&'a str>| v@).push(s.subrange(start as int, end as int)));
                if n - start <= b {
                    assert(rest =~= s.subrange(start as int, end as int));
                    assert(s.subrange(end as int, n as int) =~= Seq::<&'a str>::empty());
                    assert(spec_chunks(rest, b as nat) == seq![rest]);
                } else {
                    assert(rest.subrange(0, b as int) =~= s.subrange(start as int, end as int));
                    assert(rest.subrange(b as int, rest.len() as int) =~= s.subrange(end as int, n as int));
                }
                assert(r@.map_values(|v: Vec<&'a str>| v@) + spec_chunks(s.subrange(end as int, n as int), b as nat) =~= spec_chunks(s, b as nat));
            }
            start = end;
        }
        proof {
            assert(s.subrange(n as int, n as int) =~= Seq::<&'a str>::empty());
            assert(r@.map_values(|v: Vec<&'a str>| v@) + Seq::<Seq<&'a str>>::empty() =~= r@.map_values(|v: Vec<&'a str>| v@));
        }
        r
    }

    /// The batch size to use for `text_count` texts: all of them when they fit
    /// into one batch, else the configured size.
    pub fn recommended_batch_size(&self, text_count: usize) -> (r: usize)
        ensures
            r == (if text_count <= self.spec_config().batch_size {
                text_count
            } else {
                self.spec_config().batch_size
            }),
    {
        if text_count <= self.config.batch_size {
            text_count
        } else {
            self.config.batch_size
        }
    }

    /// The processor's settings.
    pub fn config(&self) -> (r: &BatchConfig)
        ensures
            *r == self.spec_config(),
    {
        &self.config
    }
}

impl Default for BatchProcessor {
    /// A processor with the default settings.
    fn default() -> (r: Self)
        ensures
            r.spec_config().batch_size == 32,
            r.spec_config().max_queue_size == 320,
    {
        BatchProcessor::new(BatchConfig::default())
    }
}

/// The batches hold the texts, in order, each text once: cutting and then
/// concatenating gives the texts back.
pub proof fn lemma_batches_concatenate<T>(s: Seq<T>, b: nat)
    requires
        b > 0,
    ensures
        flatten(spec_chunks(s, b)) == s,
    decreases s.len(),
{
    if s.len() == 0 {
    } else if s.len() <= b {
        let c = spec_chunks(s, b);
        assert(c.drop_first() =~= Seq::<Seq<T>>::empty());
        assert(flatten(c.drop_first()) == Seq::<T>::empty());
        assert(flatten(c) == c[0] + flatten(c.drop_first()));
        assert(flatten(c) =~= s);
    } else {
        let rest = s.subrange(b as int, s.len() as int);
        lemma_batches_concatenate(rest, b);
        let c = spec_chunks(s, b);
        assert(c.drop_first() =~= spec_chunks(rest, b));
        assert(s.subrange(0, b as int) + rest =~= s);
    }
}

/// Every batch holds between one and `b` texts, all but the last exactly `b`, and
/// there are as many batches as `b`-sized pieces are needed.
pub proof fn lemma_batch_sizes<T>(s: Seq<T>, b: nat)
    requires
        b > 0,
    ensures
        forall|i: int| 0 <= i < spec_chunks(s, b).len() ==> 0 < (#[trigger] spec_chunks(s, b)[i]).len() <= b,
        forall|i: int| 0 <= i < spec_chunks(s, b).len() - 1 ==> (#[trigger] spec_chunks(s, b)[i]).len() == b,
        spec_chunks(s, b).len() * b >= s.len(),
        spec_chunks(s, b).len() == 0 || (spec_chunks(s, b).len() - 1) * b < s.len(),
    decreases s.len(),
{
    if s.len() == 0 {
        assert(spec_chunks(s, b).len() * b == 0);
    } else if s.len() <= b {
        assert(spec_chunks(s, b).len() == 1);
        assert(1 * b == b);
        assert(0 * b == 0);
    } else {
        let rest = s.subrange(b as int, s.len() as int);
        lemma_batch_sizes(rest, b);
        let c = spec_chunks(s, b);
        let cr = spec_chunks(rest, b);
        assert(c.len() == cr.len() + 1);
        assert forall|i: int| 0 < i < c.len() implies c[i] == cr[i - 1] by {
            assert(c[i] == cr[i - 1]);
        }
        assert(rest.len() == s.len() - b);
        assert(c.len() * b == cr.len() * b + b) by (nonlinear_arith)
            requires
                c.len() == cr.len() + 1,
        ;
        assert(cr.len() > 0);
        assert((c.len() - 1) * b == (cr.len() - 1) * b + b) by (nonlinear_arith)
            requires
                c.len() == cr.len() + 1,
                cr.len() > 0,
        ;
    }
}

} // verus!
