//! The choice of how search results are re-ranked.
use vstd::prelude::*;
use crate::text::{chars_of, is_whitespace, join_strings, push_str, spec_is_whitespace, spec_join, str_eq, str_views, copy_string};

verus! {

/// How search results are re-ranked.
#[derive(Debug, Clone, Copy, PartialEq, Eq)]
pub enum RerankingStrategy {
    /// Keep the order as given.
    KeepOrder,
    /// By relevance score, highest first.
    ByScore,
    /// By score weighted with content length.
    ByLength,
    /// Prefer results from modules not seen before.
    ByDiversity,
}

/// Re-ranks search results with a fixed strategy.
#[derive(Debug, Clone, Copy)]
pub struct SearchResultReranker {
    strategy: RerankingStrategy,
}

impl SearchResultReranker {
    /// The strategy of the reranker.
    pub closed spec fn spec_strategy(&self) -> RerankingStrategy {
        self.strategy
    }

    /// A reranker with `strategy`.
    pub fn new(strategy: RerankingStrategy) -> (r: Self)
        ensures
            r.spec_strategy() == strategy,
    {
        SearchResultReranker { strategy }
    }

    /// The reranker's strategy.
    pub fn strategy(&self) -> (r: RerankingStrategy)
        ensures
            r == self.spec_strategy(),
    {
        self.strategy
    }
}

impl Default for SearchResultReranker {
    /// Re-ranking by score.
    fn default() -> (r: Self)
        ensures
            r.spec_strategy() == RerankingStrategy::ByScore,
    {
        SearchResultReranker::new(RerankingStrategy::ByScore)
    }
}

/// For each module name, whether it is the first occurrence of that name.
pub open spec fn spec_first_seen(modules: Seq<Seq<char>>) -> Seq<bool> {
    Seq::new(modules.len(), |i: int| !modules.subrange(0, i).contains(modules[i]))
}

impl SearchResultReranker {
    /// Which results earn the diversity bonus: for the module of each result, in
    /// order, whether no earlier result had the same module.
    pub fn first_seen(modules: &[String]) -> (r: Vec<bool>)
        ensures
            r@ == spec_first_seen(str_views(modules@)),
    {
        let ghost ms = str_views(modules@);
        let mut r: Vec<bool> = Vec::new();
        let n = modules.len();
        let mut i: usize = 0;
        while i < n
            invariant
                i <= n,
                n == modules@.len(),
                ms == str_views(modules@),
                r@ == spec_first_seen(ms).subrange(0, i as int),
            decreases n - i,
        {
            let mut fresh = true;
            let mut j: usize = 0;
            while j < i
                invariant
                    j <= i,
                    i < n,
                    n == modules@.len(),
                    ms == str_views(modules@),
                    fresh == !ms.subrange(0, j as int).contains(ms[i as int]),
                decreases i - j,
            {
                let ghost before = ms.subrange(0, j as int);
                let same = str_eq(modules[j].as_str(), modules[i].as_str());
                proof {
                    assert(ms.subrange(0, j + 1) =~= before.push(ms[j as int]));
                    if same {
                        assert(ms.subrange(0, j + 1)[j as int] == ms[i as int]);
                    } else if ms.subrange(0, j + 1).contains(ms[i as int]) {
                        let k = choose|k: int| 0 <= k < j + 1 && #[trigger] ms.subrange(0, j + 1)[k] == ms[i as int];
                        assert(before[k] == ms[i as int]);
                    }
                }
                if same {
                    fresh = false;
                }
                j = j + 1;
            }
            r.push(fresh);
            proof {
                assert(r@ =~= spec_first_seen(ms).subrange(0, i + 1));
            }
            i = i + 1;
        }
        proof {
            assert(spec_first_seen(ms).subrange(0, n as int) =~= spec_first_seen(ms));
        }
        r
    }
}

/// Number of words of `s`: maximal runs of characters that are not whitespace.
pub open spec fn spec_word_count(s: Seq<char>) -> nat
    decreases s.len(),
{
    if s.len() == 0 {
        0
    } else {
        spec_word_count(s.drop_last()) + if !spec_is_whitespace(s.last()) && (s.len() == 1
            || spec_is_whitespace(s[s.len() - 2])) {
            1nat
        } else {
            0nat
        }
    }
}

/// Total number of words of `entries`.
pub open spec fn total_words(entries: Seq<Seq<char>>) -> nat
    decreases entries.len(),
{
    if entries.len() == 0 {
        0
    } else {
        total_words(entries.drop_last()) + spec_word_count(entries.last())
    }
}

/// How many leading entries fit a budget of `max_tokens` words when entries are
/// taken in order and the first one that does not fit ends the packing.
pub open spec fn packed_count(entries: Seq<Seq<char>>, max_tokens: nat) -> nat
    decreases entries.len(),
{
    if entries.len() == 0 {
        0
    } else {
        let p = packed_count(entries.drop_last(), max_tokens);
        if p == entries.len() - 1 && total_words(entries) <= max_tokens {
            entries.len()
        } else {
            p
        }
    }
}

/// Builds context text out of search results.
pub struct ContextBuilder;

impl ContextBuilder {
    /// Number of whitespace-separated words of `s`.
    pub fn word_count(s: &str) -> (r: usize)
        ensures
            r == spec_word_count(s@),
    {
        let cs = chars_of(s);
        let n = cs.len();
        let mut count: usize = 0;
        let mut i: usize = 0;
        while i < n
            invariant
                i <= n,
                n == cs@.len(),
                cs@ == s@,
                count == spec_word_count(cs@.subrange(0, i as int)),
                count <= i,
            decreases n - i,
        {
            let starts = !is_whitespace(cs[i]) && (i == 0 || is_whitespace(cs[i - 1]));
            proof {
                let p1 = cs@.subrange(0, i + 1);
                assert(p1.drop_last() =~= cs@.subrange(0, i as int));
                assert(p1.last() == cs@[i as int]);
                if i > 0 {
                    assert(p1[p1.len() - 2] == cs@[i - 1]);
                }
            }
            if starts {
                count = count + 1;
            }
            i = i + 1;
        }
        proof {
            assert(cs@.subrange(0, n as int) =~= cs@);
        }
        count
    }

    /// The leading entries that fit a budget of `max_tokens` words, concatenated:
    /// entries are taken in order while their words add up to at most the
    /// budget, and the first that would exceed it ends the context.
    pub fn pack_entries(entries: &[String], max_tokens: usize) -> (r: String)
        ensures
            r@ == spec_join(
                str_views(entries@).take(packed_count(str_views(entries@), max_tokens as nat) as int),
                Seq::empty(),
            ),
    {
        let ghost es = str_views(entries@);
        let mut context = String::new();
        let mut used: usize = 0;
        let n = entries.len();
        let mut i: usize = 0;
        while i < n
            invariant
                i <= n,
                n == entries@.len(),
                es == str_views(entries@),
                used == total_words(es.take(i as int)),
                used <= max_tokens,
                packed_count(es.take(i as int), max_tokens as nat) == i,
                context@ == spec_join(es.take(i as int), Seq::empty()),
            decreases n - i,
        {
            let w = Self::word_count(entries[i].as_str());
            let ghost t1 = es.take(i + 1);
            proof {
                assert(t1.drop_last() =~= es.take(i as int));
                assert(t1.last() == entries@[i as int]@);
            }
            if w > max_tokens - used {
                proof {
                    lemma_packed_stays(es, max_tokens as nat, i as int);
                }
                return context;
            }
            let ghost c0 = context@;
            push_str(&mut context, entries[i].as_str());
            used = used + w;
            proof {
                if i == 0 {
                    assert(c0 =~= Seq::<char>::empty());
                    assert(context@ =~= t1[0]);
                } else {
                    assert(context@ =~= c0 + Seq::<char>::empty() + t1.last());
                }
            }
            i = i + 1;
        }
        proof {
            assert(es.take(n as int) =~= es);
        }
        context
    }

    /// The contents of the first three results, separated by a horizontal rule.
    pub fn build_compact_context(contents: &[String]) -> (r: String)
        ensures
            r@ == spec_join(
                str_views(contents@).take(if contents@.len() < 3 { contents@.len() as int } else { 3 }),
                "\n\n---\n\n"@,
            ),
    {
        let k: usize = if contents.len() < 3 { contents.len() } else { 3 };
        let mut top: Vec<String> = Vec::new();
        let mut i: usize = 0;
        while i < k
            invariant
                i <= k,
                k <= contents@.len(),
                top@.len() == i,
                str_views(top@) == str_views(contents@).take(i as int),
            decreases k - i,
        {
            let ghost t0 = top@;
            top.push(copy_string(&contents[i]));
            proof {
                assert(top@ == t0.push(top@[i as int]));
                assert forall|a: int| 0 <= a < i implies str_views(top@)[a] == str_views(contents@)[a] by {
                    assert(top@[a] == t0[a]);
                    assert(str_views(t0)[a] == str_views(contents@).take(i as int)[a]);
                }
                assert(str_views(top@) =~= str_views(contents@).take(i + 1));
            }
            i = i + 1;
        }
        join_strings(&top, "\n\n---\n\n")
    }
}

/// Once an entry has been left out, no later entry is packed.
proof fn lemma_packed_stays(es: Seq<Seq<char>>, max_tokens: nat, i: int)
    requires
        0 <= i < es.len(),
        packed_count(es.take(i), max_tokens) == i,
        total_words(es.take(i + 1)) > max_tokens,
    ensures
        packed_count(es, max_tokens) == i,
    decreases es.len() - i,
{
    assert(es.take(i + 1).drop_last() =~= es.take(i));
    assert(packed_count(es.take(i + 1), max_tokens) == i);
    lemma_packed_frozen(es, max_tokens, i + 1);
}

/// A prefix that packed fewer entries than it has fixes the packing of every
/// longer prefix.
proof fn lemma_packed_frozen(es: Seq<Seq<char>>, max_tokens: nat, j: int)
    requires
        0 < j <= es.len(),
        packed_count(es.take(j), max_tokens) < j,
    ensures
        packed_count(es, max_tokens) == packed_count(es.take(j), max_tokens),
    decreases es.len() - j,
{
    if j == es.len() {
        assert(es.take(j) =~= es);
    } else {
        assert(es.take(j + 1).drop_last() =~= es.take(j));
        lemma_packed_frozen(es, max_tokens, j + 1);
    }
}

} // verus!
