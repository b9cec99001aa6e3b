//! Tokenization and text preparation for embedding.
use vstd::prelude::*;
use crate::pattern::{regex_find_all, regex_find_all_of};
use crate::strmap::StrMap;
use crate::text::{
    char_is_alphanumeric, chars_of, contains_str, copy_string, is_alphanumeric, is_whitespace, keep_nonempty, lowercase,
    spec_is_whitespace, str_eq, str_views, string_from_chars, to_lowercase,
};
use vstd::utf8::encode_utf8;
use vstd::string::StringSliceAdditionalSpecFns;

verus! {

/// The Unicode NFKD normal form of a text, as `unicode_normalization` computes it.
pub uninterp spec fn nfkd_of(s: Seq<char>) -> Seq<char>;

/// `UnicodeNormalization::nfkd` of `text`, collected into a string.
#[verifier::external_body]
fn nfkd(text: &str) -> (r: String)
    ensures
        r@ == nfkd_of(text@),
{
    unicode_normalization::UnicodeNormalization::nfkd(text).collect::<String>()
}

/// Characters kept by cleaning: alphanumerics, white space and hyphens.
pub open spec fn kept_char(c: char) -> bool {
    char_is_alphanumeric(c) || spec_is_whitespace(c) || c == '-'
}

/// `s` with every character that is not kept removed.
pub open spec fn spec_clean(s: Seq<char>) -> Seq<char>
    decreases s.len(),
{
    if s.len() == 0 {
        Seq::empty()
    } else if kept_char(s.last()) {
        spec_clean(s.drop_last()).push(s.last())
    } else {
        spec_clean(s.drop_last())
    }
}

/// The pattern of a word: a maximal run of word characters.
pub open spec fn word_pattern() -> Seq<char> {
    "\\b\\w+\\b"@
}

/// The text that is searched for words: normalized, cleaned, lower-cased.
pub open spec fn prepared_text(text: Seq<char>) -> Seq<char> {
    lowercase(spec_clean(nfkd_of(text)))
}

/// The tokens of `text`: the words of its prepared text, in order (none when the
/// word pattern could not be compiled).
pub open spec fn spec_tokens(text: Seq<char>) -> Seq<Seq<char>> {
    match regex_find_all_of(word_pattern(), prepared_text(text)) {
        Some(ms) => keep_nonempty(ms),
        None => Seq::empty(),
    }
}

/// The common English words that filtered tokenization drops.
pub open spec fn stopwords() -> Seq<Seq<char>> {
    seq![
        "a"@, "an"@, "and"@, "are"@, "as"@, "at"@, "be"@, "but"@, "by"@, "for"@, "from"@, "has"@, "he"@, "in"@,
        "is"@, "it"@, "its"@, "of"@, "on"@, "or"@, "that"@, "the"@, "to"@, "was"@, "will"@, "with"@, "i"@, "me"@,
        "you"@, "we"@, "they"@,
    ]
}

/// A token kept by filtered tokenization: longer than one byte and no stopword.
pub open spec fn kept_token(t: Seq<char>) -> bool {
    encode_utf8(t).len() > 1 && !stopwords().contains(t)
}

/// The kept tokens of `ts`, in order.
pub open spec fn keep_tokens(ts: Seq<Seq<char>>) -> Seq<Seq<char>>
    decreases ts.len(),
{
    if ts.len() == 0 {
        Seq::empty()
    } else if kept_token(ts.last()) {
        keep_tokens(ts.drop_last()).push(ts.last())
    } else {
        keep_tokens(ts.drop_last())
    }
}

/// Number of occurrences of `x` in `s`.
pub open spec fn count_of(s: Seq<Seq<char>>, x: Seq<char>) -> nat
    decreases s.len(),
{
    if s.len() == 0 {
        0
    } else {
        count_of(s.drop_last(), x) + if s.last() == x {
            1nat
        } else {
            0nat
        }
    }
}

/// Splits text into lower-case word tokens.
#[derive(Debug, Clone, Copy)]
pub struct SimpleTokenizer;

impl SimpleTokenizer {
    /// A tokenizer.
    pub fn new() -> (r: Self)
        ensures
            r == (SimpleTokenizer {}),
    {
        SimpleTokenizer
    }

    /// The NFKD normal form of `text`.
    fn normalize_unicode(text: &str) -> (r: String)
        ensures
            r@ == nfkd_of(text@),
    {
        nfkd(text)
    }

    /// `text` in lower case.
    fn lowercase(text: &str) -> (r: String)
        ensures
            r@ == lowercase(text@),
    {
        to_lowercase(text)
    }

    /// `text` without the characters that are not alphanumeric, white space or
    /// hyphens.
    fn clean_text(text: &str) -> (r: String)
        ensures
            r@ == spec_clean(text@),
    {
        let cs = chars_of(text);
        let mut kept: Vec<char> = Vec::new();
        let n = cs.len();
        let mut i: usize = 0;
        while i < n
            invariant
                i <= n,
                n == cs@.len(),
                cs@ == text@,
                kept@ == spec_clean(cs@.subrange(0, i as int)),
            decreases n - i,
        {
            let c = cs[i];
            proof {
                assert(cs@.subrange(0, i + 1).drop_last() =~= cs@.subrange(0, i as int));
            }
            if is_alphanumeric(c) || is_whitespace(c) || c == '-' {
                kept.push(c);
            }
            i = i + 1;
        }
        proof {
            assert(cs@.subrange(0, n as int) =~= cs@);
        }
        string_from_chars(kept.as_slice())
    }

    /// The word tokens of `text`: normalized, cleaned and lower-cased, in order.
    pub fn tokenize(&self, text: &str) -> (r: Vec<String>)
        ensures
            str_views(r@) == spec_tokens(text@),
    {
        let normalized = Self::normalize_unicode(text);
        let cleaned = Self::clean_text(normalized.as_str());
        let lowercased = Self::lowercase(cleaned.as_str());
        let mut tokens: Vec<String> = Vec::new();
        match regex_find_all("\\b\\w+\\b", lowercased.as_str()) {
            Some(matches) => {
                let ghost ms = str_views(matches@);
                let n = matches.len();
                let mut i: usize = 0;
                while i < n
                    invariant
                        i <= n,
                        n == matches@.len(),
                        ms == str_views(matches@),
                        str_views(tokens@) == keep_nonempty(ms.subrange(0, i as int)),
                    decreases n - i,
                {
                    proof {
                        assert(ms.subrange(0, i + 1).drop_last() =~= ms.subrange(0, i as int));
                    }
                    let ghost t0 = tokens@;
                    if matches[i].as_str().unicode_len() > 0 {
                        tokens.push(copy_string(&matches[i]));
                        proof {
                            assert(str_views(tokens@) =~= str_views(t0).push(ms[i as int]));
                        }
                    }
                    i = i + 1;
                }
                proof {
                    assert(ms.subrange(0, n as int) =~= ms);
                }
            },
            None => {
                proof {
                    assert(str_views(tokens@) =~= Seq::<Seq<char>>::empty());
                }
            },
        }
        tokens
    }

    /// The tokens of `text` without one-byte tokens and stopwords.
    pub fn tokenize_filtered(&self, text: &str) -> (r: Vec<String>)
        ensures
            str_views(r@) == keep_tokens(spec_tokens(text@)),
    {
        let tokens = self.tokenize(text);
        let ghost ts = str_views(tokens@);
        let mut r: Vec<String> = Vec::new();
        let n = tokens.len();
        let mut i: usize = 0;
        while i < n
            invariant
                i <= n,
                n == tokens@.len(),
                ts == str_views(tokens@),
                ts == spec_tokens(text@),
                str_views(r@) == keep_tokens(ts.subrange(0, i as int)),
            decreases n - i,
        {
            proof {
                assert(ts.subrange(0, i + 1).drop_last() =~= ts.subrange(0, i as int));
            }
            let t = &tokens[i];
            let ghost r0 = r@;
            let tstr = t.as_str();
            proof {
                assert(t@ == ts[i as int]);
                assert(tstr.spec_bytes() == encode_utf8(t@));
            }
            let long = tstr.as_bytes().len() > 1;
            proof {
                assert(long == (encode_utf8(t@).len() > 1));
            }
            let keep = long && !Self::is_stopword(tstr);
            proof {
                assert(keep == kept_token(ts[i as int]));
                assert(ts.subrange(0, i + 1).last() == ts[i as int]);
            }
            if keep {
                r.push(copy_string(t));
                proof {
                    assert(str_views(r@) =~= str_views(r0).push(ts[i as int]));
                }
            }
            proof {
                assert(str_views(r@) == keep_tokens(ts.subrange(0, i + 1)));
            }
            i = i + 1;
        }
        proof {
            assert(ts.subrange(0, n as int) =~= ts);
        }
        r
    }

    /// Whether `word` is one of the [`stopwords`].
    fn is_stopword(word: &str) -> (r: bool)
        ensures
            r == stopwords().contains(word@),
    {
        let words = vec![
            "a", "an", "and", "are", "as", "at", "be", "but", "by", "for", "from", "has", "he", "in", "is", "it", "its",
            "of", "on", "or", "that", "the", "to", "was", "will", "with", "i", "me", "you", "we", "they",
        ];
        proof {
            assert(words@.map_values(|s: &str| s@) =~= stopwords());
        }
        let n = words.len();
        let mut i: usize = 0;
        while i < n
            invariant
                i <= n,
                n == words@.len(),
                words@.map_values(|s: &str| s@) == stopwords(),
                forall|j: int| 0 <= j < i ==> stopwords()[j] != word@,
            decreases n - i,
        {
            if str_eq(words[i], word) {
                assert(stopwords()[i as int] == word@);
                return true;
            }
            i = i + 1;
        }
        false
    }

    /// The distinct tokens of `text`, in order of first occurrence.
    pub fn tokenize_to_set(&self, text: &str) -> (r: Vec<String>)
        ensures
            str_views(r@).no_duplicates(),
            str_views(r@).to_set() == spec_tokens(text@).to_set(),
    {
        let tokens = self.tokenize(text);
        let ghost ts = str_views(tokens@);
        let mut r: Vec<String> = Vec::new();
        let n = tokens.len();
        let mut i: usize = 0;
        while i < n
            invariant
                i <= n,
                n == tokens@.len(),
                ts == str_views(tokens@),
                ts == spec_tokens(text@),
                str_views(r@).no_duplicates(),
                str_views(r@).to_set() == ts.subrange(0, i as int).to_set(),
            decreases n - i,
        {
            let ghost r0 = str_views(r@);
            if !contains_str(&r, tokens[i].as_str()) {
                r.push(copy_string(&tokens[i]));
                proof {
                    assert(str_views(r@) =~= r0.push(ts[i as int]));
                }
            }
            proof {
                let p0 = ts.subrange(0, i as int);
                let p1 = ts.subrange(0, i + 1);
                assert(p1 =~= p0.push(ts[i as int]));
                assert(p1[i as int] == ts[i as int]);
                assert forall|x: Seq<char>| str_views(r@).contains(x) <==> p1.contains(x) by {
                    if str_views(r@).contains(x) {
                        if r0.contains(x) {
                            assert(r0.to_set().contains(x));
                            assert(p0.to_set().contains(x));
                            let k = choose|k: int| 0 <= k < p0.len() && p0[k] == x;
                            assert(p1[k] == x);
                        } else {
                            let k = choose|k: int| 0 <= k < str_views(r@).len() && str_views(r@)[k] == x;
                            if k < r0.len() {
                                assert(r0[k] == x);
                            }
                            assert(x == ts[i as int]);
                        }
                    }
                    if p1.contains(x) {
                        let k = choose|k: int| 0 <= k < p1.len() && p1[k] == x;
                        if k < i {
                            assert(p0[k] == x);
                            assert(p0.to_set().contains(x));
                            assert(r0.to_set().contains(x));
                            let j = choose|j: int| 0 <= j < r0.len() && r0[j] == x;
                            assert(str_views(r@)[j] == x);
                        } else {
                            assert(x == ts[i as int]);
                            if r0.contains(x) {
                                let j = choose|j: int| 0 <= j < r0.len() && r0[j] == x;
                                assert(str_views(r@)[j] == x);
                            } else {
                                assert(str_views(r@)[r0.len() as int] == x);
                            }
                        }
                    }
                }
                assert(str_views(r@).to_set() =~= p1.to_set());
            }
            i = i + 1;
        }
        proof {
            assert(ts.subrange(0, n as int) =~= ts);
        }
        r
    }

    /// How often each token occurs in `tokens`.
    pub fn term_frequencies(&self, tokens: &[String]) -> (r: StrMap<usize>)
        ensures
            r@.dom() == str_views(tokens@).to_set(),
            forall|x: Seq<char>| #[trigger] r@.dom().contains(x) ==> r@[x] == count_of(str_views(tokens@), x),
    {
        let ghost ts = str_views(tokens@);
        let mut freqs: StrMap<usize> = StrMap::new();
        let n = tokens.len();
        let mut i: usize = 0;
        while i < n
            invariant
                i <= n,
                n == tokens@.len(),
                ts == str_views(tokens@),
                freqs@.dom() == ts.subrange(0, i as int).to_set(),
                forall|x: Seq<char>| #[trigger] freqs@.dom().contains(x) ==> freqs@[x] == count_of(ts.subrange(0, i as int), x),
                forall|x: Seq<char>| #[trigger] freqs@.dom().contains(x) ==> freqs@[x] <= i,
            decreases n - i,
        {
            let t = &tokens[i];
            let ghost pre = ts.subrange(0, i as int);
            let ghost pre1 = ts.subrange(0, i + 1);
            proof {
                assert(pre1.drop_last() =~= pre);
                assert(pre1.last() == t@);
            }
            let c: usize = match freqs.get(t.as_str()) {
                Some(v) => *v,
                None => 0,
            };
            proof {
                if !freqs@.dom().contains(t@) {
                    lemma_count_absent(pre, t@);
                }
            }
            let ghost f0 = freqs@;
            freqs.insert(copy_string(t), c + 1);
            proof {
                assert(freqs@.dom() =~= pre1.to_set());
                assert forall|x: Seq<char>| #[trigger] freqs@.dom().contains(x) implies freqs@[x] == count_of(pre1, x) && freqs@[x] <= i + 1 by {
                    if x != t@ {
                        assert(f0.dom().contains(x));
                    }
                }
            }
            i = i + 1;
        }
        proof {
            assert(ts.subrange(0, n as int) =~= ts);
        }
        freqs
    }
}

/// A text that does not occur has count zero.
proof fn lemma_count_absent(s: Seq<Seq<char>>, x: Seq<char>)
    requires
        !s.to_set().contains(x),
    ensures
        count_of(s, x) == 0,
    decreases s.len(),
{
    if s.len() > 0 {
        assert(!s.drop_last().to_set().contains(x)) by {
            if s.drop_last().contains(x) {
                let k = choose|k: int| 0 <= k < s.drop_last().len() && s.drop_last()[k] == x;
                assert(s[k] == x);
            }
        }
        assert(s.last() != x) by {
            assert(s[s.len() - 1] == s.last());
        }
        lemma_count_absent(s.drop_last(), x);
    }
}

impl Default for SimpleTokenizer {
    /// A tokenizer.
    fn default() -> (r: Self)
        ensures
            r == (SimpleTokenizer {}),
    {
        SimpleTokenizer::new()
    }
}

/// Filtered tokenization keeps a token exactly when it is at least two bytes
/// long (in UTF-8) and is none of the stopwords: such a token of the input is
/// in the output, and every token of the output is such a token of the input.
pub proof fn lemma_filtered_tokens(ts: Seq<Seq<char>>, t: Seq<char>)
    ensures
        keep_tokens(ts).contains(t) <==> (ts.contains(t) && encode_utf8(t).len() >= 2 && !stopwords().contains(t)),
    decreases ts.len(),
{
    if ts.len() > 0 {
        let init = ts.drop_last();
        lemma_filtered_tokens(init, t);
        let k0 = keep_tokens(init);
        if ts.contains(t) && !init.contains(t) {
            let i = choose|i: int| 0 <= i < ts.len() && ts[i] == t;
            if i < init.len() {
                assert(init[i] == t);
            }
            assert(ts.last() == t);
        }
        if init.contains(t) {
            let i = choose|i: int| 0 <= i < init.len() && init[i] == t;
            assert(ts[i] == t);
        }
        if kept_token(ts.last()) {
            let k1 = k0.push(ts.last());
            if k1.contains(t) && !k0.contains(t) {
                let i = choose|i: int| 0 <= i < k1.len() && k1[i] == t;
                if i < k0.len() {
                    assert(k0[i] == t);
                }
            }
            if k0.contains(t) {
                let i = choose|i: int| 0 <= i < k0.len() && k0[i] == t;
                assert(k1[i] == t);
            }
            if ts.last() == t {
                assert(k1[k0.len() as int] == t);
            }
        }
    }
}

} // verus!
