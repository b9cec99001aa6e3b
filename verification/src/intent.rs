//! Intent analysis: deterministic keyword and pattern heuristics over a request.
use vstd::prelude::*;
use crate::error::{RavenError, RavenResult};
use crate::pattern::{group_texts, regex_groups, regex_groups_of, regex_is_match, regex_is_match_of};
use crate::strmap::StrMap;
use crate::text::{chars_of, join2, lowercase, owned, spec_trim, str_views, string_from_chars, to_lowercase, trim_chars};

verus! {

/// Whether `needle` occurs in `hay` as a contiguous piece.
pub open spec fn contains_sub(hay: Seq<char>, needle: Seq<char>) -> bool {
    exists|i: int| 0 <= i && i + needle.len() <= hay.len() && #[trigger] hay.subrange(i, i + needle.len()) == needle
}

/// Whether `hay` holds one of `words` as a piece.
pub open spec fn contains_any(hay: Seq<char>, words: Seq<Seq<char>>) -> bool {
    exists|k: int| 0 <= k < words.len() && contains_sub(hay, #[trigger] words[k])
}

/// Words that suggest a tool call.
pub open spec fn tool_words() -> Seq<Seq<char>> {
    seq!["run"@, "execute"@, "call"@, "tool"@, "search"@, "fetch"@]
}

/// Words that suggest planning.
pub open spec fn plan_words() -> Seq<Seq<char>> {
    seq!["plan"@, "schedule"@, "step"@, "task"@, "implement"@, "build"@]
}

/// The intent names, in the order they are tried.
pub open spec fn intent_names() -> Seq<Seq<char>> {
    seq!["summarize"@, "create"@, "search"@, "plan"@, "tool_call"@, "general"@]
}

/// The pattern of each intent, in the same order.
pub open spec fn intent_patterns() -> Seq<Seq<char>> {
    seq![
        "\\bsummariz(e|ation)\\b|\\bsummarize\\b"@,
        "\\bcreate\\b|\\bnew\\b"@,
        "\\bsearch\\b|\\bfind\\b|\\blookup\\b"@,
        "\\bplan\\b|\\bschedule\\b|\\bstep\\b"@,
        "\\brun\\b|\\bexecute\\b|\\bcall\\b|\\btool\\b"@,
        ".*"@,
    ]
}

/// The pattern of a `key=value` setting.
pub open spec fn setting_pattern() -> Seq<char> {
    "([a-zA-Z_]+)=(\\S+)"@
}

/// The outcome of analyzing a request.
#[derive(Debug, Clone)]
pub struct Intent {
    /// Name of the intent.
    pub name: String,
    /// Confidence in tenths: 5 for the general intent, 9 for a recognised one.
    pub confidence_tenths: u8,
    /// Whether the request mentions a tool word.
    pub requires_tool: bool,
    /// Whether the request mentions a planning word.
    pub requires_planner: bool,
    /// `key=value` settings found in the request.
    pub metadata: StrMap<String>,
    /// The trimmed request.
    pub raw: String,
}

/// The index of the first intent whose pattern matches, given the outcome of
/// matching each pattern (all of them compiled).
pub open spec fn first_match(rs: Seq<bool>, i: int) -> int
    decreases rs.len() - i,
{
    if i >= rs.len() {
        rs.len() as int
    } else if rs[i] {
        i
    } else {
        first_match(rs, i + 1)
    }
}

/// The map the settings give, a later setting replacing an earlier one of the
/// same key; a match where a group is missing gives none.
pub open spec fn settings_map(gs: Seq<(Option<Seq<char>>, Option<Seq<char>>)>) -> Map<Seq<char>, Seq<char>>
    decreases gs.len(),
{
    if gs.len() == 0 {
        Map::empty()
    } else {
        let prev = settings_map(gs.drop_last());
        match gs.last() {
            (Some(k), Some(v)) => prev.insert(k, v),
            _ => prev,
        }
    }
}

/// What analyzing `input` gives.
pub open spec fn analysis_outcome(input: Seq<char>, r: RavenResult<Intent>) -> bool {
    let text = spec_trim(input);
    let lower = lowercase(text);
    let outcomes = intent_patterns().map_values(|p: Seq<char>| regex_is_match_of(p, lower));
    if text.len() == 0 {
        r matches Err(RavenError::InvalidInput(m)) && m@ == "empty input"@
    } else if exists|i: int| 0 <= i < 6 && (#[trigger] outcomes[i]) is Err {
        let i = choose|i: int| 0 <= i < 6 && (#[trigger] outcomes[i]) is Err && forall|j: int| 0 <= j < i ==> outcomes[j] is Ok;
        r matches Err(RavenError::Configuration(m)) && m@ == "regex compile failed: "@ + outcomes[i]->Err_0
    } else {
        match regex_groups_of(setting_pattern(), text) {
            Err(e) => r matches Err(RavenError::Configuration(m)) && m@ == "regex compile failed: "@ + e,
            Ok(gs) => r matches Ok(intent) && decided_intent(
                intent,
                text,
                lower,
                outcomes.map_values(|o: Result<bool, Seq<char>>| o == Ok::<bool, Seq<char>>(true)),
                gs,
            ),
        }
    }
}

/// `intent` is what the request `text` (lower-cased: `lower`) shows, given
/// whether each intent pattern matched (`matched`, in the order of
/// [`intent_names`]) and the groups of the setting matches (`gs`): the first
/// matching intent (the general one when none does), its confidence, the tool
/// and plan words found, and the settings.
pub open spec fn decided_intent(
    intent: Intent,
    text: Seq<char>,
    lower: Seq<char>,
    matched: Seq<bool>,
    gs: Seq<(Option<Seq<char>>, Option<Seq<char>>)>,
) -> bool {
    let chosen = first_match(matched, 0);
    &&& intent.name@ == (if chosen < 6 {
        intent_names()[chosen]
    } else {
        "general"@
    })
    &&& intent.confidence_tenths == (if intent.name@ == "general"@ {
        5u8
    } else {
        9u8
    })
    &&& intent.requires_tool == contains_any(lower, tool_words())
    &&& intent.requires_planner == contains_any(lower, plan_words())
    &&& intent.metadata@.map_values(|s: String| s@) == settings_map(gs)
    &&& intent.raw@ == text
}

/// Whether `needle` occurs in `hay`.
fn find_sub(hay: &[char], needle: &[char]) -> (b: bool)
    ensures
        b == contains_sub(hay@, needle@),
{
    let n = hay.len();
    let m = needle.len();
    if m > n {
        proof {
            assert forall|i: int| 0 <= i && i + m <= n implies #[trigger] hay@.subrange(i, i + m) != needle@ by {}
        }
        return false;
    }
    let mut i: usize = 0;
    while i <= n - m
        invariant
            m <= n,
            n == hay@.len(),
            m == needle@.len(),
            forall|j: int| 0 <= j < i ==> #[trigger] hay@.subrange(j, j + m) != needle@,
        decreases n - i,
    {
        let mut k: usize = 0;
        while k < m && hay[i + k] == needle[k]
            invariant
                k <= m,
                i + m <= n,
                n == hay@.len(),
                m == needle@.len(),
                forall|t: int| 0 <= t < k ==> hay@[i + t] == needle@[t],
            decreases m - k,
        {
            k = k + 1;
        }
        if k == m {
            assert(hay@.subrange(i as int, i + m) =~= needle@);
            return true;
        }
        assert(hay@.subrange(i as int, i + m)[k as int] != needle@[k as int]);
        i = i + 1;
    }
    false
}

/// Whether `hay` holds one of `words`.
fn find_any(hay: &[char], words: &Vec<&'static str>) -> (b: bool)
    ensures
        b == contains_any(hay@, words@.map_values(|w: &'static str| w@)),
{
    let ghost ws = words@.map_values(|w: &'static str| w@);
    let n = words.len();
    let mut k: usize = 0;
    while k < n
        invariant
            k <= n,
            n == words@.len(),
            ws == words@.map_values(|w: &'static str| w@),
            forall|j: int| 0 <= j < k ==> !contains_sub(hay@, #[trigger] ws[j]),
        decreases n - k,
    {
        let w = chars_of(words[k]);
        if find_sub(hay, w.as_slice()) {
            assert(contains_sub(hay@, ws[k as int]));
            return true;
        }
        k = k + 1;
    }
    false
}

/// Recognises what a request asks for, by keywords and patterns.
pub struct IntentAnalyzer {
    tool_keywords: Vec<&'static str>,
    plan_keywords: Vec<&'static str>,
}

impl IntentAnalyzer {
    /// The keyword lists of the analyzer.
    pub closed spec fn keywords(&self) -> (Seq<Seq<char>>, Seq<Seq<char>>) {
        (
            self.tool_keywords@.map_values(|w: &'static str| w@),
            self.plan_keywords@.map_values(|w: &'static str| w@),
        )
    }

    /// The analyzer uses the default keyword lists.
    #[verifier::type_invariant]
    closed spec fn uses_default_keywords(&self) -> bool {
        self.keywords() == (tool_words(), plan_words())
    }

    /// An analyzer with the default keyword lists.
    pub fn new() -> (r: Self)
        ensures
            r.keywords() == (tool_words(), plan_words()),
    {
        let tool_keywords = vec!["run", "execute", "call", "tool", "search", "fetch"];
        let plan_keywords = vec!["plan", "schedule", "step", "task", "implement", "build"];
        proof {
            assert(tool_keywords@.map_values(|w: &'static str| w@) =~= tool_words());
            assert(plan_keywords@.map_values(|w: &'static str| w@) =~= plan_words());
        }
        let r = IntentAnalyzer { tool_keywords, plan_keywords };
        r
    }

    /// Analyzes `input`: which intent it shows, whether it needs a tool or a
    /// plan, and the `key=value` settings it holds.
    pub fn analyze(&self, input: &str) -> (r: RavenResult<Intent>)
        ensures
            analysis_outcome(input@, r),
    {
        proof {
            use_type_invariant(self);
        }
        let cs = chars_of(input);
        let tc = trim_chars(cs.as_slice());
        if tc.len() == 0 {
            return Err(RavenError::InvalidInput(owned("empty input")));
        }
        let text = string_from_chars(tc.as_slice());
        let lower = to_lowercase(text.as_str());
        let patterns = vec![
            "\\bsummariz(e|ation)\\b|\\bsummarize\\b",
            "\\bcreate\\b|\\bnew\\b",
            "\\bsearch\\b|\\bfind\\b|\\blookup\\b",
            "\\bplan\\b|\\bschedule\\b|\\bstep\\b",
            "\\brun\\b|\\bexecute\\b|\\bcall\\b|\\btool\\b",
            ".*",
        ];
        let ghost outcomes = intent_patterns().map_values(|p: Seq<char>| regex_is_match_of(p, lower@));
        proof {
            assert(patterns@.map_values(|s: &str| s@) =~= intent_patterns());
            assert(text@ == spec_trim(input@));
            assert(outcomes =~= intent_patterns().map_values(|p: Seq<char>| regex_is_match_of(p, lowercase(spec_trim(input@)))));
        }
        let mut matched: Vec<bool> = Vec::new();
        let mut i: usize = 0;
        while i < 6
            invariant
                i <= 6,
                patterns@.len() == 6,
                patterns@.map_values(|s: &str| s@) == intent_patterns(),
                outcomes == intent_patterns().map_values(|p: Seq<char>| regex_is_match_of(p, lower@)),
                outcomes == intent_patterns().map_values(|p: Seq<char>| regex_is_match_of(p, lowercase(spec_trim(input@)))),
                spec_trim(input@).len() != 0,
                matched@.len() == i,
                forall|j: int| 0 <= j < i ==> outcomes[j] == Ok::<bool, Seq<char>>(#[trigger] matched@[j]),
            decreases 6 - i,
        {
            match regex_is_match(patterns[i], lower.as_str()) {
                Ok(b) => {
                    matched.push(b);
                },
                Err(e) => {
                    let msg = join2("regex compile failed: ", e.as_str());
                    proof {
                        assert(outcomes[i as int] is Err);
                        assert forall|j: int| 0 <= j < i implies outcomes[j] is Ok by {
                            assert(outcomes[j] == Ok::<bool, Seq<char>>(matched@[j]));
                        }
                        let w = choose|w: int| 0 <= w < 6 && (#[trigger] outcomes[w]) is Err && forall|j: int| 0 <= j < w ==> outcomes[j] is Ok;
                        assert(w == i) by {
                            if w < i {
                                assert(outcomes[w] == Ok::<bool, Seq<char>>(matched@[w]));
                            }
                            if w > i {
                                assert(outcomes[i as int] is Ok);
                            }
                        }
                        assert(outcomes[i as int]->Err_0 == e@);
                        assert(exists|v: int| 0 <= v < 6 && (#[trigger] outcomes[v]) is Err);
                    }
                    return Err(RavenError::Configuration(msg));
                },
            }
            i = i + 1;
        }
        let ghost flags = outcomes.map_values(|o: Result<bool, Seq<char>>| o == Ok::<bool, Seq<char>>(true));
        proof {
            assert(flags =~= matched@);
            assert forall|j: int| 0 <= j < 6 implies !((#[trigger] outcomes[j]) is Err) by {
                assert(outcomes[j] == Ok::<bool, Seq<char>>(matched@[j]));
            }
        }
        match regex_groups("([a-zA-Z_]+)=(\\S+)", text.as_str()) {
            Err(e) => Err(RavenError::Configuration(join2("regex compile failed: ", e.as_str()))),
            Ok(groups) => Ok(self.decide(text, lower.as_str(), &matched, &groups)),
        }
    }

    /// The intent that request `text` (lower-cased: `lower`) shows, given whether
    /// each intent pattern matched (`matched`, in the order of [`intent_names`])
    /// and the groups 1 and 2 of each match of the setting pattern (`groups`).
    pub fn decide(
        &self,
        text: String,
        lower: &str,
        matched: &Vec<bool>,
        groups: &Vec<(Option<String>, Option<String>)>,
    ) -> (r: Intent)
        ensures
            decided_intent(r, text@, lower@, matched@, group_texts(groups@)),
    {
        proof {
            use_type_invariant(self);
        }
        let lc = chars_of(lower);
        let requires_tool = find_any(lc.as_slice(), &self.tool_keywords);
        let requires_planner = find_any(lc.as_slice(), &self.plan_keywords);
        let names = vec!["summarize", "create", "search", "plan", "tool_call", "general"];
        proof {
            assert(names@.map_values(|s: &str| s@) =~= intent_names());
        }
        let m = matched.len();
        let mut chosen: usize = 0;
        while chosen < m && !matched[chosen]
            invariant
                chosen <= m,
                m == matched@.len(),
                first_match(matched@, 0) == first_match(matched@, chosen as int),
            decreases m - chosen,
        {
            chosen = chosen + 1;
        }
        let name = if chosen < 6 {
            owned(names[chosen])
        } else {
            owned("general")
        };
        proof {
            if chosen < 6 {
                assert(names@.map_values(|s: &str| s@)[chosen as int] == names@[chosen as int]@);
                assert(name@ == intent_names()[chosen as int]);
            }
            assert(first_match(matched@, 0) == chosen);
        }
        let is_general = crate::text::str_eq(name.as_str(), "general");
        let confidence_tenths: u8 = if is_general {
            5
        } else {
            9
        };
        let ghost gs = group_texts(groups@);
        let mut metadata: StrMap<String> = StrMap::new();
        let n = groups.len();
        let mut k: usize = 0;
        proof {
            assert(metadata@.map_values(|s: String| s@) =~= settings_map(gs.subrange(0, 0)));
        }
        while k < n
            invariant
                k <= n,
                n == groups@.len(),
                gs == group_texts(groups@),
                metadata@.map_values(|s: String| s@) == settings_map(gs.subrange(0, k as int)),
            decreases n - k,
        {
            proof {
                assert(gs.subrange(0, k + 1).drop_last() =~= gs.subrange(0, k as int));
            }
            let ghost m0 = metadata@;
            match (&groups[k].0, &groups[k].1) {
                (Some(key), Some(value)) => {
                    metadata.insert(crate::text::copy_string(key), crate::text::copy_string(value));
                    proof {
                        assert(metadata@.map_values(|s: String| s@) =~= m0.map_values(|s: String| s@).insert(key@, value@));
                    }
                },
                _ => {},
            }
            k = k + 1;
        }
        proof {
            assert(gs.subrange(0, n as int) =~= gs);
        }
        Intent { name, confidence_tenths, requires_tool, requires_planner, metadata, raw: text }
    }
}

/// The tool and planner flags of a decided intent come from the lower-cased
/// request: the planner is needed exactly when the lower-cased text holds one of
/// the planning words, the tool exactly when it holds one of the tool words.
pub proof fn lemma_decided_flags(
    intent: Intent,
    text: Seq<char>,
    lower: Seq<char>,
    matched: Seq<bool>,
    gs: Seq<(Option<Seq<char>>, Option<Seq<char>>)>,
)
    requires
        decided_intent(intent, text, lower, matched, gs),
    ensures
        intent.requires_planner <==> exists|k: int, i: int|
            0 <= k < plan_words().len() && 0 <= i && i + plan_words()[k].len() <= lower.len() && #[trigger] lower.subrange(
                i,
                i + plan_words()[k].len(),
            ) == plan_words()[k],
        intent.requires_tool <==> exists|k: int, i: int|
            0 <= k < tool_words().len() && 0 <= i && i + tool_words()[k].len() <= lower.len() && #[trigger] lower.subrange(
                i,
                i + tool_words()[k].len(),
            ) == tool_words()[k],
{
    if intent.requires_planner {
        let k = choose|k: int| 0 <= k < plan_words().len() && contains_sub(lower, #[trigger] plan_words()[k]);
        let i = choose|i: int| 0 <= i && i + plan_words()[k].len() <= lower.len() && #[trigger] lower.subrange(i, i + plan_words()[k].len()) == plan_words()[k];
        assert(lower.subrange(i, i + plan_words()[k].len()) == plan_words()[k]);
    }
    if exists|k: int, i: int|
        0 <= k < plan_words().len() && 0 <= i && i + plan_words()[k].len() <= lower.len() && #[trigger] lower.subrange(
            i,
            i + plan_words()[k].len(),
        ) == plan_words()[k] {
        let (k, i) = choose|k: int, i: int|
            0 <= k < plan_words().len() && 0 <= i && i + plan_words()[k].len() <= lower.len() && #[trigger] lower.subrange(
                i,
                i + plan_words()[k].len(),
            ) == plan_words()[k];
        assert(contains_sub(lower, plan_words()[k]));
    }
    if intent.requires_tool {
        let k = choose|k: int| 0 <= k < tool_words().len() && contains_sub(lower, #[trigger] tool_words()[k]);
        let i = choose|i: int| 0 <= i && i + tool_words()[k].len() <= lower.len() && #[trigger] lower.subrange(i, i + tool_words()[k].len()) == tool_words()[k];
        assert(lower.subrange(i, i + tool_words()[k].len()) == tool_words()[k]);
    }
    if exists|k: int, i: int|
        0 <= k < tool_words().len() && 0 <= i && i + tool_words()[k].len() <= lower.len() && #[trigger] lower.subrange(
            i,
            i + tool_words()[k].len(),
        ) == tool_words()[k] {
        let (k, i) = choose|k: int, i: int|
            0 <= k < tool_words().len() && 0 <= i && i + tool_words()[k].len() <= lower.len() && #[trigger] lower.subrange(
                i,
                i + tool_words()[k].len(),
            ) == tool_words()[k];
        assert(contains_sub(lower, tool_words()[k]));
    }
}

/// Analysis ignores letter case where the original does: two requests whose
/// trimmed texts lower-case alike get the same intent, confidence, tool flag and
/// planner flag (settings are read from the text as written).
pub proof fn lemma_analysis_case_insensitive(a: Seq<char>, b: Seq<char>, ra: RavenResult<Intent>, rb: RavenResult<Intent>)
    requires
        analysis_outcome(a, ra),
        analysis_outcome(b, rb),
        lowercase(spec_trim(a)) == lowercase(spec_trim(b)),
        ra is Ok,
        rb is Ok,
    ensures
        ra->Ok_0.name@ == rb->Ok_0.name@,
        ra->Ok_0.confidence_tenths == rb->Ok_0.confidence_tenths,
        ra->Ok_0.requires_tool == rb->Ok_0.requires_tool,
        ra->Ok_0.requires_planner == rb->Ok_0.requires_planner,
{
}

/// The planner flag of an analyzed request says whether its trimmed,
/// lower-cased text holds a planning word, and the tool flag whether it holds a
/// tool word; the letter case of the request does not matter.
pub proof fn lemma_analysis_flags(input: Seq<char>, r: RavenResult<Intent>)
    requires
        analysis_outcome(input, r),
        r is Ok,
    ensures
        r->Ok_0.requires_planner == contains_any(lowercase(spec_trim(input)), plan_words()),
        r->Ok_0.requires_tool == contains_any(lowercase(spec_trim(input)), tool_words()),
{
}

} // verus!
