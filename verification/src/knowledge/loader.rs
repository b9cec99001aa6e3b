//! Loading documents: front matter, list fields, dates and the document built
//! from a file's text.
use vstd::prelude::*;
use crate::knowledge::document::{Document, DocumentView};
use crate::knowledge::errors::{KnowledgeError, KnowledgeResult};
use crate::knowledge::metadata::DocumentMetadata;
use crate::strmap::StrMap;
use crate::text::{
    chars_eq, chars_of, eq_pred, keep_nonempty, find_from, index_of, lemma_index_of, lines_of, lowercase, owned, push_str, slice_chars,
    spec_join, spec_lines, spec_trim, spec_trim_char, split_chars, split_on, str_views, strip_end_by, strip_end_char,
    strip_start_by, strip_start_char, string_from_chars, to_lowercase, trim_char, trim_chars, char_seqs,
    ascii_lower, is_ascii_text, lemma_ascii_lines, lemma_ascii_strip, lemma_ascii_subrange, ws_pred,
};
use crate::time::Timestamp;

verus! {

// ---------------------------------------------------------------------------
// List fields
// ---------------------------------------------------------------------------

/// A list item: trimmed, then stripped of surrounding double quotes.
pub open spec fn list_item(s: Seq<char>) -> Seq<char> {
    spec_trim_char(spec_trim(s), '"')
}

/// The text of a list value without white space and without its brackets.
pub open spec fn list_body(value: Seq<char>) -> Seq<char> {
    spec_trim(strip_end_by(strip_start_by(spec_trim(value), eq_pred('[')), eq_pred(']')))
}

/// The items of a list value such as `[a, "b", c]`: the comma-separated pieces
/// of its body, trimmed and unquoted, without empty ones.
pub open spec fn spec_parse_list(value: Seq<char>) -> Seq<Seq<char>> {
    let body = list_body(value);
    if body.len() == 0 {
        Seq::empty()
    } else {
        keep_nonempty(split_on(body, ',').map_values(|p: Seq<char>| list_item(p)))
    }
}

/// Every item of a parsed list is non-empty.
pub proof fn lemma_list_items_nonempty(value: Seq<char>)
    ensures
        forall|i: int| 0 <= i < spec_parse_list(value).len() ==> (#[trigger] spec_parse_list(value)[i]).len() > 0,
{
    let body = list_body(value);
    if body.len() > 0 {
        crate::text::lemma_keep_nonempty(split_on(body, ',').map_values(|p: Seq<char>| list_item(p)));
    }
}

// ---------------------------------------------------------------------------
// Front matter
// ---------------------------------------------------------------------------

/// Keys lower-cased as `str::to_lowercase` does.
pub open spec fn name_lowercase() -> spec_fn(Seq<char>) -> Seq<char> {
    |k: Seq<char>| lowercase(k)
}

/// Keys lower-cased in ASCII: `A` to `Z` lowered, every other character kept.
pub open spec fn ascii_lowercase() -> spec_fn(Seq<char>) -> Seq<char> {
    |k: Seq<char>| ascii_lower(k)
}

/// The `key: value` entry of a front-matter line `t` holding a colon: the key
/// trimmed and lower-cased by `lower`, the value trimmed and unquoted.
pub open spec fn fm_entry(t: Seq<char>, lower: spec_fn(Seq<char>) -> Seq<char>) -> (Seq<char>, Seq<char>) {
    let k = index_of(t, ':');
    (lower(spec_trim(t.subrange(0, k))), spec_trim_char(spec_trim(t.subrange(k + 1, t.len() as int)), '"'))
}

/// The state of reading the lines after the opening `---`.
pub struct FmScan {
    /// Still inside the front matter.
    pub open: bool,
    /// The entries read, in order.
    pub entries: Seq<(Seq<char>, Seq<char>)>,
    /// The body lines read.
    pub body: Seq<Seq<char>>,
}

/// Reads lines after the opening `---`: inside the front matter a `---` line
/// closes it, blank lines and lines without a colon are skipped, and other lines
/// are entries (keys lower-cased by `lower`); every line after it belongs to the body.
pub open spec fn fm_scan(lines: Seq<Seq<char>>, lower: spec_fn(Seq<char>) -> Seq<char>) -> FmScan
    decreases lines.len(),
{
    if lines.len() == 0 {
        FmScan { open: true, entries: Seq::empty(), body: Seq::empty() }
    } else {
        let prev = fm_scan(lines.drop_last(), lower);
        let line = lines.last();
        let t = spec_trim(line);
        if !prev.open {
            FmScan { body: prev.body.push(line), ..prev }
        } else if t == "---"@ {
            FmScan { open: false, ..prev }
        } else if t.len() == 0 || index_of(t, ':') >= t.len() {
            prev
        } else {
            FmScan { entries: prev.entries.push(fm_entry(t, lower)), ..prev }
        }
    }
}

/// The map the entries give, a later entry replacing an earlier one of the same key.
pub open spec fn entries_map(es: Seq<(Seq<char>, Seq<char>)>) -> Map<Seq<char>, Seq<char>>
    decreases es.len(),
{
    if es.len() == 0 {
        Map::empty()
    } else {
        entries_map(es.drop_last()).insert(es.last().0, es.last().1)
    }
}

/// The texts of a string map.
pub open spec fn strmap_text(m: StrMap<String>) -> Map<Seq<char>, Seq<char>> {
    m@.map_values(|s: String| s@)
}

/// The outcome of reading front matter from `content`: the metadata entries and
/// the body lines joined by `\n`, or the reason the front matter is unusable.
pub open spec fn spec_frontmatter(content: Seq<char>) -> Result<(Map<Seq<char>, Seq<char>>, Seq<char>), Seq<char>> {
    frontmatter_by(content, name_lowercase())
}

/// [`spec_frontmatter`] with the keys lower-cased by `lower`.
pub open spec fn frontmatter_by(content: Seq<char>, lower: spec_fn(Seq<char>) -> Seq<char>) -> Result<
    (Map<Seq<char>, Seq<char>>, Seq<char>),
    Seq<char>,
> {
    let lines = spec_lines(content);
    let first = if lines.len() > 0 {
        lines[0]
    } else {
        Seq::empty()
    };
    if spec_trim(first) != "---"@ {
        Err("document metadata frontmatter is missing"@)
    } else {
        let scan = fm_scan(lines.drop_first(), lower);
        if scan.open {
            Err("document metadata frontmatter is not closed"@)
        } else {
            Ok((entries_map(scan.entries), spec_join(scan.body, "\n"@)))
        }
    }
}

/// Splits a document into its front matter (a block of `key: value` lines
/// between two `---` lines at the top) and its body.  Keys are lower-cased; for
/// ASCII text that lowers `A` to `Z` and keeps every other character.
pub fn parse_frontmatter(content: &str) -> (r: KnowledgeResult<(StrMap<String>, String)>)
    ensures
        match spec_frontmatter(content@) {
            Ok((m, body)) => r matches Ok((fm, b)) && strmap_text(fm) == m && b@ == body,
            Err(msg) => r matches Err(KnowledgeError::ValidationFailed(e)) && e@ == msg,
        },
        is_ascii_text(content@) ==> match frontmatter_by(content@, ascii_lowercase()) {
            Ok((m, body)) => r matches Ok((fm, b)) && strmap_text(fm) == m && b@ == body,
            Err(msg) => r matches Err(KnowledgeError::ValidationFailed(e)) && e@ == msg,
        },
{
    let cs = chars_of(content);
    let lines = lines_of(cs.as_slice());
    let ghost ls = spec_lines(content@);
    proof {
        if is_ascii_text(content@) {
            lemma_ascii_lines(content@);
        }
    }
    let dashes = chars_of("---");
    let first_ok = if lines.len() == 0 {
        false
    } else {
        let t = trim_chars(lines[0].as_slice());
        chars_eq(t.as_slice(), dashes.as_slice())
    };
    proof {
        assert(char_seqs(lines@) == ls);
        if lines@.len() > 0 {
            assert(ls[0] == lines@[0]@);
        } else {
            assert(spec_trim(Seq::<char>::empty()) =~= Seq::<char>::empty());
            assert("---"@.len() == 3) by {
                reveal_strlit("---");
            }
        }
    }
    if !first_ok {
        return Err(KnowledgeError::ValidationFailed(owned("document metadata frontmatter is missing")));
    }
    let ghost rest = ls.drop_first();
    let mut metadata: StrMap<String> = StrMap::new();
    let mut body: Vec<String> = Vec::new();
    let mut in_frontmatter = true;
    let ghost mut entries: Seq<(Seq<char>, Seq<char>)> = Seq::empty();
    let n = lines.len();
    let mut i: usize = 1;
    proof {
        assert(rest.subrange(0, 0) =~= Seq::<Seq<char>>::empty());
        assert(strmap_text(metadata) =~= entries_map(entries));
        assert(str_views(body@) =~= Seq::<Seq<char>>::empty());
    }
    while i < n
        invariant
            1 <= i <= n,
            n == lines@.len(),
            char_seqs(lines@) == ls,
            rest == ls.drop_first(),
            dashes@ == "---"@,
            fm_scan(rest.subrange(0, i - 1), name_lowercase()) == (FmScan { open: in_frontmatter, entries, body: str_views(body@) }),
            is_ascii_text(content@) ==> fm_scan(rest.subrange(0, i - 1), ascii_lowercase()) == (FmScan {
                open: in_frontmatter,
                entries,
                body: str_views(body@),
            }),
            is_ascii_text(content@) ==> forall|j: int| 0 <= j < ls.len() ==> is_ascii_text(#[trigger] ls[j]),
            ls == spec_lines(content@),
            strmap_text(metadata) == entries_map(entries),
        decreases n - i,
    {
        let line = &lines[i];
        let ghost pre = rest.subrange(0, i - 1);
        let ghost pre1 = rest.subrange(0, i as int);
        proof {
            assert(pre1.drop_last() =~= pre);
            assert(pre1.last() == line@);
        }
        let t = trim_chars(line.as_slice());
        if in_frontmatter {
            if chars_eq(t.as_slice(), dashes.as_slice()) {
                in_frontmatter = false;
            } else if t.len() == 0 {
            } else {
                let k = find_from(t.as_slice(), 0, ':');
                proof {
                    assert(t@.subrange(0, t@.len() as int) =~= t@);
                    lemma_index_of(t@, ':');
                }
                if k < t.len() {
                    let key_part = slice_chars(t.as_slice(), 0, k);
                    let key_trim = trim_chars(key_part.as_slice());
                    let key_text = string_from_chars(key_trim.as_slice());
                    let key = to_lowercase(key_text.as_str());
                    let value_part = slice_chars(t.as_slice(), k + 1, t.len());
                    let value_trim = trim_chars(value_part.as_slice());
                    let value_chars = trim_char(value_trim.as_slice(), '"');
                    let value = string_from_chars(value_chars.as_slice());
                    let ghost m0 = metadata@;
                    let ghost kv = key@;
                    let ghost vv = value;
                    metadata.insert(key, value);
                    proof {
                        let e = fm_entry(t@, name_lowercase());
                        assert(kv == e.0);
                        if is_ascii_text(content@) {
                            assert(is_ascii_text(ls[i as int]));
                            assert(line@ == ls[i as int]);
                            lemma_ascii_strip(line@, ws_pred());
                            lemma_ascii_subrange(t@, 0, k as int);
                            lemma_ascii_strip(t@.subrange(0, k as int), ws_pred());
                            assert(key_text@ == spec_trim(t@.subrange(0, k as int)));
                            assert(kv == ascii_lower(key_text@));
                            assert(fm_entry(t@, ascii_lowercase()) == e);
                        }
                        assert(vv@ == e.1);
                        let entries1 = entries.push(e);
                        assert(entries1.drop_last() =~= entries);
                        assert(metadata@ == m0.insert(kv, vv));
                        assert(strmap_text(metadata) =~= entries_map(entries1));
                        entries = entries1;
                    }
                }
            }
        } else {
            let ghost b0 = body@;
            let s = string_from_chars(line.as_slice());
            body.push(s);
            proof {
                assert(str_views(body@) =~= str_views(b0).push(line@));
            }
        }
        i = i + 1;
    }
    proof {
        assert(rest.subrange(0, n - 1) =~= rest);
    }
    if in_frontmatter {
        return Err(KnowledgeError::ValidationFailed(owned("document metadata frontmatter is not closed")));
    }
    let joined = crate::text::join_strings(&body, "\n");
    Ok((metadata, joined))
}

// ---------------------------------------------------------------------------
// Paths and dates
// ---------------------------------------------------------------------------

/// The extension of the last component of a path, as `Path::extension` finds it.
/// Which characters separate components is fixed by the target the library is
/// built for (`/` everywhere, `\` on Windows too), so within one build this is a
/// function of the path alone.
pub uninterp spec fn path_extension_of(path: Seq<char>) -> Option<Seq<char>>;

/// The last component of a path without its extension, as `Path::file_stem` finds it.
/// The separators are those of the target the library is built for, as for
/// [`path_extension_of`].
pub uninterp spec fn path_file_stem_of(path: Seq<char>) -> Option<Seq<char>>;

/// The instant an RFC 3339 date text denotes (in UTC), or the parser's message,
/// as `chrono::DateTime::parse_from_rfc3339` gives them.
pub uninterp spec fn rfc3339_of(text: Seq<char>) -> Result<Timestamp, Seq<char>>;

/// The characters of an optional string.
pub open spec fn opt_text(o: Option<String>) -> Option<Seq<char>> {
    match o {
        Some(s) => Some(s@),
        None => None,
    }
}

/// `std::path::Path::extension` of `path`, as text.
#[verifier::external_body]
fn path_extension(path: &str) -> (r: Option<String>)
    ensures
        opt_text(r) == path_extension_of(path@),
{
    std::path::Path::new(path).extension().and_then(|s| s.to_str()).map(|s| s.to_string())
}

/// `std::path::Path::file_stem` of `path`, as text.
#[verifier::external_body]
fn path_file_stem(path: &str) -> (r: Option<String>)
    ensures
        opt_text(r) == path_file_stem_of(path@),
{
    std::path::Path::new(path).file_stem().and_then(|s| s.to_str()).map(|s| s.to_string())
}

/// `chrono::DateTime::parse_from_rfc3339` of `text`, converted to UTC seconds and
/// nanoseconds, or the parser's message.
#[verifier::external_body]
fn parse_rfc3339(text: &str) -> (r: Result<Timestamp, String>)
    ensures
        match r {
            Ok(t) => rfc3339_of(text@) == Ok::<Timestamp, Seq<char>>(t),
            Err(e) => rfc3339_of(text@) == Err::<Timestamp, Seq<char>>(e@),
        },
{
    match chrono::DateTime::parse_from_rfc3339(text) {
        Ok(dt) => {
            let utc = dt.with_timezone(&chrono::Utc);
            Ok(Timestamp { secs: utc.timestamp(), nanos: utc.timestamp_subsec_nanos() })
        },
        Err(e) => Err(e.to_string()),
    }
}

/// The language of a file, by its extension: `md` is markdown, `txt` is text,
/// any other extension names itself, and no extension gives the empty text.
pub open spec fn spec_language(path: Seq<char>) -> Seq<char> {
    match path_extension_of(path) {
        Some(e) => if e == "md"@ {
            "markdown"@
        } else if e == "txt"@ {
            "text"@
        } else {
            e
        },
        None => Seq::empty(),
    }
}

/// The title of a file: its name without extension, or `document`.
pub open spec fn spec_title(path: Seq<char>) -> Seq<char> {
    match path_file_stem_of(path) {
        Some(s) => s,
        None => "document"@,
    }
}

/// What reading a `last_updated` value gives: the parsed instant, or the error
/// naming the value; a blank value stands for the present moment.
pub open spec fn date_outcome(value: Seq<char>, r: KnowledgeResult<Timestamp>) -> bool {
    if spec_trim(value).len() == 0 {
        r is Ok
    } else {
        match rfc3339_of(value) {
            Ok(t) => r == Ok::<Timestamp, KnowledgeError>(t),
            Err(msg) => r matches Err(KnowledgeError::ValidationFailed(e)) && e@ == "invalid last_updated value '"@ + value
                + "': "@ + msg,
        }
    }
}

/// The front-matter value of `k`, or `d` when there is none.
pub open spec fn fm_or(m: Map<Seq<char>, Seq<char>>, k: Seq<char>, d: Seq<char>) -> Seq<char> {
    if m.dom().contains(k) {
        m[k]
    } else {
        d
    }
}

/// `d` is the document loaded from the file at `path` of `size` bytes, read at
/// `now`, whose front matter is `m` and whose body is `body`, last updated at
/// `updated`: its identifier (and hash) is `<path>:<size>`, and each field is the
/// front-matter value or its default.
pub open spec fn loaded_document(
    d: DocumentView,
    path: Seq<char>,
    m: Map<Seq<char>, Seq<char>>,
    body: Seq<char>,
    size: u64,
    now: Timestamp,
    updated: Timestamp,
) -> bool {
    let id = path + ":"@ + crate::text::spec_decimal(size as nat);
    let title = fm_or(m, "title"@, spec_title(path));
    let language = fm_or(m, "language"@, spec_language(path));
    let source = fm_or(m, "source"@, path);
    &&& d.id == id
    &&& d.path == path
    &&& d.title == title
    &&& d.language == language
    &&& d.tags.len() == 0
    &&& d.source == source
    &&& d.content == body
    &&& d.metadata.title@ == title
    &&& d.metadata.description is None
    &&& d.metadata.language@ == language
    &&& d.metadata.category@ == fm_or(m, "category"@, "general"@)
    &&& opt_text(d.metadata.topic) == (if m.dom().contains("topic"@) {
        Some(m["topic"@])
    } else {
        None
    })
    &&& str_views(d.metadata.tags@) == spec_parse_list(fm_or(m, "tags"@, Seq::empty()))
    &&& d.metadata.difficulty@ == fm_or(m, "difficulty"@, "intermediate"@)
    &&& d.metadata.version@ == fm_or(m, "version"@, "1.0"@)
    &&& d.metadata.source@ == source
    &&& d.metadata.hash@ == id
    &&& d.metadata.size == size
    &&& d.metadata.created_at == now
    &&& d.metadata.updated_at == updated
}

/// What loading the text `raw` of the file at `path` gives: an error for blank
/// text, for unusable front matter or for an unreadable `last_updated` date, and
/// otherwise the loaded document (updated at the front-matter date, at `now`
/// when there is none, or at the present moment when it is blank).
pub open spec fn load_outcome(path: Seq<char>, raw: Seq<char>, size: u64, now: Timestamp, r: KnowledgeResult<Document>) -> bool {
    load_outcome_by(path, raw, size, now, r, name_lowercase())
}

/// [`load_outcome`] with the front-matter keys lower-cased by `lower`.
pub open spec fn load_outcome_by(
    path: Seq<char>,
    raw: Seq<char>,
    size: u64,
    now: Timestamp,
    r: KnowledgeResult<Document>,
    lower: spec_fn(Seq<char>) -> Seq<char>,
) -> bool {
    if spec_trim(raw).len() == 0 {
        r matches Err(KnowledgeError::ValidationFailed(e)) && e@ == "document content is empty: "@ + path
    } else {
        match frontmatter_by(raw, lower) {
            Err(msg) => r matches Err(KnowledgeError::ValidationFailed(e)) && e@ == msg,
            Ok((m, body)) => if !m.dom().contains("last_updated"@) {
                r matches Ok(d) && loaded_document(d@, path, m, body, size, now, now)
            } else {
                let v = m["last_updated"@];
                if spec_trim(v).len() == 0 {
                    r matches Ok(d) && loaded_document(d@, path, m, body, size, now, d@.metadata.updated_at)
                } else {
                    match rfc3339_of(v) {
                        Ok(u) => r matches Ok(d) && loaded_document(d@, path, m, body, size, now, u),
                        Err(msg) => r matches Err(KnowledgeError::ValidationFailed(e)) && e@
                            == "invalid last_updated value '"@ + v + "': "@ + msg,
                    }
                }
            },
        }
    }
}

/// The value of `k` in `m`, or a copy of `d`.
fn get_or(m: &StrMap<String>, k: &str, d: &str) -> (r: String)
    ensures
        r@ == fm_or(strmap_text(*m), k@, d@),
{
    match m.get(k) {
        Some(v) => crate::text::copy_string(v),
        None => owned(d),
    }
}

// ---------------------------------------------------------------------------
// The loader
// ---------------------------------------------------------------------------

/// Reads supported document files into documents.
#[derive(Debug, Clone, Copy)]
pub struct FileLoader;

impl FileLoader {
    /// A loader.
    pub fn new() -> (r: Self)
        ensures
            r == (FileLoader {}),
    {
        FileLoader
    }

    /// The language of the file at `path`, from its extension.
    pub fn language_from_extension(path: &str) -> (r: String)
        ensures
            r@ == spec_language(path@),
    {
        match path_extension(path) {
            Some(e) => {
                let ec = chars_of(e.as_str());
                let md = chars_of("md");
                let txt = chars_of("txt");
                if chars_eq(ec.as_slice(), md.as_slice()) {
                    owned("markdown")
                } else if chars_eq(ec.as_slice(), txt.as_slice()) {
                    owned("text")
                } else {
                    e
                }
            },
            None => String::new(),
        }
    }

    /// The title of the file at `path`: its name without extension.
    pub fn title_from_path(path: &str) -> (r: String)
        ensures
            r@ == spec_title(path@),
    {
        match path_file_stem(path) {
            Some(s) => s,
            None => owned("document"),
        }
    }

    /// The items of a list value such as `[a, "b", c]`.
    pub fn parse_list(value: &str) -> (r: Vec<String>)
        ensures
            str_views(r@) == spec_parse_list(value@),
    {
        let cs = chars_of(value);
        let t = trim_chars(cs.as_slice());
        let a = strip_start_char(t.as_slice(), '[');
        let b = strip_end_char(a.as_slice(), ']');
        let body = trim_chars(b.as_slice());
        let mut r: Vec<String> = Vec::new();
        if body.len() == 0 {
            proof {
                assert(str_views(r@) =~= Seq::<Seq<char>>::empty());
            }
            return r;
        }
        let parts = split_chars(body.as_slice(), ',');
        let ghost items = split_on(body@, ',').map_values(|p: Seq<char>| list_item(p));
        let n = parts.len();
        let mut i: usize = 0;
        proof {
            assert(str_views(r@) =~= Seq::<Seq<char>>::empty());
            assert(items.subrange(0, 0) =~= Seq::<Seq<char>>::empty());
        }
        while i < n
            invariant
                i <= n,
                n == parts@.len(),
                char_seqs(parts@) == split_on(body@, ','),
                items == split_on(body@, ',').map_values(|p: Seq<char>| list_item(p)),
                str_views(r@) == keep_nonempty(items.subrange(0, i as int)),
            decreases n - i,
        {
            let it = trim_chars(parts[i].as_slice());
            let item = trim_char(it.as_slice(), '"');
            let ghost r0 = r@;
            proof {
                assert(items[i as int] == list_item(parts@[i as int]@));
                assert(items.subrange(0, i + 1).drop_last() =~= items.subrange(0, i as int));
            }
            if item.len() > 0 {
                r.push(string_from_chars(item.as_slice()));
                proof {
                    assert(str_views(r@) =~= str_views(r0).push(item@));
                }
            }
            i = i + 1;
        }
        proof {
            assert(items.subrange(0, n as int) =~= items);
        }
        r
    }

    /// The instant a `last_updated` value denotes; a blank value gives the
    /// present moment.
    pub fn parse_date(value: &str) -> (r: KnowledgeResult<Timestamp>)
        ensures
            date_outcome(value@, r),
    {
        let cs = chars_of(value);
        let t = trim_chars(cs.as_slice());
        if t.len() == 0 {
            return Ok(crate::time::utc_now());
        }
        match parse_rfc3339(value) {
            Ok(ts) => Ok(ts),
            Err(msg) => {
                let mut m = owned("invalid last_updated value '");
                push_str(&mut m, value);
                push_str(&mut m, "': ");
                push_str(&mut m, msg.as_str());
                Err(KnowledgeError::ValidationFailed(m))
            },
        }
    }

    /// The document held in `raw_content`, the text of the file at `path` of
    /// `size` bytes, read at `now`.
    pub fn document_from_text(path: &str, raw_content: &str, size: u64, now: Timestamp) -> (r: KnowledgeResult<Document>)
        ensures
            load_outcome(path@, raw_content@, size, now, r),
            is_ascii_text(raw_content@) ==> load_outcome_by(path@, raw_content@, size, now, r, ascii_lowercase()),
    {
        let cs = chars_of(raw_content);
        let t = trim_chars(cs.as_slice());
        if t.len() == 0 {
            let mut m = owned("document content is empty: ");
            push_str(&mut m, path);
            return Err(KnowledgeError::ValidationFailed(m));
        }
        let (frontmatter, content) = match parse_frontmatter(raw_content) {
            Ok(p) => p,
            Err(e) => {
                return Err(e);
            },
        };
        let ghost m = strmap_text(frontmatter);
        let language = match frontmatter.get("language") {
            Some(v) => crate::text::copy_string(v),
            None => Self::language_from_extension(path),
        };
        let title = match frontmatter.get("title") {
            Some(v) => crate::text::copy_string(v),
            None => Self::title_from_path(path),
        };
        let category = get_or(&frontmatter, "category", "general");
        let topic = match frontmatter.get("topic") {
            Some(v) => Some(crate::text::copy_string(v)),
            None => None,
        };
        let tags_text = get_or(&frontmatter, "tags", "");
        let tags = Self::parse_list(tags_text.as_str());
        let version = get_or(&frontmatter, "version", "1.0");
        let difficulty = get_or(&frontmatter, "difficulty", "intermediate");
        let source = get_or(&frontmatter, "source", path);
        let updated_at = match frontmatter.get("last_updated") {
            Some(v) => match Self::parse_date(v.as_str()) {
                Ok(u) => u,
                Err(e) => {
                    return Err(e);
                },
            },
            None => now,
        };
        let mut id = owned(path);
        push_str(&mut id, ":");
        crate::text::push_decimal(&mut id, size);
        let hash = crate::text::copy_string(&id);
        let document_metadata = DocumentMetadata::new(
            crate::text::copy_string(&title),
            None,
            crate::text::copy_string(&language),
            category,
            topic,
            tags,
            difficulty,
            version,
            crate::text::copy_string(&source),
            hash,
            size,
            now,
            updated_at,
        );
        proof {
            assert(""@ =~= Seq::<char>::empty()) by {
                reveal_strlit("");
            }
        }
        let document = Document::new(id, owned(path), title, language, Vec::new(), source, document_metadata, content);
        Ok(document)
    }
}

/// The language of a loaded document, and of its metadata, is the front
/// matter's `language` value whenever the front matter has one; only when it
/// has none does the file's extension decide.  (Stated for keys lowered by any
/// `lower`: by `str::to_lowercase`, or in ASCII for ASCII text.)
pub proof fn lemma_loaded_language(
    path: Seq<char>,
    raw: Seq<char>,
    size: u64,
    now: Timestamp,
    r: KnowledgeResult<Document>,
    lower: spec_fn(Seq<char>) -> Seq<char>,
)
    requires
        load_outcome_by(path, raw, size, now, r, lower),
        r is Ok,
    ensures
        frontmatter_by(raw, lower) is Ok,
        match frontmatter_by(raw, lower) {
            Ok((m, _body)) => {
                &&& m.dom().contains("language"@) ==> r->Ok_0@.language == m["language"@] && r->Ok_0@.metadata.language@
                    == m["language"@]
                &&& !m.dom().contains("language"@) ==> r->Ok_0@.language == spec_language(path)
                    && r->Ok_0@.metadata.language@ == spec_language(path)
            },
            Err(_) => true,
        },
{
}

} // verus!
