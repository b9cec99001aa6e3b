//! Character-level string helpers with exact specifications.
//!
//! Strings are modelled by their character sequences (`s@`).  The helpers
//! here convert between `String`/`&str` and `Vec<char>` and implement the
//! small pieces of text processing (trimming, splitting, decimal rendering)
//! that the rest of the library is specified against.
use vstd::prelude::*;
use vstd::string::StringExecFns;

verus! {

/// The characters of a string slice, in order.
#[verifier::external_body]
pub(crate) fn chars_of(s: &str) -> (v: Vec<char>)
    ensures
        v@ == s@,
{
    s.chars().collect()
}

/// A string holding exactly the given characters.
#[verifier::external_body]
pub(crate) fn string_from_chars(v: &[char]) -> (s: String)
    ensures
        s@ == v@,
{
    v.iter().collect()
}

/// A fresh owned copy of a string slice.
pub fn owned(s: &str) -> (r: String)
    ensures
        r@ == s@,
{
    s.to_owned()
}

/// A copy of a string with the same characters.
pub fn copy_string(s: &String) -> (r: String)
    ensures
        r@ == s@,
{
    s.as_str().to_owned()
}

/// Appends one character to a string.
#[verifier::external_body]
pub(crate) fn push_char(s: &mut String, c: char)
    ensures
        final(s)@ == old(s)@.push(c),
{
    s.push(c);
}

/// Appends a string slice to a string.
pub(crate) fn push_str(s: &mut String, t: &str)
    ensures
        final(s)@ == old(s)@ + t@,
{
    s.append(t);
}

/// Whether two string slices hold the same characters.
#[verifier::external_body]
pub(crate) fn str_eq(a: &str, b: &str) -> (r: bool)
    ensures
        r == (a@ == b@),
{
    a == b
}

/// Whether a character has the Unicode `White_Space` property.
pub open spec fn spec_is_whitespace(c: char) -> bool {
    ||| ('\u{9}' <= c && c <= '\u{d}')
    ||| c == ' '
    ||| c == '\u{85}'
    ||| c == '\u{a0}'
    ||| c == '\u{1680}'
    ||| ('\u{2000}' <= c && c <= '\u{200a}')
    ||| c == '\u{2028}'
    ||| c == '\u{2029}'
    ||| c == '\u{202f}'
    ||| c == '\u{205f}'
    ||| c == '\u{3000}'
}

/// Executable form of [`spec_is_whitespace`].
pub fn is_whitespace(c: char) -> (b: bool)
    ensures
        b == spec_is_whitespace(c),
{
    ('\u{9}' <= c && c <= '\u{d}') || c == ' ' || c == '\u{85}' || c == '\u{a0}' || c
        == '\u{1680}' || ('\u{2000}' <= c && c <= '\u{200a}') || c == '\u{2028}' || c
        == '\u{2029}' || c == '\u{202f}' || c == '\u{205f}' || c == '\u{3000}'
}

/// `s` without its leading characters that satisfy `p`.
pub open spec fn strip_start_by(s: Seq<char>, p: spec_fn(char) -> bool) -> Seq<char>
    decreases s.len(),
{
    if s.len() > 0 && p(s[0]) {
        strip_start_by(s.drop_first(), p)
    } else {
        s
    }
}

/// `s` without its trailing characters that satisfy `p`.
pub open spec fn strip_end_by(s: Seq<char>, p: spec_fn(char) -> bool) -> Seq<char>
    decreases s.len(),
{
    if s.len() > 0 && p(s.last()) {
        strip_end_by(s.drop_last(), p)
    } else {
        s
    }
}

/// `str::trim`: leading and trailing white space removed.
pub open spec fn spec_trim(s: Seq<char>) -> Seq<char> {
    strip_end_by(strip_start_by(s, ws_pred()), ws_pred())
}

/// The white-space predicate as a spec closure.
pub open spec fn ws_pred() -> spec_fn(char) -> bool {
    |c: char| spec_is_whitespace(c)
}

/// Equality with one character, as a spec closure.
pub open spec fn eq_pred(c: char) -> spec_fn(char) -> bool {
    |x: char| x == c
}

/// `str::trim_matches(c)`: every leading and trailing `c` removed.
pub open spec fn spec_trim_char(s: Seq<char>, c: char) -> Seq<char> {
    strip_end_by(strip_start_by(s, eq_pred(c)), eq_pred(c))
}

proof fn lemma_strip_start_step(s: Seq<char>, p: spec_fn(char) -> bool, i: int)
    requires
        0 <= i < s.len(),
        p(s[i]),
    ensures
        strip_start_by(s.subrange(i, s.len() as int), p) == strip_start_by(
            s.subrange(i + 1, s.len() as int),
            p,
        ),
{
    assert(s.subrange(i, s.len() as int).drop_first() =~= s.subrange(i + 1, s.len() as int));
}

proof fn lemma_strip_end_step(s: Seq<char>, p: spec_fn(char) -> bool, j: int)
    requires
        0 < j <= s.len(),
        p(s[j - 1]),
    ensures
        strip_end_by(s.subrange(0, j), p) == strip_end_by(s.subrange(0, j - 1), p),
{
    assert(s.subrange(0, j).drop_last() =~= s.subrange(0, j - 1));
}

/// Trims both ends of `s` by the predicate `keep_out`, given its executable form.
fn strip_both<F: Fn(char) -> bool>(s: &[char], f: F, Ghost(p): Ghost<spec_fn(char) -> bool>) -> (r: Vec<char>)
    requires
        forall|c: char| f.requires((c,)),
        forall|c: char, b: bool| f.ensures((c,), b) ==> b == p(c),
    ensures
        r@ == strip_end_by(strip_start_by(s@, p), p),
{
    let n = s.len();
    let mut i: usize = 0;
    proof {
        assert(s@.subrange(0, n as int) =~= s@);
    }
    while i < n && f(s[i])
        invariant
            i <= n,
            n == s@.len(),
            forall|c: char| f.requires((c,)),
            forall|c: char, b: bool| f.ensures((c,), b) ==> b == p(c),
            strip_start_by(s@, p) == strip_start_by(s@.subrange(i as int, n as int), p),
        decreases n - i,
    {
        proof {
            lemma_strip_start_step(s@, p, i as int);
        }
        i = i + 1;
    }
    let ghost mid = s@.subrange(i as int, n as int);
    proof {
        assert(s@.subrange(0, n as int) =~= s@);
        if i < n {
            assert(!p(s@[i as int]));
        }
        assert(strip_start_by(mid, p) == mid);
    }
    let mut j: usize = n;
    proof {
        assert(mid.subrange(0, (n - i) as int) =~= mid);
    }
    while j > i && f(s[j - 1])
        invariant
            i <= j <= n,
            n == s@.len(),
            mid == s@.subrange(i as int, n as int),
            forall|c: char| f.requires((c,)),
            forall|c: char, b: bool| f.ensures((c,), b) ==> b == p(c),
            strip_end_by(mid, p) == strip_end_by(mid.subrange(0, j - i), p),
        decreases j,
    {
        proof {
            lemma_strip_end_step(mid, p, (j - i) as int);
        }
        j = j - 1;
    }
    proof {
        assert(mid.subrange(0, (n - i) as int) =~= mid);
        let last = mid.subrange(0, j - i);
        if j > i {
            assert(last.last() == s@[j - 1]);
            assert(!p(last.last()));
        }
        assert(strip_end_by(last, p) == last);
    }
    let mut r: Vec<char> = Vec::new();
    let mut k: usize = i;
    while k < j
        invariant
            i <= k <= j <= n,
            n == s@.len(),
            r@ == s@.subrange(i as int, k as int),
        decreases j - k,
    {
        r.push(s[k]);
        proof {
            assert(r@ =~= s@.subrange(i as int, k + 1));
        }
        k = k + 1;
    }
    proof {
        assert(r@ =~= mid.subrange(0, j - i));
    }
    r
}

/// `str::trim` on a character sequence.
pub fn trim_chars(s: &[char]) -> (r: Vec<char>)
    ensures
        r@ == spec_trim(s@),
{
    let ghost p = ws_pred();
    strip_both(s, |c: char| -> (b: bool) ensures b == spec_is_whitespace(c) { is_whitespace(c) }, Ghost(p))
}

/// `str::trim_matches(c)` on a character sequence.
pub fn trim_char(s: &[char], c: char) -> (r: Vec<char>)
    ensures
        r@ == spec_trim_char(s@, c),
{
    let ghost p = eq_pred(c);
    strip_both(s, |x: char| -> (b: bool) ensures b == (x == c) { x == c }, Ghost(p))
}


/// `str::trim_start_matches(c)`: every leading `c` removed.
pub fn strip_start_char(s: &[char], c: char) -> (r: Vec<char>)
    ensures
        r@ == strip_start_by(s@, eq_pred(c)),
{
    let ghost p = eq_pred(c);
    let n = s.len();
    let mut i: usize = 0;
    proof {
        assert(s@.subrange(0, n as int) =~= s@);
    }
    while i < n && s[i] == c
        invariant
            i <= n,
            n == s@.len(),
            p == eq_pred(c),
            strip_start_by(s@, p) == strip_start_by(s@.subrange(i as int, n as int), p),
        decreases n - i,
    {
        proof {
            lemma_strip_start_step(s@, p, i as int);
        }
        i = i + 1;
    }
    proof {
        if i < n {
            assert(!p(s@.subrange(i as int, n as int)[0]));
        }
    }
    slice_chars(s, i, n)
}

/// `str::trim_end_matches(c)`: every trailing `c` removed.
pub fn strip_end_char(s: &[char], c: char) -> (r: Vec<char>)
    ensures
        r@ == strip_end_by(s@, eq_pred(c)),
{
    let ghost p = eq_pred(c);
    let n = s.len();
    let mut j: usize = n;
    proof {
        assert(s@.subrange(0, n as int) =~= s@);
    }
    while j > 0 && s[j - 1] == c
        invariant
            j <= n,
            n == s@.len(),
            p == eq_pred(c),
            strip_end_by(s@, p) == strip_end_by(s@.subrange(0, j as int), p),
        decreases j,
    {
        proof {
            lemma_strip_end_step(s@, p, j as int);
        }
        j = j - 1;
    }
    proof {
        if j > 0 {
            assert(!p(s@.subrange(0, j as int).last()));
        }
    }
    slice_chars(s, 0, j)
}

/// Whether two character sequences are equal.
pub fn chars_eq(a: &[char], b: &[char]) -> (r: bool)
    ensures
        r == (a@ == b@),
{
    if a.len() != b.len() {
        return false;
    }
    let n = a.len();
    let mut i: usize = 0;
    while i < n
        invariant
            i <= n,
            n == a@.len(),
            n == b@.len(),
            forall|j: int| 0 <= j < i ==> a@[j] == b@[j],
        decreases n - i,
    {
        if a[i] != b[i] {
            return false;
        }
        i = i + 1;
    }
    assert(a@ =~= b@);
    true
}

/// Index of the first `c` in `s`, or `s.len()` when `c` does not occur.
pub open spec fn index_of(s: Seq<char>, c: char) -> int
    decreases s.len(),
{
    if s.len() == 0 {
        0
    } else if s[0] == c {
        0
    } else {
        1 + index_of(s.drop_first(), c)
    }
}

/// Facts about [`index_of`].
pub proof fn lemma_index_of(s: Seq<char>, c: char)
    ensures
        0 <= index_of(s, c) <= s.len(),
        index_of(s, c) < s.len() ==> s[index_of(s, c)] == c,
        forall|i: int| 0 <= i < index_of(s, c) ==> s[i] != c,
        (index_of(s, c) == s.len()) == !s.contains(c),
    decreases s.len(),
{
    if s.len() > 0 && s[0] != c {
        lemma_index_of(s.drop_first(), c);
        assert forall|i: int| 0 <= i < index_of(s, c) implies s[i] != c by {
            if i > 0 {
                assert(s[i] == s.drop_first()[i - 1]);
            }
        }
        if s.contains(c) {
            let k = choose|k: int| 0 <= k < s.len() && s[k] == c;
            assert(s.drop_first()[k - 1] == c);
        }
        if s.drop_first().contains(c) {
            let k = choose|k: int| 0 <= k < s.drop_first().len() && s.drop_first()[k] == c;
            assert(s[k + 1] == c);
        }
    }
}

proof fn lemma_index_of_step(s: Seq<char>, j: int, c: char)
    requires
        0 <= j < s.len(),
        s[j] != c,
    ensures
        index_of(s.subrange(j, s.len() as int), c) == 1 + index_of(
            s.subrange(j + 1, s.len() as int),
            c,
        ),
{
    assert(s.subrange(j, s.len() as int).drop_first() =~= s.subrange(j + 1, s.len() as int));
}

/// Position of the first `c` at or after `from` (or `s.len()`).
pub fn find_from(s: &[char], from: usize, c: char) -> (k: usize)
    requires
        from <= s@.len(),
    ensures
        k == from + index_of(s@.subrange(from as int, s@.len() as int), c),
        from <= k <= s@.len(),
{
    let n = s.len();
    let mut j = from;
    while j < n && s[j] != c
        invariant
            from <= j <= n,
            n == s@.len(),
            index_of(s@.subrange(from as int, n as int), c) == (j - from) + index_of(
                s@.subrange(j as int, n as int),
                c,
            ),
        decreases n - j,
    {
        proof {
            lemma_index_of_step(s@, j as int, c);
        }
        j = j + 1;
    }
    proof {
        if j < n {
            assert(s@.subrange(j as int, n as int)[0] == c);
        } else {
            assert(s@.subrange(j as int, n as int).len() == 0);
        }
    }
    j
}

/// The characters `s[from..to]`.
pub fn slice_chars(s: &[char], from: usize, to: usize) -> (r: Vec<char>)
    requires
        from <= to <= s@.len(),
    ensures
        r@ == s@.subrange(from as int, to as int),
{
    let mut r: Vec<char> = Vec::new();
    let mut k = from;
    while k < to
        invariant
            from <= k <= to <= s@.len(),
            r@ == s@.subrange(from as int, k as int),
        decreases to - k,
    {
        r.push(s[k]);
        proof {
            assert(r@ =~= s@.subrange(from as int, k + 1));
        }
        k = k + 1;
    }
    r
}

/// The character sequences held by a sequence of character vectors.
pub open spec fn char_seqs(v: Seq<Vec<char>>) -> Seq<Seq<char>> {
    v.map_values(|x: Vec<char>| x@)
}

/// `str::split(c)`: the pieces between occurrences of `c` (always at least one).
pub open spec fn split_on(s: Seq<char>, c: char) -> Seq<Seq<char>>
    decreases s.len(),
{
    let k = index_of(s, c);
    proof {
        lemma_index_of(s, c);
    }
    if k >= s.len() {
        seq![s]
    } else {
        seq![s.subrange(0, k)] + split_on(s.subrange(k + 1, s.len() as int), c)
    }
}

proof fn lemma_subrange_tail(s: Seq<char>, pos: int, k: int)
    requires
        0 <= pos <= k < s.len(),
    ensures
        s.subrange(pos, s.len() as int).subrange(k - pos + 1, s.len() - pos) =~= s.subrange(
            k + 1,
            s.len() as int,
        ),
        s.subrange(pos, s.len() as int).subrange(0, k - pos) =~= s.subrange(pos, k),
{
}

/// `str::split(c)` on a character sequence.
pub fn split_chars(s: &[char], c: char) -> (r: Vec<Vec<char>>)
    ensures
        char_seqs(r@) == split_on(s@, c),
{
    let n = s.len();
    let mut parts: Vec<Vec<char>> = Vec::new();
    let mut pos: usize = 0;
    proof {
        assert(s@.subrange(0, n as int) =~= s@);
        assert(char_seqs(parts@) =~= Seq::<Seq<char>>::empty());
        assert(split_on(s@, c) =~= char_seqs(parts@) + split_on(s@.subrange(0, n as int), c));
    }
    loop
        invariant
            pos <= n,
            n == s@.len(),
            split_on(s@, c) == char_seqs(parts@) + split_on(s@.subrange(pos as int, n as int), c),
        decreases n - pos,
    {
        let k = find_from(s, pos, c);
        let ghost rest = s@.subrange(pos as int, n as int);
        proof {
            lemma_index_of(rest, c);
        }
        let piece = slice_chars(s, pos, k);
        let ghost before = char_seqs(parts@);
        parts.push(piece);
        proof {
            assert(char_seqs(parts@) =~= before.push(piece@));
        }
        if k == n {
            proof {
                assert(rest.subrange(0, rest.len() as int) =~= rest);
                assert(piece@ =~= rest);
                assert(split_on(rest, c) == seq![rest]);
                assert(split_on(s@, c) =~= char_seqs(parts@));
            }
            return parts;
        }
        proof {
            lemma_subrange_tail(s@, pos as int, k as int);
            assert(split_on(rest, c) == seq![rest.subrange(0, k - pos)] + split_on(
                rest.subrange(k - pos + 1, rest.len() as int),
                c,
            ));
            assert(split_on(s@, c) =~= char_seqs(parts@) + split_on(
                s@.subrange(k + 1, n as int),
                c,
            ));
        }
        pos = k + 1;
    }
}

/// `line` with one trailing carriage return removed.
pub open spec fn strip_cr(line: Seq<char>) -> Seq<char> {
    if line.len() > 0 && line.last() == '\r' {
        line.drop_last()
    } else {
        line
    }
}

/// `str::lines`: lines separated by `\n`, a `\r` before the `\n` dropped, and no
/// empty line after a final `\n`.
pub open spec fn spec_lines(s: Seq<char>) -> Seq<Seq<char>>
    decreases s.len(),
{
    if s.len() == 0 {
        seq![]
    } else {
        let k = index_of(s, '\n');
        proof {
            lemma_index_of(s, '\n');
        }
        if k >= s.len() {
            seq![s]
        } else {
            seq![strip_cr(s.subrange(0, k))] + spec_lines(s.subrange(k + 1, s.len() as int))
        }
    }
}

/// `str::lines` on a character sequence.
pub fn lines_of(s: &[char]) -> (r: Vec<Vec<char>>)
    ensures
        char_seqs(r@) == spec_lines(s@),
{
    let n = s.len();
    let mut parts: Vec<Vec<char>> = Vec::new();
    let mut pos: usize = 0;
    proof {
        assert(s@.subrange(0, n as int) =~= s@);
        assert(spec_lines(s@) =~= char_seqs(parts@) + spec_lines(s@.subrange(0, n as int)));
    }
    while pos < n
        invariant
            pos <= n,
            n == s@.len(),
            spec_lines(s@) == char_seqs(parts@) + spec_lines(s@.subrange(pos as int, n as int)),
        decreases n - pos,
    {
        let k = find_from(s, pos, '\n');
        let ghost rest = s@.subrange(pos as int, n as int);
        proof {
            lemma_index_of(rest, '\n');
        }
        let mut end = k;
        if k < n && k > pos && s[k - 1] == '\r' {
            end = k - 1;
        }
        let piece = slice_chars(s, pos, end);
        let ghost before = char_seqs(parts@);
        parts.push(piece);
        proof {
            assert(char_seqs(parts@) =~= before.push(piece@));
        }
        if k == n {
            proof {
                assert(rest.subrange(0, rest.len() as int) =~= rest);
                assert(piece@ =~= rest);
                assert(spec_lines(s@) =~= char_seqs(parts@));
                assert(s@.subrange(n as int, n as int).len() == 0);
            }
            pos = n;
        } else {
            proof {
                lemma_subrange_tail(s@, pos as int, k as int);
                let line = rest.subrange(0, k - pos);
                if k > pos && s@[k - 1] == '\r' {
                    assert(line.last() == '\r');
                    assert(piece@ =~= line.drop_last());
                } else {
                    assert(piece@ =~= line);
                }
                assert(spec_lines(rest) == seq![strip_cr(line)] + spec_lines(
                    rest.subrange(k - pos + 1, rest.len() as int),
                ));
                assert(spec_lines(s@) =~= char_seqs(parts@) + spec_lines(
                    s@.subrange(k + 1, n as int),
                ));
            }
            pos = k + 1;
        }
    }
    proof {
        assert(s@.subrange(pos as int, n as int).len() == 0);
        assert(char_seqs(parts@) + seq![] =~= char_seqs(parts@));
    }
    parts
}

/// The decimal digits of `n`, most significant first (no sign, no padding).
pub open spec fn spec_decimal(n: nat) -> Seq<char>
    decreases n,
{
    if n < 10 {
        seq![digit_char(n)]
    } else {
        spec_decimal(n / 10).push(digit_char(n % 10))
    }
}

/// The ASCII digit for `d < 10`.
pub open spec fn digit_char(d: nat) -> char {
    ((d + 48) as u8) as char
}

/// Appends the decimal rendering of `n` (as `u64::to_string` writes it).
pub fn push_decimal(s: &mut String, n: u64)
    ensures
        final(s)@ == old(s)@ + spec_decimal(n as nat),
    decreases n,
{
    if n >= 10 {
        push_decimal(s, n / 10);
    }
    let d: u8 = (n % 10) as u8;
    let ch: char = (d + 48) as char;
    proof {
        assert(ch == digit_char((n % 10) as nat));
    }
    push_char(s, ch);
    proof {
        if n >= 10 {
            assert(spec_decimal(n as nat) == spec_decimal((n / 10) as nat).push(digit_char((n % 10) as nat)));
        }
    }
}

/// A piece of ASCII text is ASCII.
pub proof fn lemma_ascii_subrange(s: Seq<char>, a: int, b: int)
    requires
        is_ascii_text(s),
        0 <= a <= b <= s.len(),
    ensures
        is_ascii_text(s.subrange(a, b)),
{
    assert forall|i: int| 0 <= i < b - a implies (#[trigger] s.subrange(a, b)[i] as u32) < 128 by {
        assert(s.subrange(a, b)[i] == s[a + i]);
    }
}

/// Stripping characters from the ends of ASCII text leaves ASCII text.
pub proof fn lemma_ascii_strip(s: Seq<char>, p: spec_fn(char) -> bool)
    requires
        is_ascii_text(s),
    ensures
        is_ascii_text(strip_start_by(s, p)),
        is_ascii_text(strip_end_by(s, p)),
        is_ascii_text(strip_end_by(strip_start_by(s, p), p)),
    decreases s.len(),
{
    if s.len() > 0 {
        lemma_ascii_subrange(s, 1, s.len() as int);
        assert(s.drop_first() =~= s.subrange(1, s.len() as int));
        lemma_ascii_subrange(s, 0, s.len() - 1);
        assert(s.drop_last() =~= s.subrange(0, s.len() - 1));
        lemma_ascii_strip(s.drop_first(), p);
        lemma_ascii_strip(s.drop_last(), p);
    }
    if is_ascii_text(strip_start_by(s, p)) {
        lemma_ascii_strip_end(strip_start_by(s, p), p);
    }
}

proof fn lemma_ascii_strip_end(s: Seq<char>, p: spec_fn(char) -> bool)
    requires
        is_ascii_text(s),
    ensures
        is_ascii_text(strip_end_by(s, p)),
    decreases s.len(),
{
    if s.len() > 0 {
        lemma_ascii_subrange(s, 0, s.len() - 1);
        assert(s.drop_last() =~= s.subrange(0, s.len() - 1));
        lemma_ascii_strip_end(s.drop_last(), p);
    }
}

/// Every line of ASCII text is ASCII.
pub proof fn lemma_ascii_lines(s: Seq<char>)
    requires
        is_ascii_text(s),
    ensures
        forall|i: int| 0 <= i < spec_lines(s).len() ==> is_ascii_text(#[trigger] spec_lines(s)[i]),
    decreases s.len(),
{
    if s.len() > 0 {
        let k = index_of(s, '\n');
        lemma_index_of(s, '\n');
        if k < s.len() {
            lemma_ascii_subrange(s, 0, k);
            lemma_ascii_subrange(s, k + 1, s.len() as int);
            let first = s.subrange(0, k);
            if first.len() > 0 && first.last() == '\r' {
                lemma_ascii_subrange(first, 0, first.len() - 1);
                assert(first.drop_last() =~= first.subrange(0, first.len() - 1));
            }
            lemma_ascii_lines(s.subrange(k + 1, s.len() as int));
            let rest = spec_lines(s.subrange(k + 1, s.len() as int));
            assert forall|i: int| 0 <= i < spec_lines(s).len() implies is_ascii_text(#[trigger] spec_lines(s)[i]) by {
                if i > 0 {
                    assert(spec_lines(s)[i] == rest[i - 1]);
                }
            }
        }
    }
}

/// The lower-case mapping of a text, as `str::to_lowercase` computes it.
pub uninterp spec fn lowercase(s: Seq<char>) -> Seq<char>;

/// Whether every character of a text is ASCII.
pub open spec fn is_ascii_text(s: Seq<char>) -> bool {
    forall|i: int| 0 <= i < s.len() ==> (#[trigger] s[i] as u32) < 128
}

/// The ASCII lower-case form of a character: `A` to `Z` become `a` to `z`; any
/// other character stays as it is.
pub open spec fn ascii_lower_char(c: char) -> char {
    if 65 <= (c as u32) && (c as u32) <= 90 {
        ((c as u32) + 32) as char
    } else {
        c
    }
}

/// The ASCII lower-case form of a text, character by character.
pub open spec fn ascii_lower(s: Seq<char>) -> Seq<char> {
    s.map_values(|c: char| ascii_lower_char(c))
}

/// `str::to_lowercase`: the Unicode lower-case mapping of `s`, named by
/// [`lowercase`].  On ASCII text that mapping lowers `A` to `Z` one for one and
/// keeps every other character, as std documents for ASCII; beyond ASCII nothing
/// more is stated.
#[verifier::external_body]
pub(crate) fn to_lowercase(s: &str) -> (r: String)
    ensures
        r@ == lowercase(s@),
        is_ascii_text(s@) ==> r@ == ascii_lower(s@),
{
    s.to_lowercase()
}


/// The character sequences of a sequence of strings.
pub open spec fn str_views(v: Seq<String>) -> Seq<Seq<char>> {
    v.map_values(|x: String| x@)
}

/// Whether `v` holds a string with the characters of `s`.
pub fn contains_str(v: &Vec<String>, s: &str) -> (b: bool)
    ensures
        b == str_views(v@).contains(s@),
{
    let n = v.len();
    let mut i: usize = 0;
    while i < n
        invariant
            i <= n,
            n == v@.len(),
            forall|j: int| 0 <= j < i ==> #[trigger] str_views(v@)[j] != s@,
        decreases n - i,
    {
        if str_eq(v[i].as_str(), s) {
            assert(str_views(v@)[i as int] == s@);
            return true;
        }
        i = i + 1;
    }
    false
}

/// Whether a character is alphanumeric in the sense of `char::is_alphanumeric`
/// (Unicode `Alphabetic` or `Numeric`).
pub uninterp spec fn char_is_alphanumeric(c: char) -> bool;

/// `char::is_alphanumeric`.
#[verifier::external_body]
pub(crate) fn is_alphanumeric(c: char) -> (b: bool)
    ensures
        b == char_is_alphanumeric(c),
{
    c.is_alphanumeric()
}

/// The parts joined, with `sep` between neighbours.
pub open spec fn spec_join(parts: Seq<Seq<char>>, sep: Seq<char>) -> Seq<char>
    decreases parts.len(),
{
    if parts.len() == 0 {
        Seq::empty()
    } else if parts.len() == 1 {
        parts[0]
    } else {
        spec_join(parts.drop_last(), sep) + sep + parts.last()
    }
}

/// Joins the strings of `parts` with `sep` between neighbours (as `[String]::join`).
pub fn join_strings(parts: &Vec<String>, sep: &str) -> (r: String)
    ensures
        r@ == spec_join(str_views(parts@), sep@),
{
    let ghost v = str_views(parts@);
    let mut r = String::new();
    let n = parts.len();
    let mut k: usize = 0;
    while k < n
        invariant
            k <= n,
            n == parts@.len(),
            v == str_views(parts@),
            r@ == spec_join(v.subrange(0, k as int), sep@),
        decreases n - k,
    {
        let ghost r0 = r@;
        if k > 0 {
            push_str(&mut r, sep);
        }
        push_str(&mut r, parts[k].as_str());
        proof {
            let p1 = v.subrange(0, k + 1);
            assert(p1.drop_last() =~= v.subrange(0, k as int));
            assert(p1.last() == parts@[k as int]@);
            if k == 0 {
                assert(r0 =~= Seq::<char>::empty());
                assert(r@ =~= p1[0]);
            }
        }
        k = k + 1;
    }
    proof {
        assert(v.subrange(0, n as int) =~= v);
    }
    r
}

/// `prefix` followed by `s`.
pub fn join2(prefix: &str, s: &str) -> (r: String)
    ensures
        r@ == prefix@ + s@,
{
    let mut r = owned(prefix);
    push_str(&mut r, s);
    r
}

/// `a`, then `s`, then `b`.
pub fn join3(a: &str, s: &str, b: &str) -> (r: String)
    ensures
        r@ == a@ + s@ + b@,
{
    let mut r = owned(a);
    push_str(&mut r, s);
    push_str(&mut r, b);
    r
}

/// The non-empty items of `s`, in order.
pub open spec fn keep_nonempty(s: Seq<Seq<char>>) -> Seq<Seq<char>>
    decreases s.len(),
{
    if s.len() == 0 {
        Seq::empty()
    } else if s.last().len() == 0 {
        keep_nonempty(s.drop_last())
    } else {
        keep_nonempty(s.drop_last()).push(s.last())
    }
}

/// The items kept by [`keep_nonempty`] are non-empty.
pub proof fn lemma_keep_nonempty(s: Seq<Seq<char>>)
    ensures
        forall|i: int| 0 <= i < keep_nonempty(s).len() ==> (#[trigger] keep_nonempty(s)[i]).len() > 0,
    decreases s.len(),
{
    if s.len() > 0 {
        lemma_keep_nonempty(s.drop_last());
        let prev = keep_nonempty(s.drop_last());
        if s.last().len() > 0 {
            assert forall|i: int| 0 <= i < keep_nonempty(s).len() implies (#[trigger] keep_nonempty(s)[i]).len() > 0 by {
                if i < prev.len() {
                    assert(keep_nonempty(s)[i] == prev[i]);
                }
            }
        }
    }
}

} // verus!
