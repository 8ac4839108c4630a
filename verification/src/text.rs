//! Character-level text handling shared by the scanners: whitespace,
//! trimming, prefix tests, substring search and line splitting, each
//! stated over `Seq<char>` and carried out over `&[char]`.
use vstd::prelude::*;

verus! {

broadcast use vstd::string::axiom_spec_iter, vstd::slice::group_slice_axioms;

/// The views of a sequence of strings.
pub open spec fn string_views(v: Seq<String>) -> Seq<Seq<char>> {
    v.map_values(|x: String| x@)
}

/// The strings of a sequence of character vectors.
pub fn strings_of(v: &Vec<Vec<char>>) -> (r: Vec<String>)
    ensures
        string_views(r@) == views(v@),
{
    let mut out: Vec<String> = Vec::new();
    let mut k: usize = 0;
    while k < v.len()
        invariant
            0 <= k <= v@.len(),
            out@.len() == k,
            string_views(out@) == views(v@).take(k as int),
        decreases v@.len() - k,
    {
        let s = string_of(v[k].as_slice());
        let ghost before = out@;
        out.push(s);
        k = k + 1;
        proof {
            assert(s@ == v@[k - 1]@);
            assert(out@.len() == k);
            assert(out@[k - 1] == s);
            assert(string_views(out@)[k - 1] == s@);
            assert(string_views(out@) =~= views(v@).take(k as int));
        }
    }
    proof {
        assert(views(v@).take(k as int) =~= views(v@));
    }
    out
}

/// The views of a sequence of character vectors.
pub open spec fn views(v: Seq<Vec<char>>) -> Seq<Seq<char>> {
    v.map_values(|x: Vec<char>| x@)
}

/// The characters of `s`, in order.
pub fn chars_of(s: &str) -> (r: Vec<char>)
    ensures
        r@ == s@,
{
    let mut out: Vec<char> = Vec::new();
    for c in it: s.chars()
        invariant
            out@ == it.seq().take(it.index() as int),
            it.seq() == s@,
    {
        out.push(c);
    }
    out
}

/// `String::from_iter` over a run of characters, claimed to hold exactly
/// those characters, in order.
#[verifier::external_body]
pub(crate) fn string_of(cs: &[char]) -> (r: String)
    ensures
        r@ == cs@,
{
    cs.iter().collect()
}

// ---------------------------------------------------------------------
// Character classes
// ---------------------------------------------------------------------

/// The Unicode `White_Space` property, which is what `char::is_whitespace`
/// and the `trim` family of `str` go by.
pub open spec fn is_ws(c: char) -> bool {
    ||| ('\u{9}' <= c && c <= '\u{d}')
    ||| c == ' '
    ||| c == '\u{85}'
    ||| c == '\u{a0}'
    ||| c == '\u{1680}'
    ||| ('\u{2000}' <= c && c <= '\u{200a}')
    ||| c == '\u{2028}'
    ||| c == '\u{2029}'
    ||| c == '\u{202f}'
    ||| c == '\u{205f}'
    ||| c == '\u{3000}'
}

pub fn is_whitespace(c: char) -> (r: bool)
    ensures
        r == is_ws(c),
{
    ('\u{9}' <= c && c <= '\u{d}') || c == ' ' || c == '\u{85}' || c == '\u{a0}' || c
        == '\u{1680}' || ('\u{2000}' <= c && c <= '\u{200a}') || c == '\u{2028}' || c
        == '\u{2029}' || c == '\u{202f}' || c == '\u{205f}' || c == '\u{3000}'
}

pub open spec fn is_digit(c: char) -> bool {
    '0' <= c && c <= '9'
}

pub open spec fn is_ascii_alpha(c: char) -> bool {
    ('a' <= c && c <= 'z') || ('A' <= c && c <= 'Z')
}

pub open spec fn is_ascii_alnum(c: char) -> bool {
    is_ascii_alpha(c) || is_digit(c)
}

// ---------------------------------------------------------------------
// Trimming
// ---------------------------------------------------------------------

/// The first index at or after `i` that does not hold whitespace.
pub open spec fn skip_ws_from(s: Seq<char>, i: int) -> int
    decreases s.len() - i,
{
    if 0 <= i < s.len() && is_ws(s[i]) {
        skip_ws_from(s, i + 1)
    } else {
        i
    }
}

/// The end of `s.take(j)` once trailing whitespace is dropped.
pub open spec fn ws_end_back(s: Seq<char>, j: int) -> int
    decreases j,
{
    if 0 < j <= s.len() && is_ws(s[j - 1]) {
        ws_end_back(s, j - 1)
    } else {
        j
    }
}

/// `str::trim_start`.
pub open spec fn trim_start(s: Seq<char>) -> Seq<char> {
    s.subrange(skip_ws_from(s, 0), s.len() as int)
}

/// `str::trim_end`.
pub open spec fn trim_end(s: Seq<char>) -> Seq<char> {
    s.subrange(0, ws_end_back(s, s.len() as int))
}

/// `str::trim`.
pub open spec fn trim(s: Seq<char>) -> Seq<char> {
    trim_end(trim_start(s))
}

pub proof fn lemma_skip_ws_from(s: Seq<char>, i: int)
    requires
        0 <= i <= s.len(),
    ensures
        i <= skip_ws_from(s, i) <= s.len(),
        forall|k: int| i <= k < skip_ws_from(s, i) ==> is_ws(#[trigger] s[k]),
        skip_ws_from(s, i) < s.len() ==> !is_ws(s[skip_ws_from(s, i)]),
    decreases s.len() - i,
{
    if i < s.len() && is_ws(s[i]) {
        lemma_skip_ws_from(s, i + 1);
    }
}

pub proof fn lemma_ws_end_back(s: Seq<char>, j: int)
    requires
        0 <= j <= s.len(),
    ensures
        0 <= ws_end_back(s, j) <= j,
        forall|k: int| ws_end_back(s, j) <= k < j ==> is_ws(#[trigger] s[k]),
        ws_end_back(s, j) > 0 ==> !is_ws(s[ws_end_back(s, j) - 1]),
    decreases j,
{
    if 0 < j && is_ws(s[j - 1]) {
        lemma_ws_end_back(s, j - 1);
    }
}

/// The index of the first non-whitespace character of `s` (or its length).
pub fn skip_ws(s: &[char]) -> (r: usize)
    ensures
        r == skip_ws_from(s@, 0),
        r <= s@.len(),
{
    let mut i: usize = 0;
    while i < s.len() && is_whitespace(s[i])
        invariant
            0 <= i <= s@.len(),
            skip_ws_from(s@, 0) == skip_ws_from(s@, i as int),
        decreases s@.len() - i,
    {
        i = i + 1;
    }
    proof {
        lemma_skip_ws_from(s@, 0);
    }
    i
}

/// The length of `s` once trailing whitespace is dropped.
pub fn ws_end(s: &[char]) -> (r: usize)
    ensures
        r == ws_end_back(s@, s@.len() as int),
        r <= s@.len(),
{
    let mut j: usize = s.len();
    while j > 0 && is_whitespace(s[j - 1])
        invariant
            0 <= j <= s@.len(),
            ws_end_back(s@, s@.len() as int) == ws_end_back(s@, j as int),
        decreases j,
    {
        j = j - 1;
    }
    proof {
        lemma_ws_end_back(s@, s@.len() as int);
    }
    j
}

/// The characters `s[i..j]`.
pub fn slice_chars(s: &[char], i: usize, j: usize) -> (r: Vec<char>)
    requires
        i <= j <= s@.len(),
    ensures
        r@ == s@.subrange(i as int, j as int),
{
    let mut out: Vec<char> = Vec::new();
    let mut k: usize = i;
    while k < j
        invariant
            i <= k <= j <= s@.len(),
            out@ == s@.subrange(i as int, k as int),
        decreases j - k,
    {
        out.push(s[k]);
        k = k + 1;
    }
    out
}

pub fn trim_start_of(s: &[char]) -> (r: Vec<char>)
    ensures
        r@ == trim_start(s@),
{
    let a = skip_ws(s);
    slice_chars(s, a, s.len())
}

pub fn trim_end_of(s: &[char]) -> (r: Vec<char>)
    ensures
        r@ == trim_end(s@),
{
    let b = ws_end(s);
    slice_chars(s, 0, b)
}

pub fn trim_of(s: &[char]) -> (r: Vec<char>)
    ensures
        r@ == trim(s@),
{
    let t = trim_start_of(s);
    trim_end_of(&t)
}

// ---------------------------------------------------------------------
// Prefixes, suffixes and search
// ---------------------------------------------------------------------

pub open spec fn starts_with(s: Seq<char>, p: Seq<char>) -> bool {
    p.len() <= s.len() && s.subrange(0, p.len() as int) == p
}

pub open spec fn ends_with(s: Seq<char>, p: Seq<char>) -> bool {
    p.len() <= s.len() && s.subrange(s.len() - p.len(), s.len() as int) == p
}

/// `p` occurs in `s` starting at index `i`.
pub open spec fn occurs_at(s: Seq<char>, p: Seq<char>, i: int) -> bool {
    0 <= i && i + p.len() <= s.len() && s.subrange(i, i + p.len()) == p
}

/// The first index at or after `i` where `p` occurs in `s` (`str::find`
/// on `s[i..]`, shifted by `i`).
pub open spec fn find_from(s: Seq<char>, p: Seq<char>, i: int) -> Option<int>
    decreases s.len() + 1 - i,
{
    if i < 0 || i + p.len() > s.len() {
        None
    } else if occurs_at(s, p, i) {
        Some(i)
    } else {
        find_from(s, p, i + 1)
    }
}

/// `str::find` with a string pattern.
pub open spec fn find(s: Seq<char>, p: Seq<char>) -> Option<int> {
    find_from(s, p, 0)
}

/// `str::contains` with a string pattern.
pub open spec fn contains(s: Seq<char>, p: Seq<char>) -> bool {
    find(s, p) is Some
}

pub proof fn lemma_find_from(s: Seq<char>, p: Seq<char>, i: int)
    requires
        0 <= i,
    ensures
        match find_from(s, p, i) {
            Some(k) => i <= k && occurs_at(s, p, k) && forall|j: int|
                i <= j < k ==> !occurs_at(s, p, j),
            None => forall|j: int| i <= j ==> !occurs_at(s, p, j),
        },
    decreases s.len() + 1 - i,
{
    if i + p.len() > s.len() {
    } else if occurs_at(s, p, i) {
    } else {
        lemma_find_from(s, p, i + 1);
    }
}

/// The first occurrence is any occurrence with none before it.
pub proof fn lemma_find_from_unique(s: Seq<char>, p: Seq<char>, i: int, k: int)
    requires
        0 <= i <= k,
        occurs_at(s, p, k),
        forall|j: int| i <= j < k ==> !occurs_at(s, p, j),
    ensures
        find_from(s, p, i) == Some(k),
    decreases k - i,
{
    if i < k {
        lemma_find_from_unique(s, p, i + 1, k);
    }
}

/// Does `p` occur in `s` at `i`?
pub fn matches_at(s: &[char], p: &[char], i: usize) -> (r: bool)
    ensures
        r == occurs_at(s@, p@, i as int),
{
    if i > s.len() || p.len() > s.len() - i {
        return false;
    }
    let mut k: usize = 0;
    while k < p.len()
        invariant
            i + p@.len() <= s@.len(),
            s@.len() == s.len(),
            p@.len() == p.len(),
            0 <= k <= p@.len(),
            forall|m: int| 0 <= m < k ==> s@[i + m] == p@[m],
        decreases p@.len() - k,
    {
        if s[i + k] != p[k] {
            proof {
                assert(s@.subrange(i as int, i + p@.len())[k as int] != p@[k as int]);
            }
            return false;
        }
        k = k + 1;
    }
    proof {
        assert(s@.subrange(i as int, i + p@.len()) =~= p@);
    }
    true
}

/// The first occurrence of `p` in `s` at or after `from`.
pub fn find_chars_from(s: &[char], p: &[char], from: usize) -> (r: Option<usize>)
    ensures
        match r {
            Some(k) => find_from(s@, p@, from as int) == Some(k as int),
            None => find_from(s@, p@, from as int) is None,
        },
{
    if p.len() > s.len() {
        return None;
    }
    let last: usize = s.len() - p.len();
    let mut i: usize = from;
    loop
        invariant
            last + p@.len() == s@.len(),
            from <= i,
            find_from(s@, p@, from as int) == find_from(s@, p@, i as int),
        decreases last + 1 - i,
    {
        if i > last {
            return None;
        }
        if matches_at(s, p, i) {
            return Some(i);
        }
        if i == last {
            assert(find_from(s@, p@, i + 1) is None);
            return None;
        }
        i = i + 1;
    }
}

pub fn find_chars(s: &[char], p: &[char]) -> (r: Option<usize>)
    ensures
        match r {
            Some(k) => find(s@, p@) == Some(k as int),
            None => find(s@, p@) is None,
        },
{
    find_chars_from(s, p, 0)
}

pub fn contains_chars(s: &[char], p: &[char]) -> (r: bool)
    ensures
        r == contains(s@, p@),
{
    find_chars(s, p).is_some()
}

pub fn starts_with_chars(s: &[char], p: &[char]) -> (r: bool)
    ensures
        r == starts_with(s@, p@),
{
    matches_at(s, p, 0)
}

pub fn ends_with_chars(s: &[char], p: &[char]) -> (r: bool)
    ensures
        r == ends_with(s@, p@),
{
    if p.len() > s.len() {
        false
    } else {
        matches_at(s, p, s.len() - p.len())
    }
}

// ---------------------------------------------------------------------
// Lines
// ---------------------------------------------------------------------

/// The index of the first `c` at or after `i`, or the length of `s`.
pub open spec fn next_char(s: Seq<char>, c: char, i: int) -> int
    decreases s.len() - i,
{
    if i < 0 || i >= s.len() {
        s.len() as int
    } else if s[i] == c {
        i
    } else {
        next_char(s, c, i + 1)
    }
}

/// The index of the first `'\n'` at or after `i`, or the length of `s`.
pub open spec fn next_nl(s: Seq<char>, i: int) -> int {
    next_char(s, '\n', i)
}

/// The line that starts at `i` and ends at `k` (a `'\n'` or the end of
/// the text): one `'\r'` before a `'\n'` is not part of it.
pub open spec fn line_at(s: Seq<char>, i: int, k: int) -> Seq<char> {
    if k < s.len() && i < k && s[k - 1] == '\r' {
        s.subrange(i, k - 1)
    } else {
        s.subrange(i, k)
    }
}

/// `str::lines` on `s[i..]`.
pub open spec fn lines_from(s: Seq<char>, i: int) -> Seq<Seq<char>>
    decreases s.len() + 1 - i,
{
    if i < 0 || i >= s.len() {
        Seq::empty()
    } else {
        let k = next_nl(s, i);
        proof {
            lemma_next_nl(s, i);
        }
        seq![line_at(s, i, k)] + lines_from(s, k + 1)
    }
}

/// `str::lines`: the text split at each `'\n'` (and a `'\r'` just before
/// it), with no empty last line when the text ends in a line break.
pub open spec fn lines(s: Seq<char>) -> Seq<Seq<char>> {
    lines_from(s, 0)
}

pub proof fn lemma_next_char(s: Seq<char>, c: char, i: int)
    requires
        0 <= i <= s.len(),
    ensures
        i <= next_char(s, c, i) <= s.len(),
        forall|k: int| i <= k < next_char(s, c, i) ==> #[trigger] s[k] != c,
        next_char(s, c, i) < s.len() ==> s[next_char(s, c, i)] == c,
    decreases s.len() - i,
{
    if i < s.len() && s[i] != c {
        lemma_next_char(s, c, i + 1);
    }
}

pub proof fn lemma_next_nl(s: Seq<char>, i: int)
    requires
        0 <= i <= s.len(),
    ensures
        i <= next_nl(s, i) <= s.len(),
        forall|k: int| i <= k < next_nl(s, i) ==> #[trigger] s[k] != '\n',
        next_nl(s, i) < s.len() ==> s[next_nl(s, i)] == '\n',
{
    lemma_next_char(s, '\n', i);
}

/// The index of the first `c` at or after `i`, or the length of `s`.
pub fn next_char_at(s: &[char], c: char, i: usize) -> (r: usize)
    requires
        i <= s@.len(),
    ensures
        r == next_char(s@, c, i as int),
        i <= r <= s@.len(),
{
    let mut k: usize = i;
    while k < s.len() && s[k] != c
        invariant
            i <= k <= s@.len(),
            next_char(s@, c, i as int) == next_char(s@, c, k as int),
        decreases s@.len() - k,
    {
        k = k + 1;
    }
    proof {
        lemma_next_char(s@, c, i as int);
    }
    k
}

/// The index of the first `'\n'` at or after `i`, or the length of `s`.
pub fn next_newline(s: &[char], i: usize) -> (r: usize)
    requires
        i <= s@.len(),
    ensures
        r == next_nl(s@, i as int),
        i <= r <= s@.len(),
{
    next_char_at(s, '\n', i)
}

/// The line between `i` and the line break (or end of text) at `k`.
pub fn line_chars(s: &[char], i: usize, k: usize) -> (r: Vec<char>)
    requires
        i <= k <= s@.len(),
    ensures
        r@ == line_at(s@, i as int, k as int),
{
    if k < s.len() && i < k && s[k - 1] == '\r' {
        slice_chars(s, i, k - 1)
    } else {
        slice_chars(s, i, k)
    }
}

/// `str::lines`.
pub fn lines_of(s: &[char]) -> (r: Vec<Vec<char>>)
    ensures
        views(r@) == lines(s@),
{
    let mut out: Vec<Vec<char>> = Vec::new();
    let mut i: usize = 0;
    while i < s.len()
        invariant
            0 <= i <= s@.len(),
            lines(s@) == views(out@) + lines_from(s@, i as int),
        decreases s@.len() - i,
    {
        let k = next_newline(s, i);
        let line = line_chars(s, i, k);
        proof {
            assert(lines_from(s@, i as int) == seq![line@] + lines_from(s@, k + 1));
        }
        let ghost prev = views(out@);
        out.push(line);
        proof {
            assert(views(out@) =~= prev.push(line@));
            assert(prev + (seq![line@] + lines_from(s@, k + 1)) =~= prev.push(line@)
                + lines_from(s@, k + 1));
        }
        if k >= s.len() {
            i = s.len();
        } else {
            i = k + 1;
        }
    }
    proof {
        assert(views(out@) + lines_from(s@, i as int) =~= views(out@));
    }
    out
}

// ---------------------------------------------------------------------
// Splitting at a character
// ---------------------------------------------------------------------

/// `str::split` with a character pattern, on `s[i..]`: the pieces between
/// the separators, always at least one.
pub open spec fn split_from(s: Seq<char>, c: char, i: int) -> Seq<Seq<char>>
    decreases s.len() + 1 - i,
{
    if i < 0 || i > s.len() {
        Seq::empty()
    } else {
        let k = next_char(s, c, i);
        proof {
            lemma_next_char(s, c, i);
        }
        if k >= s.len() {
            seq![s.subrange(i, s.len() as int)]
        } else {
            seq![s.subrange(i, k)] + split_from(s, c, k + 1)
        }
    }
}

/// `str::split` with a character pattern.
pub open spec fn split(s: Seq<char>, c: char) -> Seq<Seq<char>> {
    split_from(s, c, 0)
}

/// `str::split`.
pub fn split_at_char(s: &[char], c: char) -> (r: Vec<Vec<char>>)
    ensures
        views(r@) == split(s@, c),
{
    let mut out: Vec<Vec<char>> = Vec::new();
    let mut i: usize = 0;
    loop
        invariant
            0 <= i <= s@.len(),
            split(s@, c) == views(out@) + split_from(s@, c, i as int),
        decreases s@.len() - i,
    {
        let k = next_char_at(s, c, i);
        let piece = slice_chars(s, i, k);
        let ghost prev = views(out@);
        out.push(piece);
        proof {
            assert(views(out@) =~= prev.push(piece@));
        }
        if k >= s.len() {
            proof {
                assert(split_from(s@, c, i as int) == seq![piece@]);
                assert(prev + seq![piece@] =~= prev.push(piece@));
            }
            return out;
        }
        proof {
            assert(split_from(s@, c, i as int) == seq![piece@] + split_from(s@, c, k + 1));
            assert(prev + (seq![piece@] + split_from(s@, c, k + 1)) =~= prev.push(piece@)
                + split_from(s@, c, k + 1));
        }
        i = k + 1;
    }
}

/// The first index at or after `i` not holding `c`
/// (`str::trim_start_matches` with a character).
pub open spec fn skip_char_from(s: Seq<char>, c: char, i: int) -> int
    decreases s.len() - i,
{
    if 0 <= i < s.len() && s[i] == c {
        skip_char_from(s, c, i + 1)
    } else {
        i
    }
}

pub proof fn lemma_skip_char_from(s: Seq<char>, c: char, i: int)
    requires
        0 <= i <= s.len(),
    ensures
        i <= skip_char_from(s, c, i) <= s.len(),
        forall|k: int| i <= k < skip_char_from(s, c, i) ==> #[trigger] s[k] == c,
        skip_char_from(s, c, i) < s.len() ==> s[skip_char_from(s, c, i)] != c,
    decreases s.len() - i,
{
    if i < s.len() && s[i] == c {
        lemma_skip_char_from(s, c, i + 1);
    }
}

/// `str::trim_start_matches` with a character.
pub open spec fn trim_start_char(s: Seq<char>, c: char) -> Seq<char> {
    s.subrange(skip_char_from(s, c, 0), s.len() as int)
}

pub fn trim_start_char_of(s: &[char], c: char) -> (r: Vec<char>)
    ensures
        r@ == trim_start_char(s@, c),
{
    let mut i: usize = 0;
    while i < s.len() && s[i] == c
        invariant
            0 <= i <= s@.len(),
            skip_char_from(s@, c, 0) == skip_char_from(s@, c, i as int),
        decreases s@.len() - i,
    {
        i = i + 1;
    }
    proof {
        lemma_skip_char_from(s@, c, 0);
    }
    slice_chars(s, i, s.len())
}

// ---------------------------------------------------------------------
// Comparing and building
// ---------------------------------------------------------------------

pub fn eq_chars(a: &[char], b: &[char]) -> (r: bool)
    ensures
        r == (a@ == b@),
{
    if a.len() != b.len() {
        return false;
    }
    let r = matches_at(a, b, 0);
    proof {
        assert(a@.subrange(0, b@.len() as int) =~= a@);
    }
    r
}

/// `dst` followed by `src`.
pub fn push_all(dst: &mut Vec<char>, src: &[char])
    ensures
        final(dst)@ == old(dst)@ + src@,
{
    let mut k: usize = 0;
    while k < src.len()
        invariant
            0 <= k <= src@.len(),
            dst@ == old(dst)@ + src@.subrange(0, k as int),
        decreases src@.len() - k,
    {
        dst.push(src[k]);
        k = k + 1;
        proof {
            assert(dst@ =~= old(dst)@ + src@.subrange(0, k as int));
        }
    }
    proof {
        assert(src@.subrange(0, src@.len() as int) =~= src@);
    }
}

/// The characters of `s` appended to `dst`.
pub fn push_str_chars(dst: &mut Vec<char>, s: &str)
    ensures
        final(dst)@ == old(dst)@ + s@,
{
    let cs = chars_of(s);
    push_all(dst, &cs);
}

// ---------------------------------------------------------------------
// Decimal numbers
// ---------------------------------------------------------------------

pub open spec fn digit_char(d: int) -> char {
    if d == 0 {
        '0'
    } else if d == 1 {
        '1'
    } else if d == 2 {
        '2'
    } else if d == 3 {
        '3'
    } else if d == 4 {
        '4'
    } else if d == 5 {
        '5'
    } else if d == 6 {
        '6'
    } else if d == 7 {
        '7'
    } else if d == 8 {
        '8'
    } else {
        '9'
    }
}

/// The value of a decimal digit character.
pub open spec fn digit_value(c: char) -> int {
    (c as int) - ('0' as int)
}

/// `n` written in decimal, as `Display` writes an unsigned integer.
pub open spec fn decimal(n: nat) -> Seq<char>
    decreases n,
{
    if n < 10 {
        seq![digit_char(n as int)]
    } else {
        decimal(n / 10) + seq![digit_char((n % 10) as int)]
    }
}

fn digit_of(d: u64) -> (c: char)
    requires
        d < 10,
    ensures
        c == digit_char(d as int),
{
    if d == 0 {
        '0'
    } else if d == 1 {
        '1'
    } else if d == 2 {
        '2'
    } else if d == 3 {
        '3'
    } else if d == 4 {
        '4'
    } else if d == 5 {
        '5'
    } else if d == 6 {
        '6'
    } else if d == 7 {
        '7'
    } else if d == 8 {
        '8'
    } else {
        '9'
    }
}

/// `n` written in decimal.
pub fn decimal_of(n: u64) -> (r: Vec<char>)
    ensures
        r@ == decimal(n as nat),
    decreases n,
{
    if n < 10 {
        let mut v: Vec<char> = Vec::new();
        v.push(digit_of(n));
        v
    } else {
        let mut v = decimal_of(n / 10);
        v.push(digit_of(n % 10));
        v
    }
}

/// `n` written in decimal, as `Display` writes a signed integer.
pub open spec fn signed_decimal(n: int) -> Seq<char> {
    if n < 0 {
        seq!['-'] + decimal((-n) as nat)
    } else {
        decimal(n as nat)
    }
}

/// `n` written in decimal, a minus sign before a negative one.
pub fn signed_decimal_of(n: i64) -> (r: Vec<char>)
    ensures
        r@ == signed_decimal(n as int),
{
    if n < 0 {
        let m: u64 = if n == i64::MIN {
            9223372036854775808u64
        } else {
            (0 - n) as u64
        };
        let mut v: Vec<char> = Vec::new();
        v.push('-');
        let d = decimal_of(m);
        push_all(&mut v, &d);
        v
    } else {
        decimal_of(n as u64)
    }
}

// ---------------------------------------------------------------------
// Integer parsing (`str::parse`)
// ---------------------------------------------------------------------

pub open spec fn all_digits(s: Seq<char>) -> bool {
    forall|k: int| 0 <= k < s.len() ==> is_digit(#[trigger] s[k])
}

/// The value of a run of decimal digits.
pub open spec fn digits_value(s: Seq<char>) -> nat
    decreases s.len(),
{
    if s.len() == 0 {
        0
    } else {
        (digits_value(s.drop_last()) * 10 + digit_value(s.last())) as nat
    }
}

/// The digits after an optional leading `'+'` (as `u32::from_str` reads them).
pub open spec fn unsigned_digits(s: Seq<char>) -> Seq<char> {
    if s.len() > 0 && s[0] == '+' {
        s.skip(1)
    } else {
        s
    }
}

/// `u32::from_str`: an optional `'+'`, then one or more ASCII digits
/// whose value fits.
pub open spec fn parse_u32(s: Seq<char>) -> Option<u32> {
    let d = unsigned_digits(s);
    if d.len() > 0 && all_digits(d) && digits_value(d) <= u32::MAX {
        Some(digits_value(d) as u32)
    } else {
        None
    }
}

/// `i64::from_str`: an optional sign, then one or more ASCII digits
/// whose signed value fits.
pub open spec fn parse_i64(s: Seq<char>) -> Option<i64> {
    if s.len() > 0 && s[0] == '-' {
        let d = s.skip(1);
        if d.len() > 0 && all_digits(d) && digits_value(d) <= 0x8000_0000_0000_0000 {
            Some((-(digits_value(d) as int)) as i64)
        } else {
            None
        }
    } else {
        let d = unsigned_digits(s);
        if d.len() > 0 && all_digits(d) && digits_value(d) <= i64::MAX {
            Some(digits_value(d) as i64)
        } else {
            None
        }
    }
}

pub proof fn lemma_digits_value_grows(s: Seq<char>, k: int)
    requires
        0 <= k <= s.len(),
        all_digits(s),
    ensures
        digits_value(s.take(k)) <= digits_value(s),
    decreases s.len() - k,
{
    if k < s.len() {
        lemma_digits_value_grows(s, k + 1);
        assert(s.take(k + 1).drop_last() =~= s.take(k));
        assert(is_digit(s[k]));
    } else {
        assert(s.take(k) =~= s);
    }
}

/// The value of the digits `s[from..]`, when they are all digits and the
/// value is at most `bound`.
fn digits_up_to(s: &[char], from: usize, bound: u64) -> (r: Option<u64>)
    requires
        from <= s@.len(),
        bound >= 9,
    ensures
        match r {
            Some(v) => all_digits(s@.skip(from as int)) && v == digits_value(s@.skip(from as int))
                && v <= bound,
            None => !(all_digits(s@.skip(from as int)) && digits_value(s@.skip(from as int))
                <= bound),
        },
{
    let ghost d = s@.skip(from as int);
    let mut acc: u64 = 0;
    let mut i: usize = from;
    while i < s.len()
        invariant
            from <= i <= s@.len(),
            d == s@.skip(from as int),
            all_digits(d.take(i - from)),
            acc == digits_value(d.take(i - from)),
            acc <= bound,
            bound >= 9,
        decreases s@.len() - i,
    {
        let c = s[i];
        proof {
            assert(d[i - from] == c);
        }
        if !('0' <= c && c <= '9') {
            proof {
                assert(!is_digit(d[i - from]));
            }
            return None;
        }
        let dv: u64 = (c as u64) - ('0' as u64);
        proof {
            assert(d.take(i - from + 1).drop_last() =~= d.take(i - from));
            assert(d.take(i - from + 1).last() == c);
        }
        if acc > (bound - dv) / 10 {
            proof {
                assert(digits_value(d.take(i - from + 1)) > bound) by (nonlinear_arith)
                    requires
                        digits_value(d.take(i - from + 1)) == acc * 10 + dv,
                        acc > (bound - dv) / 10,
                        dv <= 9,
                        dv <= bound,
                ;
                if all_digits(d) {
                    lemma_digits_value_grows(d, i - from + 1);
                }
            }
            return None;
        }
        proof {
            assert(acc * 10 + dv <= bound) by (nonlinear_arith)
                requires
                    acc <= (bound - dv) / 10,
                    dv <= bound,
            ;
        }
        acc = acc * 10 + dv;
        i = i + 1;
        proof {
            assert(all_digits(d.take(i - from)));
        }
    }
    proof {
        assert(d.take(i - from) =~= d);
    }
    Some(acc)
}

/// `u32::from_str`.
pub fn parse_u32_of(s: &[char]) -> (r: Option<u32>)
    ensures
        r == parse_u32(s@),
{
    let from: usize = if s.len() > 0 && s[0] == '+' {
        1
    } else {
        0
    };
    proof {
        assert(unsigned_digits(s@) =~= s@.skip(from as int));
    }
    if from == s.len() {
        return None;
    }
    match digits_up_to(s, from, 0xffff_ffff) {
        Some(v) => Some(v as u32),
        None => None,
    }
}

/// `i64::from_str`.
pub fn parse_i64_of(s: &[char]) -> (r: Option<i64>)
    ensures
        r == parse_i64(s@),
{
    if s.len() > 0 && s[0] == '-' {
        if s.len() == 1 {
            return None;
        }
        match digits_up_to(s, 1, 0x8000_0000_0000_0000) {
            Some(v) => {
                if v == 0x8000_0000_0000_0000 {
                    Some(i64::MIN)
                } else {
                    let w: i64 = v as i64;
                    Some(-w)
                }
            },
            None => None,
        }
    } else {
        let from: usize = if s.len() > 0 && s[0] == '+' {
            1
        } else {
            0
        };
        proof {
            assert(unsigned_digits(s@) =~= s@.skip(from as int));
        }
        if from == s.len() {
            return None;
        }
        match digits_up_to(s, from, 0x7fff_ffff_ffff_ffff) {
            Some(v) => Some(v as i64),
            None => None,
        }
    }
}

// ---------------------------------------------------------------------
// Unicode case and classes, from std
// ---------------------------------------------------------------------

/// What `str::to_lowercase` returns for a text: the Unicode lowercase
/// mapping, which depends on the text alone.
pub uninterp spec fn lowercase(s: Seq<char>) -> Seq<char>;

/// `str::to_lowercase`. Nothing is claimed of the result beyond its being
/// the mapping named `lowercase` of the argument.
#[verifier::external_body]
pub(crate) fn lowercase_of(s: &[char]) -> (r: Vec<char>)
    ensures
        r@ == lowercase(s@),
{
    let text: String = s.iter().collect();
    text.to_lowercase().chars().collect()
}

/// What `char::is_alphanumeric` answers: the Unicode `Alphabetic` or
/// `Numeric` property of the character.
pub uninterp spec fn alphanumeric(c: char) -> bool;

/// `char::is_alphanumeric`, claimed to answer `alphanumeric(c)` and
/// nothing more.
#[verifier::external_body]
pub(crate) fn is_alphanumeric(c: char) -> (r: bool)
    ensures
        r == alphanumeric(c),
{
    c.is_alphanumeric()
}

// ---------------------------------------------------------------------
// More trimming and splitting
// ---------------------------------------------------------------------

/// The end of `s.take(j)` once trailing `c`s are dropped.
pub open spec fn char_end_back(s: Seq<char>, c: char, j: int) -> int
    decreases j,
{
    if 0 < j <= s.len() && s[j - 1] == c {
        char_end_back(s, c, j - 1)
    } else {
        j
    }
}

pub proof fn lemma_char_end_back(s: Seq<char>, c: char, j: int)
    requires
        0 <= j <= s.len(),
    ensures
        0 <= char_end_back(s, c, j) <= j,
    decreases j,
{
    if 0 < j && s[j - 1] == c {
        lemma_char_end_back(s, c, j - 1);
    }
}

/// `str::trim_end_matches` with a character.
pub open spec fn trim_end_char(s: Seq<char>, c: char) -> Seq<char> {
    s.take(char_end_back(s, c, s.len() as int))
}

pub fn trim_end_char_of(s: &[char], c: char) -> (r: Vec<char>)
    ensures
        r@ == trim_end_char(s@, c),
{
    let mut j: usize = s.len();
    while j > 0 && s[j - 1] == c
        invariant
            0 <= j <= s@.len(),
            char_end_back(s@, c, s@.len() as int) == char_end_back(s@, c, j as int),
        decreases j,
    {
        j = j - 1;
    }
    proof {
        lemma_char_end_back(s@, c, s@.len() as int);
    }
    let r = slice_chars(s, 0, j);
    assert(r@ =~= s@.take(j as int));
    r
}

/// The index just after the last `c` before `j` (0 if there is none).
pub open spec fn after_last_char(s: Seq<char>, c: char, j: int) -> int
    decreases j,
{
    if j <= 0 || j > s.len() {
        0
    } else if s[j - 1] == c {
        j
    } else {
        after_last_char(s, c, j - 1)
    }
}

pub proof fn lemma_after_last_char(s: Seq<char>, c: char, j: int)
    requires
        0 <= j <= s.len(),
    ensures
        0 <= after_last_char(s, c, j) <= j,
    decreases j,
{
    if j > 0 && s[j - 1] != c {
        lemma_after_last_char(s, c, j - 1);
    }
}

/// The text after the last `c` (`s.rsplit(c).next()`).
pub open spec fn last_piece(s: Seq<char>, c: char) -> Seq<char> {
    s.skip(after_last_char(s, c, s.len() as int))
}

pub fn last_piece_of(s: &[char], c: char) -> (r: Vec<char>)
    ensures
        r@ == last_piece(s@, c),
{
    let mut j: usize = s.len();
    while j > 0 && s[j - 1] != c
        invariant
            0 <= j <= s@.len(),
            after_last_char(s@, c, s@.len() as int) == after_last_char(s@, c, j as int),
        decreases j,
    {
        j = j - 1;
    }
    proof {
        lemma_after_last_char(s@, c, s@.len() as int);
    }
    let r = slice_chars(s, j, s.len());
    assert(r@ =~= s@.skip(j as int));
    r
}

/// The first index at or after `i` that holds whitespace, or the length.
pub open spec fn next_ws(s: Seq<char>, i: int) -> int
    decreases s.len() - i,
{
    if 0 <= i < s.len() && !is_ws(s[i]) {
        next_ws(s, i + 1)
    } else {
        i
    }
}

pub proof fn lemma_next_ws(s: Seq<char>, i: int)
    requires
        0 <= i <= s.len(),
    ensures
        i <= next_ws(s, i) <= s.len(),
        forall|k: int| i <= k < next_ws(s, i) ==> !is_ws(#[trigger] s[k]),
        i < s.len() && !is_ws(s[i]) ==> next_ws(s, i) > i,
    decreases s.len() - i,
{
    if i < s.len() && !is_ws(s[i]) {
        lemma_next_ws(s, i + 1);
    }
}

/// `str::split_whitespace` on `s[i..]`.
pub open spec fn words_from(s: Seq<char>, i: int) -> Seq<Seq<char>>
    decreases s.len() + 1 - i,
{
    if i < 0 || i > s.len() {
        Seq::empty()
    } else {
        let a = skip_ws_from(s, i);
        proof {
            lemma_skip_ws_from(s, i);
        }
        if a >= s.len() {
            Seq::empty()
        } else {
            let b = next_ws(s, a);
            proof {
                lemma_next_ws(s, a);
            }
            seq![s.subrange(a, b)] + words_from(s, b)
        }
    }
}

/// `str::split_whitespace`: the maximal runs of non-whitespace.
pub open spec fn words(s: Seq<char>) -> Seq<Seq<char>> {
    words_from(s, 0)
}

pub fn words_of(s: &[char]) -> (r: Vec<Vec<char>>)
    ensures
        views(r@) == words(s@),
{
    let mut out: Vec<Vec<char>> = Vec::new();
    let mut i: usize = 0;
    loop
        invariant
            0 <= i <= s@.len(),
            words(s@) == views(out@) + words_from(s@, i as int),
        decreases s@.len() - i,
    {
        let mut a: usize = i;
        while a < s.len() && is_whitespace(s[a])
            invariant
                i <= a <= s@.len(),
                skip_ws_from(s@, i as int) == skip_ws_from(s@, a as int),
            decreases s@.len() - a,
        {
            a = a + 1;
        }
        proof {
            lemma_skip_ws_from(s@, i as int);
        }
        if a >= s.len() {
            proof {
                assert(views(out@) + words_from(s@, i as int) =~= views(out@));
            }
            return out;
        }
        let mut b: usize = a;
        while b < s.len() && !is_whitespace(s[b])
            invariant
                a <= b <= s@.len(),
                next_ws(s@, a as int) == next_ws(s@, b as int),
            decreases s@.len() - b,
        {
            b = b + 1;
        }
        proof {
            lemma_next_ws(s@, a as int);
        }
        let w = slice_chars(s, a, b);
        let ghost before = views(out@);
        out.push(w);
        proof {
            assert(views(out@) =~= before.push(w@));
            assert(words_from(s@, i as int) == seq![w@] + words_from(s@, b as int));
            assert(before + (seq![w@] + words_from(s@, b as int)) =~= views(out@) + words_from(
                s@,
                b as int,
            ));
        }
        proof {
            assert(b > i);
        }
        i = b;
    }
}

/// The lines joined with `'\n'` (`[&str]::join("\n")`).
pub open spec fn join_lines(ls: Seq<Seq<char>>) -> Seq<char>
    decreases ls.len(),
{
    if ls.len() == 0 {
        Seq::empty()
    } else if ls.len() == 1 {
        ls[0]
    } else {
        join_lines(ls.drop_last()) + seq!['\n'] + ls.last()
    }
}

pub fn join_lines_of(ls: &Vec<Vec<char>>) -> (r: Vec<char>)
    ensures
        r@ == join_lines(views(ls@)),
{
    let ghost lv = views(ls@);
    let mut out: Vec<char> = Vec::new();
    let mut i: usize = 0;
    while i < ls.len()
        invariant
            0 <= i <= ls@.len(),
            lv == views(ls@),
            out@ == join_lines(lv.take(i as int)),
        decreases ls@.len() - i,
    {
        proof {
            assert(lv.take(i + 1).drop_last() =~= lv.take(i as int));
            assert(lv.take(i + 1).last() == ls@[i as int]@);
        }
        if i > 0 {
            out.push('\n');
        }
        push_all(&mut out, &ls[i]);
        i = i + 1;
        proof {
            if i == 1 {
                assert(lv.take(1) =~= seq![lv[0]]);
            }
            assert(out@ =~= join_lines(lv.take(i as int)));
        }
    }
    proof {
        assert(lv.take(i as int) =~= lv);
    }
    out
}

/// A copy of a run of characters.
pub fn copy_of(s: &[char]) -> (r: Vec<char>)
    ensures
        r@ == s@,
{
    let r = slice_chars(s, 0, s.len());
    assert(r@ =~= s@);
    r
}

// ---------------------------------------------------------------------
// Text order
// ---------------------------------------------------------------------

/// `a < b` in the order of `String`s (by character, a prefix first).
pub open spec fn text_lt(a: Seq<char>, b: Seq<char>) -> bool
    decreases a.len(),
{
    if b.len() == 0 {
        false
    } else if a.len() == 0 {
        true
    } else if a[0] < b[0] {
        true
    } else if a[0] == b[0] {
        text_lt(a.skip(1), b.skip(1))
    } else {
        false
    }
}

pub proof fn lemma_text_lt_asymmetric(a: Seq<char>, b: Seq<char>)
    ensures
        text_lt(a, b) ==> !text_lt(b, a),
        !text_lt(a, a),
    decreases a.len(),
{
    if a.len() > 0 {
        lemma_text_lt_asymmetric(a.skip(1), a.skip(1));
        if b.len() > 0 {
            lemma_text_lt_asymmetric(a.skip(1), b.skip(1));
        }
    }
}

pub proof fn lemma_text_lt_transitive(a: Seq<char>, b: Seq<char>, c: Seq<char>)
    requires
        text_lt(a, b),
        text_lt(b, c),
    ensures
        text_lt(a, c),
    decreases a.len(),
{
    if a.len() > 0 && b.len() > 0 && c.len() > 0 && a[0] == b[0] && b[0] == c[0] {
        lemma_text_lt_transitive(a.skip(1), b.skip(1), c.skip(1));
    }
}

pub proof fn lemma_text_lt_total(a: Seq<char>, b: Seq<char>)
    ensures
        text_lt(a, b) || text_lt(b, a) || a == b,
    decreases a.len(),
{
    if a.len() > 0 && b.len() > 0 && a[0] == b[0] {
        lemma_text_lt_total(a.skip(1), b.skip(1));
        if a.skip(1) == b.skip(1) {
            assert(a =~= seq![a[0]] + a.skip(1));
            assert(b =~= seq![b[0]] + b.skip(1));
        }
    } else if a.len() == 0 && b.len() == 0 {
        assert(a =~= b);
    }
}

pub(crate) fn text_lt_exec(a: &[char], b: &[char]) -> (r: bool)
    ensures
        r == text_lt(a@, b@),
{
    let mut i: usize = 0;
    assert(a@.skip(0) =~= a@);
    assert(b@.skip(0) =~= b@);
    while i < a.len() && i < b.len() && a[i] == b[i]
        invariant
            0 <= i <= a@.len(),
            i <= b@.len(),
            text_lt(a@, b@) == text_lt(a@.skip(i as int), b@.skip(i as int)),
        decreases a@.len() - i,
    {
        proof {
            assert(a@.skip(i as int).skip(1) =~= a@.skip(i + 1));
            assert(b@.skip(i as int).skip(1) =~= b@.skip(i + 1));
        }
        i = i + 1;
    }
    if i == b.len() {
        false
    } else if i == a.len() {
        true
    } else {
        a[i] < b[i]
    }
}

} // verus!
