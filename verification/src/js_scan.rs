//! Text scans over the scripts under `static/`.
//!
//! One pins the shape of `dm.js`'s fallback boundary: `applyChange` still
//! exists, carries its own `try`/`catch`, and never calls `fallback(`.
//! The other fails on user-visible prose written into a script: a quoted
//! literal with two or more word tokens, outside `search.js`.
//!
//! Both are textual: `//` comments are stripped line by line (a `//` in a
//! string literal cuts the line too), `/* */` comments are not, and the
//! function body is found by counting braces.
use vstd::prelude::*;
use crate::text::{
    chars_of, contains, contains_chars, copy_of, find, find_chars, is_ascii_alpha, is_ws, join_lines, join_lines_of,
    lemma_find_from, lines, lines_of, next_char, next_char_at, push_all, push_str_chars,
    slice_chars, string_of, string_views, strings_of, views, words, words_of, next_ws, skip_ws_from,
    words_from,
};

verus! {

broadcast use vstd::slice::group_slice_axioms;

// ---------------------------------------------------------------------
// Comments
// ---------------------------------------------------------------------

/// The part of a line before its first `//`.
pub open spec fn before_comment(line: Seq<char>) -> Seq<char> {
    match find(line, "//"@) {
        Some(k) => line.take(k),
        None => line,
    }
}

pub open spec fn code_lines(ls: Seq<Seq<char>>) -> Seq<Seq<char>> {
    ls.map_values(|l: Seq<char>| before_comment(l))
}

/// `//`-style line comments removed, the lines joined with `'\n'`.
pub open spec fn without_line_comments(source: Seq<char>) -> Seq<char> {
    join_lines(code_lines(lines(source)))
}

pub fn strip_line_comments_chars(source: &[char]) -> (r: Vec<char>)
    ensures
        r@ == without_line_comments(source@),
{
    let ls = lines_of(source);
    let ghost lv = views(ls@);
    let marker = chars_of("//");
    let mut kept: Vec<Vec<char>> = Vec::new();
    let mut i: usize = 0;
    while i < ls.len()
        invariant
            0 <= i <= ls@.len(),
            lv == views(ls@),
            lv == lines(source@),
            marker@ == "//"@,
            kept@.len() == i,
            views(kept@) == code_lines(lv).take(i as int),
        decreases ls@.len() - i,
    {
        let line = &ls[i];
        let part = match find_chars(line, &marker) {
            Some(k) => {
                proof {
                    lemma_find_from(line@, marker@, 0);
                }
                let p = slice_chars(line, 0, k);
                assert(p@ =~= line@.take(k as int));
                p
            },
            None => copy_of(line),
        };
        proof {
            assert(lv[i as int] == line@);
            assert(part@ == before_comment(lv[i as int]));
        }
        let ghost before = views(kept@);
        kept.push(part);
        i = i + 1;
        proof {
            assert(views(kept@) =~= code_lines(lv).take(i as int));
        }
    }
    proof {
        assert(code_lines(lv).take(i as int) =~= code_lines(lv));
    }
    join_lines_of(&kept)
}

/// Strips `//`-style line comments, line by line; a `//` inside a string
/// literal ends the line too.
pub fn strip_line_comments(source: &str) -> (r: String)
    ensures
        r@ == without_line_comments(source@),
{
    let s = chars_of(source);
    let r = strip_line_comments_chars(&s);
    string_of(&r)
}

// ---------------------------------------------------------------------
// A function's body, by brace depth
// ---------------------------------------------------------------------

/// The index of the `}` that brings `depth` to zero, counting braces from
/// `i`.
pub open spec fn closing_brace(s: Seq<char>, i: int, depth: int) -> Option<int>
    decreases s.len() - i,
{
    if i < 0 || i >= s.len() {
        None
    } else if s[i] == '{' {
        closing_brace(s, i + 1, depth + 1)
    } else if s[i] == '}' {
        if depth - 1 == 0 {
            Some(i)
        } else {
            closing_brace(s, i + 1, depth - 1)
        }
    } else {
        closing_brace(s, i + 1, depth)
    }
}

/// `function <name>(`.
pub open spec fn function_marker(name: Seq<char>) -> Seq<char> {
    "function "@ + name + "("@
}

pub proof fn lemma_closing_brace(s: Seq<char>, i: int, depth: int)
    requires
        0 <= i,
    ensures
        match closing_brace(s, i, depth) {
            Some(e) => i <= e < s.len(),
            None => true,
        },
    decreases s.len() - i,
{
    if i < s.len() {
        if s[i] == '{' {
            lemma_closing_brace(s, i + 1, depth + 1);
        } else if s[i] == '}' {
            if depth - 1 != 0 {
                lemma_closing_brace(s, i + 1, depth - 1);
            }
        } else {
            lemma_closing_brace(s, i + 1, depth);
        }
    }
}

/// Why a function's body cannot be read.
#[derive(Debug, Clone, Copy, PartialEq, Eq, Structural)]
pub enum BodyProblem {
    /// No `function <name>(` in the source.
    NoMarker,
    /// The signature never reaches a `{`.
    NoOpeningBrace,
    /// The body's braces never balance.
    NeverCloses,
}

/// What reading `function <name>(`'s body gives: the body, or why it
/// cannot be read.
pub open spec fn body_reading(source: Seq<char>, name: Seq<char>) -> Result<Seq<char>, BodyProblem> {
    match find(source, function_marker(name)) {
        None => Err(BodyProblem::NoMarker),
        Some(st) => {
            let after = source.skip(st + function_marker(name).len());
            let b = next_char(after, '{', 0);
            if b >= after.len() {
                Err(BodyProblem::NoOpeningBrace)
            } else {
                match closing_brace(after, b + 1, 1) {
                    None => Err(BodyProblem::NeverCloses),
                    Some(e) => Ok(after.subrange(b + 1, e)),
                }
            }
        },
    }
}

/// Reads `function_name`'s body, brace-depth counted from its opening `{`
/// to the matching `}`, or says which of the marker, the opening brace or
/// the closing brace is missing.
pub fn read_function_body(source: &str, function_name: &str) -> (r: Result<String, BodyProblem>)
    ensures
        match r {
            Ok(b) => body_reading(source@, function_name@) == Ok::<Seq<char>, BodyProblem>(b@),
            Err(p) => body_reading(source@, function_name@) == Err::<Seq<char>, BodyProblem>(p),
        },
{
    let s = chars_of(source);
    let mut marker = chars_of("function ");
    let n = chars_of(function_name);
    push_all(&mut marker, &n);
    push_str_chars(&mut marker, "(");
    assert(marker@ == function_marker(function_name@));
    let start = match find_chars(&s, &marker) {
        None => return Err(BodyProblem::NoMarker),
        Some(k) => k,
    };
    proof {
        lemma_find_from(s@, marker@, 0);
        assert(s@.len() == s.len());
    }
    let after = slice_chars(&s, start + marker.len(), s.len());
    assert(after@ =~= s@.skip(start + function_marker(function_name@).len()));
    let b = next_char_at(&after, '{', 0);
    if b >= after.len() {
        return Err(BodyProblem::NoOpeningBrace);
    }
    let mut depth: u64 = 1;
    let mut i: usize = b + 1;
    assert(body_reading(source@, function_name@) == match closing_brace(after@, b + 1, 1) {
        None => Err(BodyProblem::NeverCloses),
        Some(e) => Ok(after@.subrange(b + 1, e)),
    });
    while i < after.len()
        invariant
            b + 1 <= i <= after@.len(),
            body_reading(source@, function_name@) == match closing_brace(after@, b + 1, 1) {
                None => Err(BodyProblem::NeverCloses),
                Some(e) => Ok(after@.subrange(b + 1, e)),
            },
            1 <= depth <= i,
            closing_brace(after@, b + 1, 1) == closing_brace(after@, i as int, depth as int),
        decreases after@.len() - i,
    {
        let c = after[i];
        if c == '{' {
            depth = depth + 1;
        } else if c == '}' {
            if depth == 1 {
                let body = slice_chars(&after, b + 1, i);
                return Ok(string_of(&body));
            }
            depth = depth - 1;
        }
        i = i + 1;
    }
    Err(BodyProblem::NeverCloses)
}

/// `function_name`'s body, brace-depth counted from its opening `{` to
/// the matching `}`. The function must be there, with a body that closes:
/// `read_function_body` tells a caller which part is missing.
pub fn find_function_body(source: &str, function_name: &str) -> (r: String)
    requires
        body_reading(source@, function_name@) is Ok,
    ensures
        body_reading(source@, function_name@) == Ok::<Seq<char>, BodyProblem>(r@),
{
    match read_function_body(source, function_name) {
        Ok(b) => b,
        Err(_) => {
            proof {
                assert(false);
            }
            String::new()
        },
    }
}

/// What the fallback boundary asks of `applyChange`'s body: that it
/// carries its own `try {` / `catch (`, and that it never calls
/// `fallback(`.
pub struct BoundaryCheck {
    pub carries_try_catch: bool,
    pub calls_fallback: bool,
}

/// The fallback boundary's two checks on a body.
pub fn boundary_check(body: &str) -> (r: BoundaryCheck)
    ensures
        r.carries_try_catch == (contains(body@, "try {"@) && contains(body@, "catch ("@)),
        r.calls_fallback == contains(body@, "fallback("@),
{
    let b = chars_of(body);
    let carries = contains_chars(&b, &chars_of("try {")) && contains_chars(&b, &chars_of("catch ("));
    BoundaryCheck { carries_try_catch: carries, calls_fallback: contains_chars(&b, &chars_of("fallback(")) }
}

// ---------------------------------------------------------------------
// Prose in script string literals
// ---------------------------------------------------------------------

/// The first index at or after `i` holding `quote` preceded by an even
/// number of backslashes.
pub open spec fn unescaped_from(s: Seq<char>, quote: char, i: int) -> Option<int>
    decreases s.len() - i,
{
    if i < 0 || i >= s.len() {
        None
    } else if s[i] == quote && backslashes_before(s, i) % 2 == 0 {
        Some(i)
    } else {
        unescaped_from(s, quote, i + 1)
    }
}

/// The number of backslashes right before index `j`.
pub open spec fn backslashes_before(s: Seq<char>, j: int) -> nat
    decreases j,
{
    if j <= 0 || j > s.len() {
        0
    } else if s[j - 1] == '\\' {
        backslashes_before(s, j - 1) + 1
    } else {
        0
    }
}

fn backslashes_exec(s: &[char], j: usize) -> (r: usize)
    requires
        j <= s@.len(),
    ensures
        r == backslashes_before(s@, j as int),
        r <= j,
{
    let mut k: usize = j;
    let mut n: usize = 0;
    while k > 0 && s[k - 1] == '\\'
        invariant
            0 <= k <= j,
            j <= s@.len(),
            n == j - k,
            backslashes_before(s@, j as int) == backslashes_before(s@, k as int) + n,
        decreases k,
    {
        k = k - 1;
        n = n + 1;
    }
    n
}

/// The offset (in characters) of the first `quote` in `s` not preceded by
/// an odd number of backslashes.
pub fn find_unescaped_quote_end(s: &[char], quote: char) -> (r: Option<usize>)
    ensures
        match r {
            Some(k) => unescaped_from(s@, quote, 0) == Some(k as int),
            None => unescaped_from(s@, quote, 0) is None,
        },
{
    let mut i: usize = 0;
    while i < s.len()
        invariant
            0 <= i <= s@.len(),
            unescaped_from(s@, quote, 0) == unescaped_from(s@, quote, i as int),
        decreases s@.len() - i,
    {
        if s[i] == quote {
            let n = backslashes_exec(s, i);
            if n % 2 == 0 {
                return Some(i);
            }
        }
        i = i + 1;
    }
    None
}

/// The first index at or after `i` that holds an ASCII letter, or `j`.
pub open spec fn first_alpha(s: Seq<char>, i: int, j: int) -> int
    decreases j - i,
{
    if i < j && !is_ascii_alpha(s[i]) {
        first_alpha(s, i + 1, j)
    } else {
        i
    }
}

/// The end of the last ASCII letter before `j`, not below `i`.
pub open spec fn last_alpha_end(s: Seq<char>, i: int, j: int) -> int
    decreases j - i,
{
    if i < j && !is_ascii_alpha(s[j - 1]) {
        last_alpha_end(s, i, j - 1)
    } else {
        j
    }
}

/// The token with its leading and trailing non-letters trimmed.
pub open spec fn token_core(t: Seq<char>) -> Seq<char> {
    let a = first_alpha(t, 0, t.len() as int);
    t.subrange(a, last_alpha_end(t, a, t.len() as int))
}

/// A whitespace-split token that is a word: after trimming non-letters
/// from both ends, at least two characters, all ASCII letters.
pub open spec fn word_token(t: Seq<char>) -> bool {
    let c = token_core(t);
    c.len() >= 2 && forall|k: int| 0 <= k < c.len() ==> is_ascii_alpha(#[trigger] c[k])
}

pub proof fn lemma_alpha_bounds(s: Seq<char>, i: int, j: int)
    requires
        0 <= i <= j <= s.len(),
    ensures
        i <= first_alpha(s, i, j) <= j,
        first_alpha(s, i, j) <= last_alpha_end(s, first_alpha(s, i, j), j) <= j,
    decreases j - i,
{
    if i < j && !is_ascii_alpha(s[i]) {
        lemma_alpha_bounds(s, i + 1, j);
    } else {
        lemma_last_alpha(s, i, j);
    }
}

pub proof fn lemma_last_alpha(s: Seq<char>, i: int, j: int)
    requires
        0 <= i <= j <= s.len(),
    ensures
        i <= last_alpha_end(s, i, j) <= j,
    decreases j - i,
{
    if i < j && !is_ascii_alpha(s[j - 1]) {
        lemma_last_alpha(s, i, j - 1);
    }
}

proof fn lemma_first_alpha_at(s: Seq<char>, i: int, k: int, j: int)
    requires
        0 <= i <= k < j <= s.len(),
        forall|m: int| i <= m < k ==> !is_ascii_alpha(#[trigger] s[m]),
        is_ascii_alpha(s[k]),
    ensures
        first_alpha(s, i, j) == k,
    decreases k - i,
{
    if i < k {
        lemma_first_alpha_at(s, i + 1, k, j);
    }
}

proof fn lemma_last_alpha_at(s: Seq<char>, i: int, k: int, j: int)
    requires
        0 <= i < k <= j <= s.len(),
        forall|m: int| k <= m < j ==> !is_ascii_alpha(#[trigger] s[m]),
        is_ascii_alpha(s[k - 1]),
    ensures
        last_alpha_end(s, i, j) == k,
    decreases j - k,
{
    if k < j {
        lemma_last_alpha_at(s, i, k, j - 1);
    }
}

/// A token is a word when, past any leading and trailing non-letters,
/// it is a run of two or more ASCII letters: `No`, `results.` and
/// `"Done"` all count.
pub proof fn law_letter_runs_are_words(lead: Seq<char>, run: Seq<char>, tail: Seq<char>)
    requires
        run.len() >= 2,
        forall|k: int| 0 <= k < run.len() ==> is_ascii_alpha(#[trigger] run[k]),
        forall|k: int| 0 <= k < lead.len() ==> !is_ascii_alpha(#[trigger] lead[k]),
        forall|k: int| 0 <= k < tail.len() ==> !is_ascii_alpha(#[trigger] tail[k]),
    ensures
        word_token(lead + run + tail),
{
    let t = lead + run + tail;
    let a = lead.len() as int;
    let e = a + run.len();
    assert forall|m: int| 0 <= m < a implies !is_ascii_alpha(#[trigger] t[m]) by {
        assert(t[m] == lead[m]);
    }
    assert(t[a] == run[0]);
    lemma_first_alpha_at(t, 0, a, t.len() as int);
    assert forall|m: int| e <= m < t.len() implies !is_ascii_alpha(#[trigger] t[m]) by {
        assert(t[m] == tail[m - e]);
    }
    assert(t[e - 1] == run[run.len() - 1]);
    lemma_last_alpha_at(t, a, e, t.len() as int);
    assert(token_core(t) =~= run);
}

/// A token whose letters are broken by anything else (`a1b`, `don't`,
/// `x-y`) is not a word, whatever non-letters surround it.
pub proof fn law_broken_runs_are_not_words(lead: Seq<char>, run: Seq<char>, tail: Seq<char>, j: int)
    requires
        run.len() >= 2,
        is_ascii_alpha(run[0]),
        is_ascii_alpha(run[run.len() - 1]),
        0 < j < run.len() - 1,
        !is_ascii_alpha(run[j]),
        forall|k: int| 0 <= k < lead.len() ==> !is_ascii_alpha(#[trigger] lead[k]),
        forall|k: int| 0 <= k < tail.len() ==> !is_ascii_alpha(#[trigger] tail[k]),
    ensures
        !word_token(lead + run + tail),
{
    let t = lead + run + tail;
    let a = lead.len() as int;
    let e = a + run.len();
    assert forall|m: int| 0 <= m < a implies !is_ascii_alpha(#[trigger] t[m]) by {
        assert(t[m] == lead[m]);
    }
    assert(t[a] == run[0]);
    lemma_first_alpha_at(t, 0, a, t.len() as int);
    assert forall|m: int| e <= m < t.len() implies !is_ascii_alpha(#[trigger] t[m]) by {
        assert(t[m] == tail[m - e]);
    }
    assert(t[e - 1] == run[run.len() - 1]);
    lemma_last_alpha_at(t, a, e, t.len() as int);
    assert(token_core(t) =~= run);
    assert(!is_ascii_alpha(token_core(t)[j]));
}

/// A token with fewer than two ASCII letters is never a word.
pub proof fn law_short_tokens_are_not_words(t: Seq<char>)
    requires
        forall|i: int, j: int|
            0 <= i < j < t.len() ==> !(is_ascii_alpha(#[trigger] t[i]) && is_ascii_alpha(#[trigger] t[j])),
    ensures
        !word_token(t),
{
    lemma_alpha_bounds(t, 0, t.len() as int);
    let c = token_core(t);
    let a = first_alpha(t, 0, t.len() as int);
    if c.len() >= 2 && forall|k: int| 0 <= k < c.len() ==> is_ascii_alpha(#[trigger] c[k]) {
        assert(c[0] == t[a]);
        assert(c[1] == t[a + 1]);
        assert(is_ascii_alpha(c[0]) && is_ascii_alpha(c[1]));
    }
}

fn is_alpha_exec(c: char) -> (r: bool)
    ensures
        r == is_ascii_alpha(c),
{
    ('a' <= c && c <= 'z') || ('A' <= c && c <= 'Z')
}

/// Whether a whitespace-split token counts as a word.
pub fn is_word_token(token: &[char]) -> (r: bool)
    ensures
        r == word_token(token@),
{
    let mut a: usize = 0;
    while a < token.len() && !is_alpha_exec(token[a])
        invariant
            0 <= a <= token@.len(),
            first_alpha(token@, 0, token@.len() as int) == first_alpha(
                token@,
                a as int,
                token@.len() as int,
            ),
        decreases token@.len() - a,
    {
        a = a + 1;
    }
    let mut e: usize = token.len();
    while e > a && !is_alpha_exec(token[e - 1])
        invariant
            a <= e <= token@.len(),
            last_alpha_end(token@, a as int, token@.len() as int) == last_alpha_end(
                token@,
                a as int,
                e as int,
            ),
        decreases e - a,
    {
        e = e - 1;
    }
    proof {
        lemma_alpha_bounds(token@, 0, token@.len() as int);
    }
    let core = slice_chars(token, a, e);
    if core.len() < 2 {
        return false;
    }
    assert(core@ == token_core(token@));
    let mut k: usize = 0;
    while k < core.len()
        invariant
            0 <= k <= core@.len(),
            core@.len() >= 2,
            core@ == token_core(token@),
            forall|m: int| 0 <= m < k ==> is_ascii_alpha(#[trigger] core@[m]),
        decreases core@.len() - k,
    {
        if !is_alpha_exec(core[k]) {
            return false;
        }
        k = k + 1;
    }
    true
}

/// The number of word tokens among `ws`.
pub open spec fn word_count(ws: Seq<Seq<char>>) -> nat
    decreases ws.len(),
{
    if ws.len() == 0 {
        0
    } else {
        word_count(ws.drop_last()) + if word_token(ws.last()) {
            1nat
        } else {
            0nat
        }
    }
}

proof fn lemma_run_ends_at(s: Seq<char>, i: int, k: int)
    requires
        0 <= i <= k <= s.len(),
        forall|m: int| i <= m < k ==> !is_ws(#[trigger] s[m]),
        k < s.len() ==> is_ws(s[k]),
    ensures
        next_ws(s, i) == k,
    decreases k - i,
{
    if i < k {
        lemma_run_ends_at(s, i + 1, k);
    }
}

proof fn lemma_gap_ends_at(s: Seq<char>, i: int, k: int)
    requires
        0 <= i <= k <= s.len(),
        forall|m: int| i <= m < k ==> is_ws(#[trigger] s[m]),
        k < s.len() ==> !is_ws(s[k]),
    ensures
        skip_ws_from(s, i) == k,
    decreases k - i,
{
    if i < k {
        lemma_gap_ends_at(s, i + 1, k);
    }
}

/// Two words with a space between them read as prose (unless they are
/// the `use strict` pragma): a literal such as `No results` is reported.
pub proof fn law_two_words_are_prose(a: Seq<char>, b: Seq<char>)
    requires
        word_token(a),
        word_token(b),
        forall|k: int| 0 <= k < a.len() ==> !is_ws(#[trigger] a[k]),
        forall|k: int| 0 <= k < b.len() ==> !is_ws(#[trigger] b[k]),
        a + seq![' '] + b != "use strict"@,
    ensures
        prose(a + seq![' '] + b),
{
    let s = a + seq![' '] + b;
    let n = a.len() as int;
    lemma_alpha_bounds(a, 0, a.len() as int);
    lemma_alpha_bounds(b, 0, b.len() as int);
    assert(a.len() >= 2 && b.len() >= 1);
    assert forall|m: int| 0 <= m < n implies !is_ws(#[trigger] s[m]) by {
        assert(s[m] == a[m]);
    }
    assert(s[n] == ' ');
    assert forall|m: int| n + 1 <= m < s.len() implies !is_ws(#[trigger] s[m]) by {
        assert(s[m] == b[m - n - 1]);
    }
    assert(s[0] == a[0]);
    lemma_gap_ends_at(s, 0, 0);
    lemma_run_ends_at(s, 0, n);
    assert(s[n + 1] == b[0]);
    lemma_gap_ends_at(s, n, n + 1);
    lemma_run_ends_at(s, n + 1, s.len() as int);
    lemma_gap_ends_at(s, s.len() as int, s.len() as int);
    assert(s.subrange(0, n) =~= a);
    assert(s.subrange(n + 1, s.len() as int) =~= b);
    assert(words_from(s, s.len() as int) =~= Seq::<Seq<char>>::empty());
    assert(words_from(s, n) =~= seq![b]);
    assert(words(s) =~= seq![a, b]);
    assert(seq![a, b].drop_last() =~= seq![a]);
    assert(seq![a].drop_last() =~= Seq::<Seq<char>>::empty());
    assert(word_count(Seq::<Seq<char>>::empty()) == 0);
    assert(seq![a].last() == a);
    assert(word_count(seq![a]) == 1);
    assert(seq![a, b].last() == b);
    assert(word_count(seq![a, b]) == 2);
}

/// A literal with no whitespace in it is a single token at most, and a
/// single word never reads as prose.
pub proof fn law_one_token_is_not_prose(t: Seq<char>)
    requires
        forall|k: int| 0 <= k < t.len() ==> !is_ws(#[trigger] t[k]),
    ensures
        !prose(t),
{
    let n = t.len() as int;
    lemma_gap_ends_at(t, n, n);
    assert(words_from(t, n) =~= Seq::<Seq<char>>::empty());
    assert(word_count(Seq::<Seq<char>>::empty()) == 0);
    if n == 0 {
        lemma_gap_ends_at(t, 0, 0);
        assert(words(t) =~= Seq::<Seq<char>>::empty());
    } else {
        lemma_gap_ends_at(t, 0, 0);
        lemma_run_ends_at(t, 0, n);
        assert(t.subrange(0, n) =~= t);
        assert(words(t) =~= seq![t]);
        assert(seq![t].drop_last() =~= Seq::<Seq<char>>::empty());
        assert(word_count(seq![t]) <= 1);
    }
}

/// A literal that reads as prose: two or more word tokens, and not the
/// `use strict` pragma.
pub open spec fn prose(literal: Seq<char>) -> bool {
    literal != "use strict"@ && word_count(words(literal)) >= 2
}

/// Whether a string literal reads as user-visible prose.
pub fn looks_like_prose(literal: &[char]) -> (r: bool)
    ensures
        r == prose(literal@),
{
    let pragma = chars_of("use strict");
    if crate::text::eq_chars(literal, &pragma) {
        return false;
    }
    let ws = words_of(literal);
    let ghost wv = views(ws@);
    let mut n: u64 = 0;
    let mut i: usize = 0;
    while i < ws.len()
        invariant
            0 <= i <= ws@.len(),
            wv == views(ws@),
            n == word_count(wv.take(i as int)),
            n <= i,
        decreases ws@.len() - i,
    {
        proof {
            assert(wv.take(i + 1).drop_last() =~= wv.take(i as int));
            assert(wv.take(i + 1).last() == ws@[i as int]@);
        }
        if is_word_token(&ws[i]) {
            n = n + 1;
        }
        i = i + 1;
    }
    proof {
        assert(wv.take(i as int) =~= wv);
    }
    n >= 2
}

/// A literal found by a scan: where, and its text.
pub struct Violation {
    pub file: String,
    pub line: usize,
    pub text: String,
}

pub struct ViolationView {
    pub file: Seq<char>,
    pub line: int,
    pub text: Seq<char>,
}

pub open spec fn violation_views(v: Seq<Violation>) -> Seq<ViolationView> {
    v.map_values(|x: Violation| ViolationView { file: x.file@, line: x.line as int, text: x.text@ })
}

/// The number of `'\n'` in `s.take(k)`.
pub open spec fn newlines_before(s: Seq<char>, k: int) -> nat
    decreases k,
{
    if k <= 0 || k > s.len() {
        0
    } else {
        newlines_before(s, k - 1) + if s[k - 1] == '\n' {
            1nat
        } else {
            0nat
        }
    }
}

/// The line number (from 1) of index `k`.
pub open spec fn line_number(s: Seq<char>, k: int) -> int {
    1 + newlines_before(s, k) as int
}

/// No more newlines stand before index `k` than characters do.
pub proof fn lemma_newlines_bound(s: Seq<char>, k: int)
    ensures
        newlines_before(s, k) <= if k < 0 { 0 } else { k },
    decreases k,
{
    if k > 0 && k <= s.len() {
        lemma_newlines_bound(s, k - 1);
    }
}

/// The 1-based line of index `idx` in `s`; `idx` may stand just past the
/// end, where the line is one more than the number of newlines in `s`.
/// The line number itself must fit in a `usize`.
pub fn line_of(s: &[char], idx: usize) -> (r: usize)
    requires
        idx <= s@.len(),
        line_number(s@, idx as int) <= usize::MAX,
    ensures
        r == line_number(s@, idx as int),
{
    let mut n: usize = 0;
    let mut k: usize = 0;
    while k < idx
        invariant
            0 <= k <= idx <= s@.len(),
            n == newlines_before(s@, k as int),
            n <= k,
        decreases idx - k,
    {
        if s[k] == '\n' {
            n = n + 1;
        }
        k = k + 1;
    }
    n + 1
}

/// The prose literals of a script from index `i`: each `"` or `'` opens a
/// literal that runs to the next unescaped quote of the same kind.
pub open spec fn literals_from(s: Seq<char>, i: int) -> Seq<(int, Seq<char>)>
    decreases s.len() - i,
{
    if i < 0 || i >= s.len() {
        Seq::empty()
    } else if s[i] == '"' || s[i] == '\'' {
        let rest = s.skip(i + 1);
        match unescaped_from(rest, s[i], 0) {
            Some(e) => {
                proof {
                    lemma_unescaped_bound(rest, s[i], 0);
                }
                let lit = rest.take(e);
                (if prose(lit) {
                    seq![(i, lit)]
                } else {
                    Seq::empty()
                }) + literals_from(s, i + 1 + e + 1)
            },
            None => literals_from(s, i + 1),
        }
    } else {
        literals_from(s, i + 1)
    }
}

pub proof fn lemma_unescaped_bound(s: Seq<char>, q: char, i: int)
    requires
        0 <= i,
    ensures
        match unescaped_from(s, q, i) {
            Some(e) => i <= e < s.len(),
            None => true,
        },
    decreases s.len() - i,
{
    if i < s.len() && !(s[i] == q && backslashes_before(s, i) % 2 == 0) {
        lemma_unescaped_bound(s, q, i + 1);
    }
}

/// Positioned literals as violations of `file`.
pub open spec fn as_violations(ps: Seq<(int, Seq<char>)>, s: Seq<char>, file: Seq<char>) -> Seq<
    ViolationView,
> {
    ps.map_values(
        |p: (int, Seq<char>)| ViolationView { file: file, line: line_number(s, p.0), text: p.1 },
    )
}

/// The violations a scan of `stripped` finds, with their line numbers.
pub open spec fn script_violations(stripped: Seq<char>, file: Seq<char>) -> Seq<ViolationView> {
    as_violations(literals_from(stripped, 0), stripped, file)
}

/// One left-to-right pass over the string literals of a script (comments
/// already stripped), recording each that reads as prose.
pub fn scan_string_literals(stripped: &[char], rel_path: &str, out: &mut Vec<Violation>)
    ensures
        violation_views(final(out)@) == violation_views(old(out)@) + script_violations(
            stripped@,
            rel_path@,
        ),
{
    let ghost start = violation_views(out@);
    let ghost all = literals_from(stripped@, 0);
    let ghost mut n: int = 0;
    let mut i: usize = 0;
    proof {
        assert(all.skip(0) =~= all);
        assert(all.take(0) =~= Seq::<(int, Seq<char>)>::empty());
        assert(violation_views(out@) =~= start + as_violations(all.take(0), stripped@, rel_path@));
    }
    while i < stripped.len()
        invariant
            0 <= i <= stripped@.len(),
            all == literals_from(stripped@, 0),
            0 <= n <= all.len(),
            all.skip(n) == literals_from(stripped@, i as int),
            violation_views(out@) == start + as_violations(all.take(n), stripped@, rel_path@),
        decreases stripped@.len() - i,
    {
        let c = stripped[i];
        if c == '"' || c == '\'' {
            let rest = slice_chars(stripped, i + 1, stripped.len());
            assert(rest@ =~= stripped@.skip(i + 1));
            match find_unescaped_quote_end(&rest, c) {
                Some(e) => {
                    proof {
                        lemma_unescaped_bound(rest@, c, 0);
                    }
                    let lit = slice_chars(&rest, 0, e);
                    assert(lit@ =~= rest@.take(e as int));
                    let ghost next = literals_from(stripped@, i + 1 + e + 1);
                    if looks_like_prose(&lit) {
                        proof {
                            lemma_newlines_bound(stripped@, i as int);
                        }
                        let line = line_of(stripped, i);
                        let ghost before = violation_views(out@);
                        let path = chars_of(rel_path);
                        let v = Violation { file: string_of(&path), line, text: string_of(&lit) };
                        out.push(v);
                        proof {
                            assert(literals_from(stripped@, i as int) == seq![(i as int, lit@)]
                                + next);
                            assert(all.skip(n)[0] == (i as int, lit@));
                            assert(all.skip(n + 1) =~= all.skip(n).skip(1));
                            assert(all.skip(n).skip(1) =~= next);
                            assert(all.take(n + 1) =~= all.take(n).push((i as int, lit@)));
                            assert(violation_views(out@) =~= before.push(
                                ViolationView { file: rel_path@, line: line as int, text: lit@ },
                            ));
                            assert(as_violations(all.take(n + 1), stripped@, rel_path@) =~= as_violations(
                                all.take(n),
                                stripped@,
                                rel_path@,
                            ).push(ViolationView { file: rel_path@, line: line as int, text: lit@ }));
                            n = n + 1;
                        }
                    } else {
                        proof {
                            assert(literals_from(stripped@, i as int) == Seq::<(int, Seq<char>)>::empty()
                                + next);
                            assert(Seq::<(int, Seq<char>)>::empty() + next =~= next);
                        }
                    }
                    i = i + 1 + e + 1;
                },
                None => {
                    i = i + 1;
                },
            }
        } else {
            i = i + 1;
        }
    }
    proof {
        assert(all.skip(n).len() == 0);
        assert(all.take(n) =~= all);
    }
}

/// `search.js`, the one script this scan does not read: it needs a
/// rendering mechanism on the script side that does not exist yet.
pub open spec fn allowlisted_script(filename: Seq<char>) -> bool {
    filename == "search.js"@
}

/// Whether the scan skips the script named `filename`.
pub fn is_allowlisted(filename: &str) -> (r: bool)
    ensures
        r == allowlisted_script(filename@),
{
    let f = chars_of(filename);
    let a = chars_of("search.js");
    crate::text::eq_chars(&f, &a)
}

/// The violations over `(file name, source)` scripts, in order.
pub open spec fn static_js_violations(files: Seq<(Seq<char>, Seq<char>)>) -> Seq<ViolationView>
    decreases files.len(),
{
    if files.len() == 0 {
        Seq::empty()
    } else {
        let f = files.last();
        static_js_violations(files.drop_last()) + if allowlisted_script(f.0) {
            Seq::empty()
        } else {
            script_violations(without_line_comments(f.1), f.0)
        }
    }
}

/// Every prose literal in the scripts `(file name, source)`, outside the
/// allowlisted one, comments stripped first.
pub fn all_violations(files: &Vec<(String, String)>) -> (r: Vec<Violation>)
    ensures
        violation_views(r@) == static_js_violations(
            files@.map_values(|p: (String, String)| (p.0@, p.1@)),
        ),
{
    let ghost fv = files@.map_values(|p: (String, String)| (p.0@, p.1@));
    let mut out: Vec<Violation> = Vec::new();
    let mut i: usize = 0;
    proof {
        assert(violation_views(out@) =~= Seq::<ViolationView>::empty());
    }
    while i < files.len()
        invariant
            0 <= i <= files@.len(),
            fv == files@.map_values(|p: (String, String)| (p.0@, p.1@)),
            violation_views(out@) == static_js_violations(fv.take(i as int)),
        decreases files@.len() - i,
    {
        proof {
            assert(fv.take(i + 1).drop_last() =~= fv.take(i as int));
            assert(fv.take(i + 1).last() == (files@[i as int].0@, files@[i as int].1@));
        }
        let name = files[i].0.as_str();
        if !is_allowlisted(name) {
            let src = chars_of(files[i].1.as_str());
            let stripped = strip_line_comments_chars(&src);
            scan_string_literals(&stripped, name, &mut out);
        } else {
            proof {
                assert(violation_views(out@) + Seq::<ViolationView>::empty() =~= violation_views(
                    out@,
                ));
            }
        }
        i = i + 1;
    }
    proof {
        assert(fv.take(i as int) =~= fv);
    }
    out
}

} // verus!
