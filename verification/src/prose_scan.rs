//! Hardcoded user-visible prose in the component and handler sources.
//!
//! After `//` comments and `#[cfg(test)]` items are removed, the scan
//! reports:
//!
//! - a literal `="…"` value of one of the copy-bearing attributes
//!   (`aria-label`, `title`, `placeholder`, `onsubmit`) that holds a word
//!   outside `{…}` and no `%`;
//! - a quoted text node right between two tags, `>"…"<`;
//! - a line that is nothing but `"…"` with a tag (or a complete `{…}`
//!   expression) on the nearest non-empty line before and after it.
//!
//! A reported literal is allowed only through an allowlist entry, each with
//! a reason that is a decision.
use vstd::prelude::*;
use crate::js_scan::{
    closing_brace, lemma_closing_brace, lemma_newlines_bound, lemma_unescaped_bound, line_number,
    line_of,
    strip_line_comments_chars, unescaped_from, find_unescaped_quote_end, without_line_comments,
};
use crate::text::{
    alphanumeric, chars_of, contains, contains_chars, copy_of, ends_with, ends_with_chars,
    eq_chars, find, find_chars, find_chars_from, find_from, is_alphanumeric, is_ascii_alpha,
    lemma_find_from, push_all, push_str_chars, slice_chars, split, split_at_char, starts_with,
    starts_with_chars, string_of, string_views, trim, trim_of, views,
};

verus! {

broadcast use vstd::slice::group_slice_axioms;

// ---------------------------------------------------------------------
// Removing `#[cfg(test)]` items
// ---------------------------------------------------------------------

/// Where the `#[cfg(test)]` item at the start of `after` ends: just past
/// its `;` when one comes before any `{`, else just past the brace that
/// closes its first `{` (or the end of the text), else just past the
/// marker itself.
pub open spec fn item_end(after: Seq<char>) -> int {
    let b = find(after, seq!['{']);
    let s = find(after, seq![';']);
    match b {
        Some(bi) => if s is Some && s.unwrap() < bi {
            s.unwrap() + 1
        } else {
            match closing_brace(after, bi, 0) {
                Some(e) => e + 1,
                None => after.len() as int,
            }
        },
        None => match s {
            Some(si) => si + 1,
            None => "#[cfg(test)]"@.len() as int,
        },
    }
}

/// `rest` with each `#[cfg(test)]` item removed.
pub open spec fn strip_cfg_from(rest: Seq<char>) -> Seq<char>
    decreases rest.len(),
{
    match find(rest, "#[cfg(test)]"@) {
        None => rest,
        Some(idx) => {
            let after = rest.skip(idx);
            proof {
                lemma_item_end(rest, idx);
            }
            rest.take(idx) + strip_cfg_from(after.skip(item_end(after)))
        },
    }
}

pub proof fn lemma_item_end(rest: Seq<char>, idx: int)
    requires
        find(rest, "#[cfg(test)]"@) == Some(idx),
    ensures
        0 <= idx <= rest.len(),
        1 <= item_end(rest.skip(idx)) <= rest.skip(idx).len(),
{
    lemma_find_from(rest, "#[cfg(test)]"@, 0);
    let after = rest.skip(idx);
    lemma_find_from(after, seq!['{'], 0);
    lemma_find_from(after, seq![';'], 0);
    assert("#[cfg(test)]"@.len() == 12) by {
        reveal_strlit("#[cfg(test)]");
    }
    match find(after, seq!['{']) {
        Some(bi) => {
            lemma_closing_brace(after, bi, 0);
        },
        None => {},
    }
}

/// Just past the brace that closes the `{` at `bi` (or the end).
fn closing_index(after: &[char], bi: usize) -> (r: usize)
    requires
        bi < after@.len(),
        after@[bi as int] == '{',
    ensures
        r as int == match closing_brace(after@, bi as int, 0) {
            Some(e) => e + 1,
            None => after@.len() as int,
        },
{
    let mut depth: u64 = 0;
    let mut i: usize = bi;
    while i < after.len()
        invariant
            bi <= i <= after@.len(),
            after@[bi as int] == '{',
            (i == bi && depth == 0) || (i > bi && depth >= 1),
            depth <= i,
            closing_brace(after@, bi as int, 0) == closing_brace(after@, i as int, depth as int),
        decreases after@.len() - i,
    {
        let c = after[i];
        if c == '{' {
            depth = depth + 1;
        } else if c == '}' {
            if depth == 1 {
                return i + 1;
            }
            depth = depth - 1;
        }
        i = i + 1;
    }
    after.len()
}

/// The `#[cfg(test)]` items of a source text removed, braces counted
/// without regard to string literals.
pub fn strip_cfg_test_blocks(src: &[char]) -> (r: Vec<char>)
    ensures
        r@ == strip_cfg_from(src@),
{
    let marker = chars_of("#[cfg(test)]");
    let open: Vec<char> = vec!['{'];
    let semi: Vec<char> = vec![';'];
    assert(open@ =~= seq!['{']);
    assert(semi@ =~= seq![';']);
    let mut result: Vec<char> = Vec::new();
    let mut rest = copy_of(src);
    loop
        invariant
            marker@ == "#[cfg(test)]"@,
            open@ == seq!['{'],
            semi@ == seq![';'],
            strip_cfg_from(src@) == result@ + strip_cfg_from(rest@),
        decreases rest@.len(),
    {
        let idx = match find_chars(&rest, &marker) {
            None => {
                push_all(&mut result, &rest);
                return result;
            },
            Some(i) => i,
        };
        proof {
            lemma_item_end(rest@, idx as int);
        }
        let head = slice_chars(&rest, 0, idx);
        let after = slice_chars(&rest, idx, rest.len());
        assert(head@ =~= rest@.take(idx as int));
        assert(after@ =~= rest@.skip(idx as int));
        let b = find_chars(&after, open.as_slice());
        let s = find_chars(&after, semi.as_slice());
        proof {
            lemma_find_from(after@, seq!['{'], 0);
            lemma_find_from(after@, seq![';'], 0);
        }
        let end: usize = match b {
            Some(bi) => {
                let semi_first = match s {
                    Some(si) => si < bi,
                    None => false,
                };
                if semi_first {
                    s.unwrap() + 1
                } else {
                    proof {
                        assert(after@.subrange(bi as int, bi + 1) == seq!['{']);
                        assert(after@[bi as int] == after@.subrange(bi as int, bi + 1)[0]);
                    }
                    closing_index(&after, bi)
                }
            },
            None => match s {
                Some(si) => si + 1,
                None => marker.len(),
            },
        };
        proof {
            assert(end as int == item_end(after@));
        }
        let ghost before = result@;
        push_all(&mut result, &head);
        let next = slice_chars(&after, end, after.len());
        proof {
            assert(next@ =~= after@.skip(end as int));
            assert(strip_cfg_from(rest@) == head@ + strip_cfg_from(next@));
            assert(result@ + strip_cfg_from(rest@) =~= (result@ + head@) + strip_cfg_from(next@));
        }
        rest = next;
    }
}

// ---------------------------------------------------------------------
// What counts as a word
// ---------------------------------------------------------------------

/// The characters of `s` outside `{…}`, and the brace depth at its end
/// (a `}` at depth zero stays at zero).
pub open spec fn outside_braces(s: Seq<char>) -> (Seq<char>, nat)
    decreases s.len(),
{
    if s.len() == 0 {
        (Seq::empty(), 0)
    } else {
        let prev = outside_braces(s.drop_last());
        let c = s.last();
        if c == '{' {
            (prev.0, prev.1 + 1)
        } else if c == '}' {
            (prev.0, if prev.1 > 0 {
                (prev.1 - 1) as nat
            } else {
                0
            })
        } else if prev.1 == 0 {
            (prev.0.push(c), prev.1)
        } else {
            prev
        }
    }
}

/// Two ASCII letters in a row.
pub open spec fn has_two_letters(o: Seq<char>) -> bool {
    exists|k: int| 0 <= k && k + 1 < o.len() && is_ascii_alpha(#[trigger] o[k]) && is_ascii_alpha(o[k + 1])
}

/// After discarding anything inside `{…}`, two consecutive ASCII letters
/// remain: the scan's proxy for "contains a word".
pub open spec fn has_word(s: Seq<char>) -> bool {
    has_two_letters(outside_braces(s).0)
}

fn is_alpha(c: char) -> (r: bool)
    ensures
        r == is_ascii_alpha(c),
{
    ('a' <= c && c <= 'z') || ('A' <= c && c <= 'Z')
}

/// Whether two ASCII letters in a row remain outside `{…}`.
pub fn has_alpha_word_outside_braces(s: &[char]) -> (r: bool)
    ensures
        r == has_word(s@),
{
    let mut outside: Vec<char> = Vec::new();
    let mut depth: u64 = 0;
    let mut i: usize = 0;
    while i < s.len()
        invariant
            0 <= i <= s@.len(),
            depth <= i,
            (outside@, depth as nat) == outside_braces(s@.take(i as int)),
        decreases s@.len() - i,
    {
        proof {
            assert(s@.take(i + 1).drop_last() =~= s@.take(i as int));
            assert(s@.take(i + 1).last() == s@[i as int]);
        }
        let c = s[i];
        if c == '{' {
            depth = depth + 1;
        } else if c == '}' {
            if depth > 0 {
                depth = depth - 1;
            }
        } else if depth == 0 {
            outside.push(c);
        }
        i = i + 1;
    }
    proof {
        assert(s@.take(i as int) =~= s@);
    }
    let mut k: usize = 0;
    while k < outside.len()
        invariant
            0 <= k <= outside@.len(),
            outside@ == outside_braces(s@).0,
            forall|m: int| 0 <= m < k && m + 1 < outside@.len() ==> !(is_ascii_alpha(#[trigger] outside@[m]) && is_ascii_alpha(outside@[m + 1])),
        decreases outside@.len() - k,
    {
        if k + 1 < outside.len() && is_alpha(outside[k]) && is_alpha(outside[k + 1]) {
            return true;
        }
        k = k + 1;
    }
    false
}

/// A literal with a `%` in it: a pattern, not copy.
pub open spec fn percent_pattern(s: Seq<char>) -> bool {
    s.contains('%')
}

fn has_percent(s: &[char]) -> (r: bool)
    ensures
        r == percent_pattern(s@),
{
    let mut i: usize = 0;
    while i < s.len()
        invariant
            0 <= i <= s@.len(),
            forall|m: int| 0 <= m < i ==> s@[m] != '%',
        decreases s@.len() - i,
    {
        if s[i] == '%' {
            proof {
                assert(s@[i as int] == '%');
            }
            return true;
        }
        i = i + 1;
    }
    false
}

/// A line that is one `{expr}` block.
pub open spec fn complete_expression(l: Seq<char>) -> bool {
    l.len() >= 2 && l[0] == '{' && l.last() == '}'
}

fn complete_expression_exec(l: &[char]) -> (r: bool)
    ensures
        r == complete_expression(l@),
{
    l.len() >= 2 && l[0] == '{' && l[l.len() - 1] == '}'
}

// ---------------------------------------------------------------------
// Attribute values and text nodes
// ---------------------------------------------------------------------

/// A literal the scan reports.
pub struct Violation {
    pub file: String,
    pub line: usize,
    pub kind: String,
    pub text: String,
}

pub struct ViolationView {
    pub file: Seq<char>,
    pub line: int,
    pub kind: Seq<char>,
    pub text: Seq<char>,
}

pub open spec fn violation_views(v: Seq<Violation>) -> Seq<ViolationView> {
    v.map_values(
        |x: Violation| ViolationView { file: x.file@, line: x.line as int, kind: x.kind@, text: x.text@ },
    )
}

/// The attributes that carry copy.
pub open spec fn scoped_attrs() -> Seq<Seq<char>> {
    seq!["aria-label"@, "title"@, "placeholder"@, "onsubmit"@]
}

/// No name character (alphanumeric, `-`, `_`) right before index `idx`.
pub open spec fn attr_boundary(s: Seq<char>, idx: int) -> bool {
    idx == 0 || !(alphanumeric(s[idx - 1]) || s[idx - 1] == '-' || s[idx - 1] == '_')
}

/// What the occurrence of `<attr>="` at `idx` reports.
pub open spec fn attr_hit(s: Seq<char>, file: Seq<char>, attr: Seq<char>, idx: int, cs: int) -> Seq<ViolationView> {
    if attr_boundary(s, idx) {
        match unescaped_from(s.skip(cs), '"', 0) {
            Some(e) => {
                let lit = s.subrange(cs, cs + e);
                if has_word(lit) && !percent_pattern(lit) {
                    seq![ViolationView { file, line: line_number(s, idx), kind: "attr:"@ + attr, text: lit }]
                } else {
                    Seq::empty()
                }
            },
            None => Seq::empty(),
        }
    } else {
        Seq::empty()
    }
}

/// The attribute literals of `attr` from index `from` on.
pub open spec fn attr_hits_from(s: Seq<char>, file: Seq<char>, attr: Seq<char>, from: int) -> Seq<ViolationView>
    decreases s.len() + 1 - from,
{
    let pat = attr + "=\""@;
    if from < 0 {
        Seq::empty()
    } else {
        match find_from(s, pat, from) {
            None => Seq::empty(),
            Some(idx) => {
                proof {
                    lemma_find_from(s, pat, from);
                    assert("=\""@.len() == 2) by {
                        reveal_strlit("=\"");
                    }
                }
                let cs = idx + pat.len();
                attr_hit(s, file, attr, idx, cs) + attr_hits_from(s, file, attr, cs)
            },
        }
    }
}

/// The literal values of the copy-bearing attributes, attribute by
/// attribute.
pub open spec fn attr_hits(s: Seq<char>, file: Seq<char>) -> Seq<ViolationView> {
    attr_hits_from(s, file, "aria-label"@, 0) + attr_hits_from(s, file, "title"@, 0)
        + attr_hits_from(s, file, "placeholder"@, 0) + attr_hits_from(s, file, "onsubmit"@, 0)
}

fn violation_of(file: &str, line: usize, kind: &[char], text: &[char]) -> (r: Violation)
    ensures
        r.file@ == file@,
        r.line == line,
        r.kind@ == kind@,
        r.text@ == text@,
{
    let f = chars_of(file);
    Violation { file: string_of(&f), line, kind: string_of(kind), text: string_of(text) }
}

fn scan_attr(stripped: &[char], rel_path: &str, attr: &str, out: &mut Vec<Violation>)
    ensures
        violation_views(final(out)@) == violation_views(old(out)@) + attr_hits_from(
            stripped@,
            rel_path@,
            attr@,
            0,
        ),
{
    let mut pattern = chars_of(attr);
    push_str_chars(&mut pattern, "=\"");
    let mut kind = chars_of("attr:");
    let a = chars_of(attr);
    push_all(&mut kind, &a);
    let ghost start = violation_views(out@);
    let mut search_from: usize = 0;
    proof {
        assert("=\""@.len() == 2) by {
            reveal_strlit("=\"");
        }
    }
    loop
        invariant
            pattern@ == attr@ + "=\""@,
            "=\""@.len() == 2,
            kind@ == "attr:"@ + attr@,
            start == violation_views(old(out)@),
            search_from <= stripped@.len(),
            attr_hits_from(stripped@, rel_path@, attr@, 0) == violation_views(out@).skip(
                start.len() as int,
            ) + attr_hits_from(stripped@, rel_path@, attr@, search_from as int),
            violation_views(out@).take(start.len() as int) == start,
            violation_views(out@).len() >= start.len(),
        decreases stripped@.len() + 1 - search_from,
    {
        let idx = match find_chars_from(stripped, &pattern, search_from) {
            None => {
                proof {
                    assert(attr_hits_from(stripped@, rel_path@, attr@, search_from as int) =~= Seq::<
                        ViolationView,
                    >::empty());
                    assert(violation_views(out@) =~= start + violation_views(out@).skip(
                        start.len() as int,
                    ));
                }
                return;
            },
            Some(i) => i,
        };
        proof {
            lemma_find_from(stripped@, pattern@, search_from as int);
            assert(stripped@.len() == stripped.len());
            assert(idx + pattern@.len() <= stripped@.len());
        }
        let content_start = idx + pattern.len();
        let boundary_ok = idx == 0 || {
            let p = stripped[idx - 1];
            !(is_alphanumeric(p) || p == '-' || p == '_')
        };
        let ghost before = violation_views(out@);
        let ghost hit = attr_hit(stripped@, rel_path@, attr@, idx as int, content_start as int);
        if boundary_ok {
            let rest = slice_chars(stripped, content_start, stripped.len());
            assert(rest@ =~= stripped@.skip(content_start as int));
            match find_unescaped_quote_end(&rest, '"') {
                Some(e) => {
                    proof {
                        lemma_unescaped_bound(rest@, '"', 0);
                    }
                    let lit = slice_chars(stripped, content_start, content_start + e);
                    if has_alpha_word_outside_braces(&lit) && !has_percent(&lit) {
                        proof {
                            lemma_newlines_bound(stripped@, idx as int);
                        }
                        let line = line_of(stripped, idx);
                        let v = violation_of(rel_path, line, &kind, &lit);
                        out.push(v);
                        proof {
                            assert(violation_views(out@) =~= before + hit);
                        }
                    } else {
                        proof {
                            assert(violation_views(out@) =~= before + hit);
                        }
                    }
                },
                None => {
                    proof {
                        assert(violation_views(out@) =~= before + hit);
                    }
                },
            }
        } else {
            proof {
                assert(violation_views(out@) =~= before + hit);
            }
        }
        proof {
            assert(attr_hits_from(stripped@, rel_path@, attr@, search_from as int) == hit
                + attr_hits_from(stripped@, rel_path@, attr@, content_start as int));
            assert(violation_views(out@).skip(start.len() as int) =~= before.skip(
                start.len() as int,
            ) + hit);
            assert(violation_views(out@).take(start.len() as int) =~= before.take(
                start.len() as int,
            ));
        }
        search_from = content_start;
    }
}

/// Reports the literal values of the copy-bearing attributes in `stripped`.
pub fn scan_attrs(stripped: &[char], rel_path: &str, out: &mut Vec<Violation>)
    ensures
        violation_views(final(out)@) == violation_views(old(out)@) + attr_hits(stripped@, rel_path@),
{
    let ghost start = violation_views(out@);
    scan_attr(stripped, rel_path, "aria-label", out);
    let ghost a = violation_views(out@);
    scan_attr(stripped, rel_path, "title", out);
    let ghost b = violation_views(out@);
    scan_attr(stripped, rel_path, "placeholder", out);
    let ghost c = violation_views(out@);
    scan_attr(stripped, rel_path, "onsubmit", out);
    proof {
        assert(violation_views(out@) =~= start + attr_hits(stripped@, rel_path@));
    }
}

/// The inline text nodes `>"…"<` from index `from` on.
pub open spec fn inline_from(s: Seq<char>, file: Seq<char>, from: int) -> Seq<ViolationView>
    decreases s.len() + 1 - from,
{
    if from < 0 {
        Seq::empty()
    } else {
        match find_from(s, seq!['>', '"'], from) {
            None => Seq::empty(),
            Some(idx) => {
                proof {
                    lemma_find_from(s, seq!['>', '"'], from);
                }
                let cs = idx + 2;
                match unescaped_from(s.skip(cs), '"', 0) {
                    Some(e) => {
                        proof {
                            lemma_unescaped_bound(s.skip(cs), '"', 0);
                        }
                        let lit = s.subrange(cs, cs + e);
                        let after = s.skip(cs + e + 1);
                        (if starts_with(after, seq!['<']) && has_word(lit) {
                            seq![ViolationView { file, line: line_number(s, idx), kind: "text-node-inline"@, text: lit }]
                        } else {
                            Seq::empty()
                        }) + inline_from(s, file, cs + e + 1)
                    },
                    None => inline_from(s, file, cs),
                }
            },
        }
    }
}

/// Reports the quoted text nodes written directly between two tags.
pub fn scan_inline_text_nodes(stripped: &[char], rel_path: &str, out: &mut Vec<Violation>)
    ensures
        violation_views(final(out)@) == violation_views(old(out)@) + inline_from(
            stripped@,
            rel_path@,
            0,
        ),
{
    let pat: Vec<char> = vec!['>', '"'];
    assert(pat@ =~= seq!['>', '"']);
    let lt: Vec<char> = vec!['<'];
    assert(lt@ =~= seq!['<']);
    let kind = chars_of("text-node-inline");
    let ghost start = violation_views(out@);
    let mut search_from: usize = 0;
    loop
        invariant
            pat@ == seq!['>', '"'],
            lt@ == seq!['<'],
            kind@ == "text-node-inline"@,
            start == violation_views(old(out)@),
            search_from <= stripped@.len(),
            inline_from(stripped@, rel_path@, 0) == violation_views(out@).skip(start.len() as int)
                + inline_from(stripped@, rel_path@, search_from as int),
            violation_views(out@).take(start.len() as int) == start,
            violation_views(out@).len() >= start.len(),
        decreases stripped@.len() + 1 - search_from,
    {
        let idx = match find_chars_from(stripped, pat.as_slice(), search_from) {
            None => {
                proof {
                    assert(inline_from(stripped@, rel_path@, search_from as int) =~= Seq::<
                        ViolationView,
                    >::empty());
                    assert(violation_views(out@) =~= start + violation_views(out@).skip(
                        start.len() as int,
                    ));
                }
                return;
            },
            Some(i) => i,
        };
        proof {
            lemma_find_from(stripped@, pat@, search_from as int);
            assert(stripped@.len() == stripped.len());
            assert(idx + 2 <= stripped@.len());
        }
        let content_start = idx + 2;
        let rest = slice_chars(stripped, content_start, stripped.len());
        assert(rest@ =~= stripped@.skip(content_start as int));
        let ghost before = violation_views(out@);
        match find_unescaped_quote_end(&rest, '"') {
            Some(e) => {
                proof {
                    lemma_unescaped_bound(rest@, '"', 0);
                }
                let lit = slice_chars(stripped, content_start, content_start + e);
                let after = slice_chars(stripped, content_start + e + 1, stripped.len());
                assert(after@ =~= stripped@.skip(content_start + e + 1));
                let ghost hit = if starts_with(after@, seq!['<']) && has_word(lit@) {
                    seq![ViolationView { file: rel_path@, line: line_number(stripped@, idx as int), kind: "text-node-inline"@, text: lit@ }]
                } else {
                    Seq::empty()
                };
                if starts_with_chars(&after, lt.as_slice()) && has_alpha_word_outside_braces(&lit) {
                    proof {
                        lemma_newlines_bound(stripped@, idx as int);
                    }
                    let line = line_of(stripped, idx);
                    let v = violation_of(rel_path, line, &kind, &lit);
                    out.push(v);
                }
                proof {
                    assert(violation_views(out@) =~= before + hit);
                    assert(inline_from(stripped@, rel_path@, search_from as int) == hit
                        + inline_from(stripped@, rel_path@, content_start + e + 1));
                    assert(violation_views(out@).skip(start.len() as int) =~= before.skip(
                        start.len() as int,
                    ) + hit);
                    assert(violation_views(out@).take(start.len() as int) =~= before.take(
                        start.len() as int,
                    ));
                }
                search_from = content_start + e + 1;
            },
            None => {
                search_from = content_start;
            },
        }
    }
}

/// The inner text of a line that is nothing but one simple quoted
/// literal holding a word and no `%`.
pub open spec fn standalone_literal(trimmed: Seq<char>) -> Option<Seq<char>> {
    if trimmed.len() < 2 || trimmed[0] != '"' || trimmed.last() != '"' {
        None
    } else {
        let inner = trimmed.subrange(1, trimmed.len() - 1);
        if inner.contains('"') || !has_word(inner) || percent_pattern(inner) {
            None
        } else {
            Some(inner)
        }
    }
}

/// The nearest non-empty trimmed line before index `i`.
pub open spec fn prev_nonempty(ls: Seq<Seq<char>>, i: int) -> Option<Seq<char>>
    decreases i,
{
    if i <= 0 || i > ls.len() {
        None
    } else if trim(ls[i - 1]).len() > 0 {
        Some(trim(ls[i - 1]))
    } else {
        prev_nonempty(ls, i - 1)
    }
}

/// The nearest non-empty trimmed line at or after index `i`.
pub open spec fn next_nonempty(ls: Seq<Seq<char>>, i: int) -> Option<Seq<char>>
    decreases ls.len() - i,
{
    if i < 0 || i >= ls.len() {
        None
    } else if trim(ls[i]).len() > 0 {
        Some(trim(ls[i]))
    } else {
        next_nonempty(ls, i + 1)
    }
}

pub open spec fn closes_before(p: Option<Seq<char>>) -> bool {
    match p {
        Some(l) => ends_with(l, seq!['>']) || complete_expression(l),
        None => false,
    }
}

pub open spec fn opens_after(n: Option<Seq<char>>) -> bool {
    match n {
        Some(l) => starts_with(l, seq!['<']) || complete_expression(l),
        None => false,
    }
}

/// The standalone text nodes among the first `n` lines.
pub open spec fn standalone_upto(ls: Seq<Seq<char>>, file: Seq<char>, n: int) -> Seq<ViolationView>
    decreases n,
{
    if n <= 0 || n > ls.len() {
        Seq::empty()
    } else {
        let i = n - 1;
        standalone_upto(ls, file, n - 1) + match standalone_literal(trim(ls[i])) {
            Some(inner) => if closes_before(prev_nonempty(ls, i)) && opens_after(
                next_nonempty(ls, i + 1),
            ) {
                seq![ViolationView { file, line: i + 1, kind: "text-node-line"@, text: inner }]
            } else {
                Seq::empty()
            },
            None => Seq::empty(),
        }
    }
}

/// The standalone text nodes of a text split at `'\n'`.
pub open spec fn standalone_nodes(s: Seq<char>, file: Seq<char>) -> Seq<ViolationView> {
    standalone_upto(split(s, '\n'), file, split(s, '\n').len() as int)
}

fn standalone_literal_exec(t: &[char]) -> (r: Option<Vec<char>>)
    ensures
        match r {
            Some(x) => standalone_literal(t@) == Some(x@),
            None => standalone_literal(t@) is None,
        },
{
    if t.len() < 2 || t[0] != '"' || t[t.len() - 1] != '"' {
        return None;
    }
    let inner = slice_chars(t, 1, t.len() - 1);
    let mut i: usize = 0;
    while i < inner.len()
        invariant
            0 <= i <= inner@.len(),
            t@.len() >= 2 && t@[0] == '"' && t@.last() == '"',
            inner@ == t@.subrange(1, t@.len() - 1),
            forall|m: int| 0 <= m < i ==> inner@[m] != '"',
        decreases inner@.len() - i,
    {
        if inner[i] == '"' {
            proof {
                assert(inner@[i as int] == '"');
                assert(inner@.contains('"'));
            }
            return None;
        }
        i = i + 1;
    }
    if !has_alpha_word_outside_braces(&inner) || has_percent(&inner) {
        return None;
    }
    Some(inner)
}

fn prev_nonempty_exec(ls: &Vec<Vec<char>>, i: usize) -> (r: Option<Vec<char>>)
    requires
        i <= ls@.len(),
    ensures
        match r {
            Some(x) => prev_nonempty(views(ls@), i as int) == Some(x@),
            None => prev_nonempty(views(ls@), i as int) is None,
        },
{
    let ghost lv = views(ls@);
    let mut k: usize = i;
    while k > 0
        invariant
            0 <= k <= i <= ls@.len(),
            lv == views(ls@),
            prev_nonempty(lv, i as int) == prev_nonempty(lv, k as int),
        decreases k,
    {
        let t = trim_of(&ls[k - 1]);
        proof {
            assert(lv[k - 1] == ls@[k - 1]@);
        }
        if t.len() > 0 {
            return Some(t);
        }
        k = k - 1;
    }
    None
}

fn next_nonempty_exec(ls: &Vec<Vec<char>>, i: usize) -> (r: Option<Vec<char>>)
    requires
        i <= ls@.len(),
    ensures
        match r {
            Some(x) => next_nonempty(views(ls@), i as int) == Some(x@),
            None => next_nonempty(views(ls@), i as int) is None,
        },
{
    let ghost lv = views(ls@);
    let mut k: usize = i;
    while k < ls.len()
        invariant
            i <= k <= ls@.len(),
            lv == views(ls@),
            next_nonempty(lv, i as int) == next_nonempty(lv, k as int),
        decreases ls@.len() - k,
    {
        let t = trim_of(&ls[k]);
        proof {
            assert(lv[k as int] == ls@[k as int]@);
        }
        if t.len() > 0 {
            return Some(t);
        }
        k = k + 1;
    }
    None
}

/// Reports the lines that are nothing but a quoted literal between tags
/// (or complete `{…}` expressions).
pub fn scan_standalone_text_nodes(stripped: &[char], rel_path: &str, out: &mut Vec<Violation>)
    ensures
        violation_views(final(out)@) == violation_views(old(out)@) + standalone_nodes(
            stripped@,
            rel_path@,
        ),
{
    let ls = split_at_char(stripped, '\n');
    let ghost lv = views(ls@);
    let kind = chars_of("text-node-line");
    let gt: Vec<char> = vec!['>'];
    let lt: Vec<char> = vec!['<'];
    assert(gt@ =~= seq!['>']);
    assert(lt@ =~= seq!['<']);
    let ghost start = violation_views(out@);
    let mut i: usize = 0;
    while i < ls.len()
        invariant
            0 <= i <= ls@.len(),
            lv == views(ls@),
            lv == split(stripped@, '\n'),
            kind@ == "text-node-line"@,
            gt@ == seq!['>'],
            lt@ == seq!['<'],
            violation_views(out@) == start + standalone_upto(lv, rel_path@, i as int),
        decreases ls@.len() - i,
    {
        let trimmed = trim_of(&ls[i]);
        proof {
            assert(lv[i as int] == ls@[i as int]@);
        }
        let ghost before = violation_views(out@);
        if let Some(inner) = standalone_literal_exec(&trimmed) {
            let prev = prev_nonempty_exec(&ls, i);
            let next = next_nonempty_exec(&ls, i + 1);
            let prev_ok = match &prev {
                Some(l) => ends_with_chars(l, gt.as_slice()) || complete_expression_exec(l),
                None => false,
            };
            let next_ok = match &next {
                Some(l) => starts_with_chars(l, lt.as_slice()) || complete_expression_exec(l),
                None => false,
            };
            if prev_ok && next_ok {
                let v = violation_of(rel_path, i + 1, &kind, &inner);
                out.push(v);
                proof {
                    assert(violation_views(out@) =~= before.push(
                        ViolationView { file: rel_path@, line: i + 1, kind: "text-node-line"@, text: inner@ },
                    ));
                }
            }
        }
        i = i + 1;
        proof {
            assert(violation_views(out@) =~= start + standalone_upto(lv, rel_path@, i as int));
        }
    }
}

// ---------------------------------------------------------------------
// Files and the allowlist
// ---------------------------------------------------------------------

/// What the scan reports for one source file.
pub open spec fn file_violations(content: Seq<char>, file: Seq<char>) -> Seq<ViolationView> {
    let stripped = strip_cfg_from(without_line_comments(content));
    attr_hits(stripped, file) + inline_from(stripped, file, 0) + standalone_nodes(stripped, file)
}

/// Scans one source file: `//` comments and `#[cfg(test)]` items removed,
/// then attribute values, inline text nodes and standalone text nodes.
pub fn scan_file(content: &str, rel_path: &str) -> (r: Vec<Violation>)
    ensures
        violation_views(r@) == file_violations(content@, rel_path@),
{
    let c = chars_of(content);
    let without_comments = strip_line_comments_chars(&c);
    let stripped = strip_cfg_test_blocks(&without_comments);
    let mut out: Vec<Violation> = Vec::new();
    proof {
        assert(violation_views(out@) =~= Seq::<ViolationView>::empty());
    }
    scan_attrs(&stripped, rel_path, &mut out);
    scan_inline_text_nodes(&stripped, rel_path, &mut out);
    scan_standalone_text_nodes(&stripped, rel_path, &mut out);
    proof {
        assert(violation_views(out@) =~= file_violations(content@, rel_path@));
    }
    out
}

/// The reported literals over `(relative path, content)` source files.
pub open spec fn sources_violations(files: Seq<(Seq<char>, Seq<char>)>) -> Seq<ViolationView>
    decreases files.len(),
{
    if files.len() == 0 {
        Seq::empty()
    } else {
        sources_violations(files.drop_last()) + file_violations(files.last().1, files.last().0)
    }
}

/// Every reported literal over `(relative path, content)` source files.
pub fn all_violations(files: &Vec<(String, String)>) -> (r: Vec<Violation>)
    ensures
        violation_views(r@) == sources_violations(
            files@.map_values(|p: (String, String)| (p.0@, p.1@)),
        ),
{
    let ghost fv = files@.map_values(|p: (String, String)| (p.0@, p.1@));
    let mut out: Vec<Violation> = Vec::new();
    let mut i: usize = 0;
    proof {
        assert(violation_views(out@) =~= Seq::<ViolationView>::empty());
    }
    while i < files.len()
        invariant
            0 <= i <= files@.len(),
            fv == files@.map_values(|p: (String, String)| (p.0@, p.1@)),
            violation_views(out@) == sources_violations(fv.take(i as int)),
        decreases files@.len() - i,
    {
        proof {
            assert(fv.take(i + 1).drop_last() =~= fv.take(i as int));
            assert(fv.take(i + 1).last() == (files@[i as int].0@, files@[i as int].1@));
        }
        let found = scan_file(files[i].1.as_str(), files[i].0.as_str());
        let ghost before = violation_views(out@);
        let mut k: usize = 0;
        let ghost fvs = violation_views(found@);
        while k < found.len()
            invariant
                0 <= k <= found@.len(),
                fvs == violation_views(found@),
                violation_views(out@) == before + fvs.take(k as int),
            decreases found@.len() - k,
        {
            let v = &found[k];
            let copy = Violation {
                file: v.file.clone(),
                line: v.line,
                kind: v.kind.clone(),
                text: v.text.clone(),
            };
            let ghost mid = violation_views(out@);
            out.push(copy);
            k = k + 1;
            proof {
                assert(violation_views(out@) =~= mid.push(fvs[k - 1]));
                assert(violation_views(out@) =~= before + fvs.take(k as int));
            }
        }
        proof {
            assert(fvs.take(k as int) =~= fvs);
        }
        i = i + 1;
    }
    proof {
        assert(fv.take(i as int) =~= fv);
    }
    out
}

/// An allowlist entry: a file, a snippet of the literal it allows, and
/// the reason, which is a decision.
pub struct AllowEntry {
    pub file: String,
    pub snippet: String,
    pub reason: String,
}

/// `(file, snippet)` of each allowlist entry.
pub open spec fn allow_entries() -> Seq<(Seq<char>, Seq<char>)> {
    seq![
        ("components/teams.rs"@, "Detach this project from the team?"@),
        ("components/teams.rs"@, "Leave this team?"@),
        ("components/teams.rs"@, "Remove this member from the team?"@),
        ("components/settings.rs"@, "Remove this capacity row?"@),
        ("components/notification_preferences.rs"@, "Silence all notification kinds?"@),
    ]
}

fn entry(file: &str, snippet: &str, reason: &str) -> (r: AllowEntry)
    ensures
        r.file@ == file@,
        r.snippet@ == snippet@,
        r.reason@ == reason@,
{
    AllowEntry {
        file: string_of(&chars_of(file)),
        snippet: string_of(&chars_of(snippet)),
        reason: string_of(&chars_of(reason)),
    }
}

pub open spec fn entry_views(v: Seq<AllowEntry>) -> Seq<(Seq<char>, Seq<char>)> {
    v.map_values(|e: AllowEntry| (e.file@, e.snippet@))
}

/// The allowlist: the `confirm()` dialogs that keep their inline copy.
pub fn allowlist() -> (r: Vec<AllowEntry>)
    ensures
        entry_views(r@) == allow_entries(),
{
    let mut v: Vec<AllowEntry> = Vec::new();
    v.push(
        entry(
            "components/teams.rs",
            "Detach this project from the team?",
            "onsubmit confirm() dialog -- reversible action, settled to keep its confirm() dialog unchanged",
        ),
    );
    v.push(
        entry(
            "components/teams.rs",
            "Leave this team?",
            "onsubmit confirm() dialog -- same disposition as the teams.rs entry above",
        ),
    );
    v.push(
        entry(
            "components/teams.rs",
            "Remove this member from the team?",
            "onsubmit confirm() dialog -- same disposition as the teams.rs entry above",
        ),
    );
    v.push(
        entry(
            "components/settings.rs",
            "Remove this capacity row?",
            "onsubmit confirm() dialog -- same disposition as the teams.rs entry above",
        ),
    );
    v.push(
        entry(
            "components/notification_preferences.rs",
            "Silence all notification kinds?",
            "onsubmit confirm() dialog -- reversible since the resume banner; same disposition as the teams.rs entry above",
        ),
    );
    proof {
        assert(entry_views(v@) =~= allow_entries());
    }
    v
}

/// A reported literal an entry allows: the file ends with the entry's
/// file and the text holds its snippet.
pub open spec fn allowed_by(v: ViolationView, e: (Seq<char>, Seq<char>)) -> bool {
    ends_with(v.file, e.0) && contains(v.text, e.1)
}

pub open spec fn allowed(v: ViolationView) -> bool {
    exists|k: int| 0 <= k < allow_entries().len() && allowed_by(v, #[trigger] allow_entries()[k])
}

fn allowed_by_exec(v: &Violation, e: &AllowEntry) -> (r: bool)
    ensures
        r == allowed_by(
            ViolationView { file: v.file@, line: v.line as int, kind: v.kind@, text: v.text@ },
            (e.file@, e.snippet@),
        ),
{
    let f = chars_of(v.file.as_str());
    let ef = chars_of(e.file.as_str());
    let t = chars_of(v.text.as_str());
    let s = chars_of(e.snippet.as_str());
    ends_with_chars(&f, &ef) && contains_chars(&t, &s)
}

/// Whether an allowlist entry allows the reported literal.
pub fn is_allowlisted(v: &Violation) -> (r: bool)
    ensures
        r == allowed(ViolationView { file: v.file@, line: v.line as int, kind: v.kind@, text: v.text@ }),
{
    let list = allowlist();
    let ghost vv = ViolationView { file: v.file@, line: v.line as int, kind: v.kind@, text: v.text@ };
    let mut k: usize = 0;
    while k < list.len()
        invariant
            0 <= k <= list@.len(),
            entry_views(list@) == allow_entries(),
            vv == (ViolationView { file: v.file@, line: v.line as int, kind: v.kind@, text: v.text@ }),
            forall|m: int| 0 <= m < k ==> !allowed_by(vv, #[trigger] allow_entries()[m]),
        decreases list@.len() - k,
    {
        proof {
            assert(allow_entries()[k as int] == (list@[k as int].file@, list@[k as int].snippet@));
        }
        if allowed_by_exec(v, &list[k]) {
            return true;
        }
        k = k + 1;
    }
    false
}

} // verus!
