//! The changelog policy, checked.
//!
//! `CHANGELOG.md` holds the current release series only; older series are
//! moved, one file each, under `changelog/`. The rules are read from the
//! text of those files:
//!
//! 1. each version appears in exactly one file;
//! 2. `CHANGELOG.md` holds only the series of the workspace version
//!    (before 1.0.0 a series is ten minor versions, from 1.0.0 one major);
//! 3. each archive holds one whole series, the one its name says, and no
//!    `[Unreleased]`;
//! 4. every archive is linked from `CHANGELOG.md`, and every relative link
//!    in `CHANGELOG.md` resolves;
//! 5. no link into a changelog file names a section that is not in it;
//! 6. the released version has a dated section, and from 0.41.0 every
//!    dated section opens with `### Highlights`.
//!
//! [`violations`] is a function of the texts alone; whether a linked path
//! exists is handed in as the list of paths known to exist.
use vstd::prelude::*;
use crate::text::{
    alphanumeric, chars_of, decimal, decimal_of, is_alphanumeric, is_digit, lines, lines_of,
    lowercase, lowercase_of, next_char, next_char_at, find, find_chars, find_from, lemma_find_from, occurs_at,
    lemma_next_char, parse_u32, parse_u32_of, push_all,
    push_str_chars, slice_chars, split, split_at_char, starts_with, starts_with_chars,
    string_of, string_views, contains, contains_chars, ends_with, ends_with_chars, eq_chars, strings_of, trim, trim_of, trim_start, trim_start_char, trim_start_char_of, trim_start_of,
    views,
};

verus! {

/// A semantic version `(major, minor, patch)`.
pub type Version = (u32, u32, u32);

// ---------------------------------------------------------------------
// Versions and series
// ---------------------------------------------------------------------

/// `major.minor.patch`, each part a `u32` as `str::parse` reads it, and
/// nothing more.
pub open spec fn version_of(s: Seq<char>) -> Option<Version> {
    let parts = split(s, '.');
    if parts.len() == 3 && parse_u32(parts[0]) is Some && parse_u32(parts[1]) is Some
        && parse_u32(parts[2]) is Some {
        Some((parse_u32(parts[0]).unwrap(), parse_u32(parts[1]).unwrap(), parse_u32(parts[2]).unwrap()))
    } else {
        None
    }
}

pub fn parse_version_chars(s: &[char]) -> (r: Option<Version>)
    ensures
        r == version_of(s@),
{
    let parts = split_at_char(s, '.');
    if parts.len() != 3 {
        return None;
    }
    proof {
        assert(parts@[0]@ == split(s@, '.')[0]);
        assert(parts@[1]@ == split(s@, '.')[1]);
        assert(parts@[2]@ == split(s@, '.')[2]);
    }
    let a = parse_u32_of(&parts[0]);
    let b = parse_u32_of(&parts[1]);
    let c = parse_u32_of(&parts[2]);
    match (a, b, c) {
        (Some(x), Some(y), Some(z)) => Some((x, y, z)),
        _ => None,
    }
}

/// Parses `major.minor.patch`.
pub fn parse_version(s: &str) -> (r: Option<Version>)
    ensures
        r == version_of(s@),
{
    let cs = chars_of(s);
    parse_version_chars(&cs)
}

/// The series of a version: `(0, minor / 10)` before 1.0.0, `(major, 0)`
/// from it.
pub open spec fn series(v: Version) -> (u32, u32) {
    if v.0 == 0 {
        (0, v.1 / 10)
    } else {
        (v.0, 0)
    }
}

pub fn series_of(v: Version) -> (r: (u32, u32))
    ensures
        r == series(v),
{
    if v.0 == 0 {
        (0, v.1 / 10)
    } else {
        (v.0, 0)
    }
}

/// From 1.0.0 on a whole major version is one series: two versions of the
/// same major share it whatever their minors and patches, and archive
/// into `<major>.x`; versions of different majors never share a series;
/// before 1.0.0 two versions share one exactly when their minors fall in
/// the same decade.
pub proof fn law_series_by_major(a: Version, b: Version)
    ensures
        (a.0 >= 1 && a.0 == b.0) ==> series(a) == series(b),
        a.0 != b.0 ==> series(a) != series(b),
        (a.0 == 0 && b.0 == 0) ==> (series(a) == series(b) <==> a.1 / 10 == b.1 / 10),
        a.0 >= 1 ==> stem(series(a)) == decimal(a.0 as nat) + ".x"@,
{
}

/// The archive file stem of a series: `0.1-0.9`, `0.<d>0-0.<d>9`, or
/// `<major>.x`.
pub open spec fn stem(s: (u32, u32)) -> Seq<char> {
    if s.0 == 0 && s.1 == 0 {
        "0.1-0.9"@
    } else if s.0 == 0 {
        "0."@ + decimal(s.1 as nat) + "0-0."@ + decimal(s.1 as nat) + "9"@
    } else {
        decimal(s.0 as nat) + ".x"@
    }
}

pub fn series_stem_chars(s: (u32, u32)) -> (r: Vec<char>)
    ensures
        r@ == stem(s),
{
    let mut out: Vec<char> = Vec::new();
    if s.0 == 0 && s.1 == 0 {
        push_str_chars(&mut out, "0.1-0.9");
    } else if s.0 == 0 {
        let d = decimal_of(s.1 as u64);
        push_str_chars(&mut out, "0.");
        push_all(&mut out, &d);
        push_str_chars(&mut out, "0-0.");
        push_all(&mut out, &d);
        push_str_chars(&mut out, "9");
    } else {
        let d = decimal_of(s.0 as u64);
        push_all(&mut out, &d);
        push_str_chars(&mut out, ".x");
    }
    proof {
        assert(out@ =~= stem(s));
    }
    out
}

/// The archive file stem for a series (`changelog/<stem>.md`).
pub fn series_stem(s: (u32, u32)) -> (r: String)
    ensures
        r@ == stem(s),
{
    let cs = series_stem_chars(s);
    string_of(&cs)
}

/// `(0, 41, 0)`, the first version whose section must open with
/// `### Highlights`.
pub open spec fn highlights_from() -> Version {
    (0, 41, 0)
}

/// `a >= b` in the order of tuples.
pub open spec fn version_ge(a: Version, b: Version) -> bool {
    a.0 > b.0 || (a.0 == b.0 && (a.1 > b.1 || (a.1 == b.1 && a.2 >= b.2)))
}

// ---------------------------------------------------------------------
// Headings
// ---------------------------------------------------------------------

/// A character a heading anchor keeps.
pub open spec fn slug_keeps(c: char) -> bool {
    alphanumeric(c) || c == ' ' || c == '-' || c == '_'
}

/// The kept characters of `s`, spaces turned into hyphens.
pub open spec fn slug_filter(s: Seq<char>) -> Seq<char>
    decreases s.len(),
{
    if s.len() == 0 {
        Seq::empty()
    } else {
        let c = s.last();
        slug_filter(s.drop_last()) + if slug_keeps(c) {
            seq![if c == ' ' { '-' } else { c }]
        } else {
            Seq::empty()
        }
    }
}

/// GitHub's heading anchor: lowercase, keep alphanumerics, spaces,
/// hyphens and underscores, spaces become hyphens.
pub open spec fn slug_of(heading: Seq<char>) -> Seq<char> {
    slug_filter(lowercase(heading))
}

pub fn slug_chars(heading: &[char]) -> (r: Vec<char>)
    ensures
        r@ == slug_of(heading@),
{
    let low = lowercase_of(heading);
    let mut out: Vec<char> = Vec::new();
    let mut i: usize = 0;
    while i < low.len()
        invariant
            0 <= i <= low@.len(),
            out@ == slug_filter(low@.take(i as int)),
        decreases low@.len() - i,
    {
        let c = low[i];
        proof {
            assert(low@.take(i + 1).drop_last() =~= low@.take(i as int));
        }
        if is_alphanumeric(c) || c == ' ' || c == '-' || c == '_' {
            if c == ' ' {
                out.push('-');
            } else {
                out.push(c);
            }
        }
        i = i + 1;
        proof {
            assert(out@ =~= slug_filter(low@.take(i as int)));
        }
    }
    proof {
        assert(low@.take(i as int) =~= low@);
    }
    out
}

/// GitHub's heading anchor of `heading`.
pub fn slug(heading: &str) -> (r: String)
    ensures
        r@ == slug_of(heading@),
{
    let cs = chars_of(heading);
    let s = slug_chars(&cs);
    string_of(&s)
}

/// The text after an optional `—` or `-` (and whitespace around it).
pub open spec fn after_dash(tail: Seq<char>) -> Seq<char> {
    let t = trim_start(tail);
    let u = if t.len() > 0 && (t[0] == '—' || t[0] == '-') {
        t.skip(1)
    } else {
        t
    };
    trim_start(u)
}

/// `yyyy-mm-dd` at the start of `t`.
pub open spec fn starts_with_iso_date(t: Seq<char>) -> bool {
    t.len() >= 10 && forall|i: int|
        0 <= i < 10 ==> if i == 4 || i == 7 {
            #[trigger] t[i] == '-'
        } else {
            is_digit(t[i])
        }
}

/// ` — 2026-09-25` after the closing bracket of a heading.
pub open spec fn dated_tail(tail: Seq<char>) -> bool {
    starts_with_iso_date(after_dash(tail))
}

pub fn has_iso_date_after_dash_chars(tail: &[char]) -> (r: bool)
    ensures
        r == dated_tail(tail@),
{
    let t = trim_start_of(tail);
    let u = if t.len() > 0 && (t[0] == '—' || t[0] == '-') {
        slice_chars(&t, 1, t.len())
    } else {
        slice_chars(&t, 0, t.len())
    };
    proof {
        assert(t@.subrange(0, t@.len() as int) =~= t@);
        assert(t@.len() > 0 ==> t@.subrange(1, t@.len() as int) =~= t@.skip(1));
    }
    let w = trim_start_of(&u);
    assert(w@ == after_dash(tail@));
    if w.len() < 10 {
        return false;
    }
    let mut i: usize = 0;
    while i < 10
        invariant
            0 <= i <= 10,
            w@.len() >= 10,
            w@ == after_dash(tail@),
            forall|k: int|
                0 <= k < i ==> if k == 4 || k == 7 {
                    #[trigger] w@[k] == '-'
                } else {
                    is_digit(w@[k])
                },
        decreases 10 - i,
    {
        let c = w[i];
        let ok = if i == 4 || i == 7 {
            c == '-'
        } else {
            '0' <= c && c <= '9'
        };
        if !ok {
            proof {
                assert(!(if i == 4 || i == 7 {
                    w@[i as int] == '-'
                } else {
                    is_digit(w@[i as int])
                }));
                assert(!starts_with_iso_date(w@));
            }
            return false;
        }
        i = i + 1;
    }
    true
}

/// ` — 2026-09-25` after the closing bracket.
pub fn has_iso_date_after_dash(tail: &str) -> (r: bool)
    ensures
        r == dated_tail(tail@),
{
    let cs = chars_of(tail);
    has_iso_date_after_dash_chars(&cs)
}

// ---------------------------------------------------------------------
// Sections
// ---------------------------------------------------------------------

/// One `## [..]` section of a changelog file (or another level-2 heading,
/// which ends the section before it).
pub struct Section {
    /// `None` for `[Unreleased]` and other labels that are not versions.
    pub version: Option<Version>,
    /// The text between the brackets.
    pub label: Vec<char>,
    /// A date follows the heading.
    pub dated: bool,
    /// The first `### ` line of the section, trimmed.
    pub first_h3: Option<Vec<char>>,
    /// The heading's anchor.
    pub slug: Vec<char>,
}

pub struct SectionView {
    pub version: Option<Version>,
    pub label: Seq<char>,
    pub dated: bool,
    pub first_h3: Option<Seq<char>>,
    pub slug: Seq<char>,
}

pub open spec fn opt_view(o: Option<Vec<char>>) -> Option<Seq<char>> {
    match o {
        Some(v) => Some(v@),
        None => None,
    }
}

impl View for Section {
    type V = SectionView;

    open spec fn view(&self) -> SectionView {
        SectionView {
            version: self.version,
            label: self.label@,
            dated: self.dated,
            first_h3: opt_view(self.first_h3),
            slug: self.slug@,
        }
    }
}

pub open spec fn section_views(s: Seq<Section>) -> Seq<SectionView> {
    s.map_values(|x: Section| x@)
}

/// A line that opens or closes a code fence.
pub open spec fn is_fence(line: Seq<char>) -> bool {
    starts_with(trim_start(line), "```"@)
}

/// The anchor of a heading line: its text without the leading `#`s.
pub open spec fn heading_slug(line: Seq<char>) -> Seq<char> {
    slug_of(trim(trim_start_char(line, '#')))
}

/// What an unfenced line that is no fence does to the sections read so far.
pub open spec fn section_step(out: Seq<SectionView>, line: Seq<char>) -> Seq<SectionView> {
    if starts_with(line, "## ["@) {
        let rest = line.skip(4);
        let close = next_char(rest, ']', 0);
        if close < rest.len() {
            out.push(
                SectionView {
                    version: version_of(rest.take(close)),
                    label: rest.take(close),
                    dated: dated_tail(rest.skip(close + 1)),
                    first_h3: None,
                    slug: heading_slug(line),
                },
            )
        } else {
            out
        }
    } else if starts_with(line, "## "@) {
        out.push(
            SectionView {
                version: None,
                label: Seq::empty(),
                dated: false,
                first_h3: None,
                slug: heading_slug(line),
            },
        )
    } else if starts_with(line, "### "@) && out.len() > 0 && out.last().first_h3 is None {
        let l = out.last();
        out.update(
            out.len() - 1,
            SectionView {
                version: l.version,
                label: l.label,
                dated: l.dated,
                first_h3: Some(trim(line)),
                slug: l.slug,
            },
        )
    } else {
        out
    }
}

/// The sections read from `ls`, and whether the last line leaves a fence
/// open.
pub open spec fn scan_sections(ls: Seq<Seq<char>>) -> (Seq<SectionView>, bool)
    decreases ls.len(),
{
    if ls.len() == 0 {
        (Seq::empty(), false)
    } else {
        let prev = scan_sections(ls.drop_last());
        let line = ls.last();
        if is_fence(line) {
            (prev.0, !prev.1)
        } else if prev.1 {
            prev
        } else {
            (section_step(prev.0, line), false)
        }
    }
}

/// The sections that carry a label or a version.
pub open spec fn keep_labelled(s: Seq<SectionView>) -> Seq<SectionView>
    decreases s.len(),
{
    if s.len() == 0 {
        Seq::empty()
    } else {
        let x = s.last();
        keep_labelled(s.drop_last()) + if x.label.len() > 0 || x.version is Some {
            seq![x]
        } else {
            Seq::empty()
        }
    }
}

/// Every `## [..]` section of a changelog text, outside code fences.
pub open spec fn sections_of(text: Seq<char>) -> Seq<SectionView> {
    keep_labelled(scan_sections(lines(text)).0)
}

fn heading_slug_chars(line: &[char]) -> (r: Vec<char>)
    ensures
        r@ == heading_slug(line@),
{
    let a = trim_start_char_of(line, '#');
    let b = trim_of(&a);
    slug_chars(&b)
}

fn section_step_exec(out: &mut Vec<Section>, line: &[char])
    ensures
        section_views(final(out)@) == section_step(section_views(old(out)@), line@),
{
    let ghost before = section_views(out@);
    if starts_with_chars(line, &['#', '#', ' ', '[']) {
        proof {
            assert(seq!['#', '#', ' ', '['] =~= "## ["@) by {
                reveal_strlit("## [");
            }
        }
        let rest = slice_chars(line, 4, line.len());
        assert(rest@ =~= line@.skip(4));
        let close = next_char_at(&rest, ']', 0);
        if close < rest.len() {
            let label = slice_chars(&rest, 0, close);
            let tail = slice_chars(&rest, close + 1, rest.len());
            assert(label@ =~= rest@.take(close as int));
            assert(tail@ =~= rest@.skip(close + 1));
            let version = parse_version_chars(&label);
            let dated = has_iso_date_after_dash_chars(&tail);
            let slug = heading_slug_chars(line);
            out.push(Section { version, label, dated, first_h3: None, slug });
            proof {
                assert(section_views(out@) =~= section_step(before, line@));
            }
        } else {
            assert(section_step(before, line@) == before);
        }
    } else if starts_with_chars(line, &['#', '#', ' ']) {
        proof {
            assert(seq!['#', '#', ' ', '['] =~= "## ["@) by {
                reveal_strlit("## [");
            }
            assert(seq!['#', '#', ' '] =~= "## "@) by {
                reveal_strlit("## ");
            }
        }
        let slug = heading_slug_chars(line);
        out.push(Section { version: None, label: Vec::new(), dated: false, first_h3: None, slug });
        proof {
            assert(section_views(out@) =~= section_step(before, line@));
        }
    } else {
        proof {
            assert(seq!['#', '#', ' ', '['] =~= "## ["@) by {
                reveal_strlit("## [");
            }
            assert(seq!['#', '#', ' '] =~= "## "@) by {
                reveal_strlit("## ");
            }
            assert(seq!['#', '#', '#', ' '] =~= "### "@) by {
                reveal_strlit("### ");
            }
        }
        if starts_with_chars(line, &['#', '#', '#', ' ']) && out.len() > 0 && out[out.len()
            - 1].first_h3.is_none() {
            let h3 = trim_of(line);
            let mut last = out.pop().unwrap();
            proof {
                assert(out@ =~= old(out)@.drop_last());
            }
            last.first_h3 = Some(h3);
            out.push(last);
            proof {
                assert(section_views(out@) =~= section_step(before, line@));
            }
        } else {
            assert(section_step(before, line@) == before);
        }
    }
}

pub fn sections_chars(text: &[char]) -> (r: Vec<Section>)
    ensures
        section_views(r@) == sections_of(text@),
{
    let ls = lines_of(text);
    let ghost lv = views(ls@);
    let mut out: Vec<Section> = Vec::new();
    let mut fenced = false;
    let mut i: usize = 0;
    while i < ls.len()
        invariant
            0 <= i <= ls@.len(),
            lv == views(ls@),
            lv == lines(text@),
            (section_views(out@), fenced) == scan_sections(lv.take(i as int)),
        decreases ls@.len() - i,
    {
        let line = &ls[i];
        proof {
            assert(lv.take(i + 1).drop_last() =~= lv.take(i as int));
            assert(lv.take(i + 1).last() == line@);
        }
        let t = trim_start_of(line);
        if starts_with_chars(&t, &['`', '`', '`']) {
            proof {
                assert(seq!['`', '`', '`'] =~= "```"@) by {
                    reveal_strlit("```");
                }
            }
            fenced = !fenced;
        } else {
            proof {
                assert(seq!['`', '`', '`'] =~= "```"@) by {
                    reveal_strlit("```");
                }
            }
            if !fenced {
                section_step_exec(&mut out, line);
            }
        }
        i = i + 1;
    }
    proof {
        assert(lv.take(i as int) =~= lv);
    }
    let mut kept: Vec<Section> = Vec::new();
    let mut j: usize = 0;
    let ghost all = section_views(out@);
    while j < out.len()
        invariant
            0 <= j <= out@.len(),
            all == section_views(out@),
            section_views(kept@) == keep_labelled(all.take(j as int)),
        decreases out@.len() - j,
    {
        proof {
            assert(all.take(j + 1).drop_last() =~= all.take(j as int));
        }
        let keep = out[j].label.len() > 0 || out[j].version.is_some();
        if keep {
            let s = &out[j];
            let copy = Section {
                version: s.version,
                label: slice_chars(&s.label, 0, s.label.len()),
                dated: s.dated,
                first_h3: match &s.first_h3 {
                    Some(h) => Some(slice_chars(h, 0, h.len())),
                    None => None,
                },
                slug: slice_chars(&s.slug, 0, s.slug.len()),
            };
            proof {
                assert(copy.label@ =~= s.label@);
                assert(copy.slug@ =~= s.slug@);
                assert(opt_view(copy.first_h3) =~= opt_view(s.first_h3)) by {
                    match s.first_h3 {
                        Some(h) => assert(h@.subrange(0, h@.len() as int) =~= h@),
                        None => {},
                    }
                }
            }
            let ghost prev = section_views(kept@);
            kept.push(copy);
            proof {
                assert(section_views(kept@) =~= prev.push(copy@));
            }
        }
        j = j + 1;
        proof {
            assert(section_views(kept@) =~= keep_labelled(all.take(j as int)));
        }
    }
    proof {
        assert(all.take(j as int) =~= all);
    }
    kept
}

/// Every `## [..]` section of a changelog file, outside code fences.
pub fn sections(text: &str) -> (r: Vec<Section>)
    ensures
        section_views(r@) == sections_of(text@),
{
    let cs = chars_of(text);
    sections_chars(&cs)
}

// ---------------------------------------------------------------------
// Links
// ---------------------------------------------------------------------

/// Inline link targets `](target)` in the rest of a line, trimmed.
pub open spec fn line_targets(rest: Seq<char>) -> Seq<Seq<char>>
    decreases rest.len(),
{
    match find(rest, seq![']', '(']) {
        None => Seq::empty(),
        Some(at) => {
            let after = rest.skip(at + 2);
            let end = next_char(after, ')', 0);
            proof {
                lemma_find_from(rest, seq![']', '('], 0);
                lemma_next_char(after, ')', 0);
            }
            if end >= after.len() {
                Seq::empty()
            } else {
                seq![trim(after.take(end))] + line_targets(after.skip(end + 1))
            }
        },
    }
}

/// The link targets read from `ls`, and whether a fence is left open.
pub open spec fn scan_links(ls: Seq<Seq<char>>) -> (Seq<Seq<char>>, bool)
    decreases ls.len(),
{
    if ls.len() == 0 {
        (Seq::empty(), false)
    } else {
        let prev = scan_links(ls.drop_last());
        let line = ls.last();
        if is_fence(line) {
            (prev.0, !prev.1)
        } else if prev.1 {
            prev
        } else {
            (prev.0 + line_targets(line), false)
        }
    }
}

/// Inline markdown link targets `](target)`, outside code fences.
pub open spec fn link_targets_of(text: Seq<char>) -> Seq<Seq<char>> {
    scan_links(lines(text)).0
}

fn line_targets_exec(line: &[char]) -> (r: Vec<Vec<char>>)
    ensures
        views(r@) == line_targets(line@),
{
    let mut out: Vec<Vec<char>> = Vec::new();
    let mut rest: Vec<char> = slice_chars(line, 0, line.len());
    proof {
        assert(rest@ =~= line@);
    }
    let pat: Vec<char> = vec![']', '('];
    loop
        invariant
            line_targets(line@) == views(out@) + line_targets(rest@),
            pat@ == seq![']', '('],
        decreases rest@.len(),
    {
        match find_chars(rest.as_slice(), pat.as_slice()) {
            None => {
                proof {
                    assert(views(out@) + line_targets(rest@) =~= views(out@));
                }
                return out;
            },
            Some(at) => {
                proof {
                    lemma_find_from(rest@, pat@, 0);
                    assert(find_from(rest@, pat@, 0) == Some(at as int));
                    assert(occurs_at(rest@, pat@, at as int));
                    assert(at + 2 <= rest@.len());
                    assert(rest@.len() == rest.len());
                }
                let after = slice_chars(&rest, at + 2, rest.len());
                assert(after@ =~= rest@.skip(at + 2));
                let end = next_char_at(&after, ')', 0);
                if end >= after.len() {
                    proof {
                        assert(views(out@) + line_targets(rest@) =~= views(out@));
                    }
                    return out;
                }
                let target = slice_chars(&after, 0, end);
                let t = trim_of(&target);
                let next = slice_chars(&after, end + 1, after.len());
                proof {
                    assert(target@ =~= after@.take(end as int));
                    assert(next@ =~= after@.skip(end + 1));
                }
                let ghost prev = views(out@);
                out.push(t);
                proof {
                    assert(views(out@) =~= prev.push(t@));
                    assert(line_targets(rest@) == seq![t@] + line_targets(next@));
                    assert(prev + (seq![t@] + line_targets(next@)) =~= views(out@)
                        + line_targets(next@));
                }
                rest = next;
            },
        }
    }
}

pub fn link_targets_chars(text: &[char]) -> (r: Vec<Vec<char>>)
    ensures
        views(r@) == link_targets_of(text@),
{
    let ls = lines_of(text);
    let ghost lv = views(ls@);
    let mut out: Vec<Vec<char>> = Vec::new();
    let mut fenced = false;
    let mut i: usize = 0;
    while i < ls.len()
        invariant
            0 <= i <= ls@.len(),
            lv == views(ls@),
            lv == lines(text@),
            (views(out@), fenced) == scan_links(lv.take(i as int)),
        decreases ls@.len() - i,
    {
        let line = &ls[i];
        proof {
            assert(lv.take(i + 1).drop_last() =~= lv.take(i as int));
            assert(lv.take(i + 1).last() == line@);
            assert(seq!['`', '`', '`'] =~= "```"@) by {
                reveal_strlit("```");
            }
        }
        let t = trim_start_of(line);
        if starts_with_chars(&t, &['`', '`', '`']) {
            fenced = !fenced;
        } else if !fenced {
            let found = line_targets_exec(line);
            let ghost prev = views(out@);
            let mut k: usize = 0;
            while k < found.len()
                invariant
                    0 <= k <= found@.len(),
                    views(out@) == prev + views(found@).take(k as int),
                decreases found@.len() - k,
            {
                let item = slice_chars(&found[k], 0, found[k].len());
                let ghost before = views(out@);
                out.push(item);
                k = k + 1;
                proof {
                    assert(item@ =~= found@[k - 1]@);
                    assert(views(out@) =~= before.push(item@));
                    assert(views(out@) =~= prev + views(found@).take(k as int));
                }
            }
            proof {
                assert(views(found@).take(k as int) =~= views(found@));
            }
        }
        i = i + 1;
    }
    proof {
        assert(lv.take(i as int) =~= lv);
    }
    out
}

/// Inline markdown link targets `](target)`, outside code fences.
pub fn link_targets(text: &str) -> (r: Vec<String>)
    ensures
        string_views(r@) == link_targets_of(text@),
{
    let cs = chars_of(text);
    let found = link_targets_chars(&cs);
    strings_of(&found)
}

// ---------------------------------------------------------------------
// Resolving a relative link
// ---------------------------------------------------------------------

/// The path segments of `from` as components: empty and `.` segments
/// dropped.
pub open spec fn components(segs: Seq<Seq<char>>) -> Seq<Seq<char>>
    decreases segs.len(),
{
    if segs.len() == 0 {
        Seq::empty()
    } else {
        let s = segs.last();
        components(segs.drop_last()) + if s.len() == 0 || s == seq!['.'] {
            Seq::empty()
        } else {
            seq![s]
        }
    }
}

/// `base` after walking the segments of a relative path: `..` climbs
/// one level (not above the start), empty and `.` segments stay put,
/// anything else descends.
pub open spec fn walk(base: Seq<Seq<char>>, segs: Seq<Seq<char>>) -> Seq<Seq<char>>
    decreases segs.len(),
{
    if segs.len() == 0 {
        base
    } else {
        let b = walk(base, segs.drop_last());
        let s = segs.last();
        if s == seq!['.', '.'] {
            if b.len() > 0 {
                b.drop_last()
            } else {
                b
            }
        } else if s.len() == 0 || s == seq!['.'] {
            b
        } else {
            b.push(s)
        }
    }
}

/// The segments joined with `/`.
pub open spec fn join_slash(segs: Seq<Seq<char>>) -> Seq<char>
    decreases segs.len(),
{
    if segs.len() == 0 {
        Seq::empty()
    } else if segs.len() == 1 {
        segs[0]
    } else {
        join_slash(segs.drop_last()) + seq!['/'] + segs.last()
    }
}

/// `s` with each backslash turned into a slash.
pub open spec fn forward_slashes(s: Seq<char>) -> Seq<char> {
    s.map_values(|c: char| if c == '\\' { '/' } else { c })
}

/// A link that is no relative file link: empty, a same-page anchor, a
/// URL with a scheme, or a mail address.
pub open spec fn not_relative(target: Seq<char>) -> bool {
    target.len() == 0 || target[0] == '#' || contains(target, "://"@) || starts_with(
        target,
        "mailto:"@,
    )
}

/// The components of a path's segments as `Path::components` gives them:
/// empty and `.` segments dropped, but for a `.` that opens the path.
pub open spec fn path_components(segs: Seq<Seq<char>>) -> Seq<Seq<char>> {
    if segs.len() > 0 && segs[0] == seq!['.'] {
        seq![segs[0]] + components(segs.skip(1))
    } else {
        components(segs)
    }
}

/// The directory of `from`, as components.
pub open spec fn dir_of(from: Seq<char>) -> Seq<Seq<char>> {
    let c = path_components(split(from, '/'));
    if c.len() > 0 {
        c.drop_last()
    } else {
        c
    }
}

/// `target` (a relative link with an optional `#fragment`) resolved
/// against the directory of `from`, as a path and the fragment.
pub open spec fn resolved(from: Seq<char>, target: Seq<char>) -> Option<(Seq<char>, Option<Seq<char>>)> {
    if not_relative(target) {
        None
    } else {
        let h = next_char(target, '#', 0);
        let path = if h < target.len() {
            target.take(h)
        } else {
            target
        };
        let frag = if h < target.len() {
            Some(target.skip(h + 1))
        } else {
            None
        };
        let segs = walk(dir_of(from), split(path, '/'));
        let joined = if from.len() > 0 && from[0] == '/' {
            seq!['/'] + join_slash(segs)
        } else {
            join_slash(segs)
        };
        Some((forward_slashes(joined), frag))
    }
}

fn components_exec(segs: &Vec<Vec<char>>) -> (r: Vec<Vec<char>>)
    ensures
        views(r@) == components(views(segs@)),
{
    let ghost sv = views(segs@);
    let mut out: Vec<Vec<char>> = Vec::new();
    let mut i: usize = 0;
    while i < segs.len()
        invariant
            0 <= i <= segs@.len(),
            sv == views(segs@),
            views(out@) == components(sv.take(i as int)),
        decreases segs@.len() - i,
    {
        proof {
            assert(sv.take(i + 1).drop_last() =~= sv.take(i as int));
            assert(sv.take(i + 1).last() == segs@[i as int]@);
        }
        let s = &segs[i];
        let is_dot = s.len() == 1 && s[0] == '.';
        proof {
            if s@.len() == 1 {
                assert(is_dot <==> s@ =~= seq!['.']);
            } else {
                assert(s@ != seq!['.']);
            }
        }
        if !(s.len() == 0 || is_dot) {
            let c = slice_chars(s, 0, s.len());
            assert(c@ =~= s@);
            let ghost before = views(out@);
            out.push(c);
            proof {
                assert(views(out@) =~= before.push(c@));
                assert(before + seq![s@] =~= before.push(c@));
            }
        } else {
            proof {
                assert(views(out@) + Seq::<Seq<char>>::empty() =~= views(out@));
            }
        }
        i = i + 1;
    }
    proof {
        assert(sv.take(i as int) =~= sv);
    }
    out
}

fn path_components_exec(segs: &Vec<Vec<char>>) -> (r: Vec<Vec<char>>)
    ensures
        views(r@) == path_components(views(segs@)),
{
    let lead = segs.len() > 0 && segs[0].len() == 1 && segs[0][0] == '.';
    proof {
        if segs@.len() > 0 {
            if segs@[0]@.len() == 1 {
                assert(lead <==> segs@[0]@ =~= seq!['.']);
            } else {
                assert(segs@[0]@ != seq!['.']);
            }
        }
    }
    if !lead {
        return components_exec(segs);
    }
    let ghost sv = views(segs@);
    let mut rest: Vec<Vec<char>> = Vec::new();
    let mut k: usize = 1;
    while k < segs.len()
        invariant
            1 <= k <= segs@.len(),
            sv == views(segs@),
            views(rest@) == sv.subrange(1, k as int),
        decreases segs@.len() - k,
    {
        let c = slice_chars(&segs[k], 0, segs[k].len());
        assert(c@ =~= segs@[k as int]@);
        let ghost before = views(rest@);
        rest.push(c);
        proof {
            assert(views(rest@) =~= before.push(c@));
            assert(views(rest@) =~= sv.subrange(1, k + 1));
        }
        k = k + 1;
    }
    proof {
        assert(sv.subrange(1, sv.len() as int) =~= sv.skip(1));
    }
    let comps = components_exec(&rest);
    let mut out: Vec<Vec<char>> = Vec::new();
    let dot = slice_chars(&segs[0], 0, 1);
    assert(dot@ =~= sv[0]);
    out.push(dot);
    proof {
        assert(views(out@) =~= seq![sv[0]] + views(comps@).take(0));
    }
    let mut j: usize = 0;
    while j < comps.len()
        invariant
            j <= comps@.len(),
            sv == views(segs@),
            sv.len() > 0,
            sv[0] == seq!['.'],
            views(out@) == seq![sv[0]] + views(comps@).take(j as int),
        decreases comps@.len() - j,
    {
        let c = slice_chars(&comps[j], 0, comps[j].len());
        assert(c@ =~= comps@[j as int]@);
        let ghost before = views(out@);
        out.push(c);
        proof {
            assert(views(out@) =~= before.push(c@));
            assert(views(out@) =~= seq![sv[0]] + views(comps@).take(j + 1));
        }
        j = j + 1;
    }
    proof {
        assert(views(comps@).take(j as int) =~= views(comps@));
    }
    out
}

fn walk_exec(base: Vec<Vec<char>>, segs: &Vec<Vec<char>>) -> (r: Vec<Vec<char>>)
    ensures
        views(r@) == walk(views(base@), views(segs@)),
{
    let ghost sv = views(segs@);
    let ghost bv = views(base@);
    let mut out = base;
    let mut i: usize = 0;
    while i < segs.len()
        invariant
            0 <= i <= segs@.len(),
            sv == views(segs@),
            views(out@) == walk(bv, sv.take(i as int)),
        decreases segs@.len() - i,
    {
        proof {
            assert(sv.take(i + 1).drop_last() =~= sv.take(i as int));
            assert(sv.take(i + 1).last() == segs@[i as int]@);
        }
        let s = &segs[i];
        let is_dot = s.len() == 1 && s[0] == '.';
        let is_dotdot = s.len() == 2 && s[0] == '.' && s[1] == '.';
        proof {
            if s@.len() == 1 {
                assert(is_dot <==> s@ =~= seq!['.']);
            } else {
                assert(s@ != seq!['.']);
            }
            if s@.len() == 2 {
                assert(is_dotdot <==> s@ =~= seq!['.', '.']);
            } else {
                assert(s@ != seq!['.', '.']);
            }
        }
        let ghost before = views(out@);
        if is_dotdot {
            if out.len() > 0 {
                out.pop();
                proof {
                    assert(views(out@) =~= before.drop_last());
                }
            }
        } else if !(s.len() == 0 || is_dot) {
            let c = slice_chars(s, 0, s.len());
            assert(c@ =~= s@);
            out.push(c);
            proof {
                assert(views(out@) =~= before.push(s@));
            }
        }
        i = i + 1;
    }
    proof {
        assert(sv.take(i as int) =~= sv);
    }
    out
}

fn join_slash_exec(segs: &Vec<Vec<char>>) -> (r: Vec<char>)
    ensures
        r@ == join_slash(views(segs@)),
{
    let ghost sv = views(segs@);
    let mut out: Vec<char> = Vec::new();
    let mut i: usize = 0;
    while i < segs.len()
        invariant
            0 <= i <= segs@.len(),
            sv == views(segs@),
            out@ == join_slash(sv.take(i as int)),
        decreases segs@.len() - i,
    {
        proof {
            assert(sv.take(i + 1).drop_last() =~= sv.take(i as int));
            assert(sv.take(i + 1).last() == segs@[i as int]@);
        }
        if i > 0 {
            out.push('/');
        }
        push_all(&mut out, &segs[i]);
        i = i + 1;
        proof {
            if i == 1 {
                assert(sv.take(1) =~= seq![sv[0]]);
            }
            assert(out@ =~= join_slash(sv.take(i as int)));
        }
    }
    proof {
        assert(sv.take(i as int) =~= sv);
    }
    out
}

/// `target` (a relative link with an optional `#fragment`) resolved
/// against the directory of `from`.
pub fn resolve_chars(from: &[char], target: &[char]) -> (r: Option<(Vec<char>, Option<Vec<char>>)>)
    ensures
        match r {
            Some((p, f)) => resolved(from@, target@) == Some((p@, opt_view(f))),
            None => resolved(from@, target@) is None,
        },
{
    let scheme: Vec<char> = vec![':', '/', '/'];
    let mailto: Vec<char> = vec!['m', 'a', 'i', 'l', 't', 'o', ':'];
    proof {
        assert(scheme@ =~= "://"@) by {
            reveal_strlit("://");
        }
        assert(mailto@ =~= "mailto:"@) by {
            reveal_strlit("mailto:");
        }
    }
    if target.len() == 0 || target[0] == '#' || contains_chars(target, scheme.as_slice())
        || starts_with_chars(target, mailto.as_slice()) {
        return None;
    }
    let h = next_char_at(target, '#', 0);
    let path = slice_chars(target, 0, h);
    let frag = if h < target.len() {
        Some(slice_chars(target, h + 1, target.len()))
    } else {
        None
    };
    proof {
        assert(h >= target@.len() ==> path@ =~= target@);
        assert(h < target@.len() ==> path@ =~= target@.take(h as int));
    }
    let from_segs = split_at_char(from, '/');
    let mut dir = path_components_exec(&from_segs);
    if dir.len() > 0 {
        let ghost before = views(dir@);
        dir.pop();
        proof {
            assert(views(dir@) =~= before.drop_last());
        }
    }
    let path_segs = split_at_char(&path, '/');
    let segs = walk_exec(dir, &path_segs);
    let joined_rel = join_slash_exec(&segs);
    let mut joined: Vec<char> = Vec::new();
    if from.len() > 0 && from[0] == '/' {
        joined.push('/');
    }
    push_all(&mut joined, &joined_rel);
    let mut out: Vec<char> = Vec::new();
    let mut k: usize = 0;
    while k < joined.len()
        invariant
            0 <= k <= joined@.len(),
            out@ == forward_slashes(joined@.take(k as int)),
        decreases joined@.len() - k,
    {
        let c = joined[k];
        if c == '\\' {
            out.push('/');
        } else {
            out.push(c);
        }
        k = k + 1;
        proof {
            assert(out@ =~= forward_slashes(joined@.take(k as int)));
        }
    }
    proof {
        assert(joined@.take(k as int) =~= joined@);
        if h < target@.len() {
            assert(opt_view(frag) == Some(target@.skip(h + 1)));
        }
    }
    Some((out, frag))
}

/// Resolve `target` (a relative link with an optional `#fragment`) against
/// the directory of `from`, to a repository-relative path and the fragment.
pub fn resolve(from: &str, target: &str) -> (r: Option<(String, Option<String>)>)
    ensures
        match r {
            Some((p, f)) => resolved(from@, target@) == Some(
                (
                    p@,
                    match f {
                        Some(x) => Some(x@),
                        None => None,
                    },
                ),
            ),
            None => resolved(from@, target@) is None,
        },
{
    let f = chars_of(from);
    let t = chars_of(target);
    match resolve_chars(&f, &t) {
        None => None,
        Some((p, frag)) => {
            let ps = string_of(&p);
            let fs = match frag {
                Some(x) => Some(string_of(&x)),
                None => None,
            };
            Some((ps, fs))
        },
    }
}

// ---------------------------------------------------------------------
// Rule 1: each version in exactly one file
// ---------------------------------------------------------------------

/// `a < b` in the order of tuples.
pub open spec fn version_lt(a: Version, b: Version) -> bool {
    a.0 < b.0 || (a.0 == b.0 && (a.1 < b.1 || (a.1 == b.1 && a.2 < b.2)))
}

/// Strictly ascending.
pub open spec fn increasing(s: Seq<Version>) -> bool {
    forall|i: int, j: int| 0 <= i < j < s.len() ==> version_lt(#[trigger] s[i], #[trigger] s[j])
}

/// `major.minor.patch` in decimal.
pub open spec fn version_text(v: Version) -> Seq<char> {
    decimal(v.0 as nat) + "."@ + decimal(v.1 as nat) + "."@ + decimal(v.2 as nat)
}

pub fn version_chars(v: Version) -> (r: Vec<char>)
    ensures
        r@ == version_text(v),
{
    let mut out = decimal_of(v.0 as u64);
    push_str_chars(&mut out, ".");
    let b = decimal_of(v.1 as u64);
    push_all(&mut out, &b);
    push_str_chars(&mut out, ".");
    let c = decimal_of(v.2 as u64);
    push_all(&mut out, &c);
    out
}

/// The path of the archive named `name`.
pub open spec fn archive_path(name: Seq<char>) -> Seq<char> {
    "changelog/"@ + name
}

/// `(version, file)` for each versioned section, in order.
pub open spec fn section_occ(secs: Seq<SectionView>, file: Seq<char>) -> Seq<(Version, Seq<char>)>
    decreases secs.len(),
{
    if secs.len() == 0 {
        Seq::empty()
    } else {
        section_occ(secs.drop_last(), file) + match secs.last().version {
            Some(v) => seq![(v, file)],
            None => Seq::empty(),
        }
    }
}

/// The views of `(name, text)` pairs.
pub open spec fn pair_views(v: Seq<(String, String)>) -> Seq<(Seq<char>, Seq<char>)> {
    v.map_values(|p: (String, String)| (p.0@, p.1@))
}

/// `(version, file)` for each versioned section of the archives, in order.
pub open spec fn archive_occ(archives: Seq<(Seq<char>, Seq<char>)>) -> Seq<(Version, Seq<char>)>
    decreases archives.len(),
{
    if archives.len() == 0 {
        Seq::empty()
    } else {
        archive_occ(archives.drop_last()) + section_occ(
            sections_of(archives.last().1),
            archive_path(archives.last().0),
        )
    }
}

/// Where each version appears: `CHANGELOG.md` first, then the archives.
pub open spec fn occurrences(changelog: Seq<char>, archives: Seq<(Seq<char>, Seq<char>)>) -> Seq<
    (Version, Seq<char>),
> {
    section_occ(sections_of(changelog), "CHANGELOG.md"@) + archive_occ(archives)
}

/// The files in which `v` appears, in order.
pub open spec fn files_of(occ: Seq<(Version, Seq<char>)>, v: Version) -> Seq<Seq<char>>
    decreases occ.len(),
{
    if occ.len() == 0 {
        Seq::empty()
    } else {
        files_of(occ.drop_last(), v) + if occ.last().0 == v {
            seq![occ.last().1]
        } else {
            Seq::empty()
        }
    }
}

/// Some entry of `occ` is for `v`.
pub open spec fn has_version(occ: Seq<(Version, Seq<char>)>, v: Version) -> bool {
    exists|k: int| 0 <= k < occ.len() && (#[trigger] occ[k]).0 == v
}

/// The versions of `occ`, each once, ascending.
pub open spec fn ascending_versions(occ: Seq<(Version, Seq<char>)>) -> Seq<Version> {
    choose|s: Seq<Version>|
        increasing(s) && forall|v: Version| #[trigger] s.contains(v) <==> has_version(occ, v)
}

/// The items joined with `, `.
pub open spec fn join_comma(s: Seq<Seq<char>>) -> Seq<char>
    decreases s.len(),
{
    if s.len() == 0 {
        Seq::empty()
    } else if s.len() == 1 {
        s[0]
    } else {
        join_comma(s.drop_last()) + ", "@ + s.last()
    }
}

pub open spec fn rule1_message(v: Version, files: Seq<Seq<char>>) -> Seq<char> {
    "rule 1: version "@ + version_text(v) + " appears "@ + decimal(files.len()) + " times ("@
        + join_comma(files) + ")"@
}

/// A message for each version, ascending, that is not in exactly one file.
pub open spec fn rule1_over(vs: Seq<Version>, occ: Seq<(Version, Seq<char>)>) -> Seq<Seq<char>>
    decreases vs.len(),
{
    if vs.len() == 0 {
        Seq::empty()
    } else {
        let v = vs.last();
        rule1_over(vs.drop_last(), occ) + if files_of(occ, v).len() != 1 {
            seq![rule1_message(v, files_of(occ, v))]
        } else {
            Seq::empty()
        }
    }
}

pub open spec fn rule1(occ: Seq<(Version, Seq<char>)>) -> Seq<Seq<char>> {
    rule1_over(ascending_versions(occ), occ)
}

/// Two ascending sequences with the same elements are the same sequence.
pub proof fn lemma_increasing_unique(a: Seq<Version>, b: Seq<Version>)
    requires
        increasing(a),
        increasing(b),
        forall|v: Version| #![trigger a.contains(v)] #![trigger b.contains(v)] a.contains(v) <==> b.contains(v),
    ensures
        a == b,
    decreases a.len(),
{
    if a.len() == 0 {
        if b.len() > 0 {
            assert(b.contains(b[0]));
            assert(a.contains(b[0]));
        }
        assert(a =~= b);
    } else {
        assert(a.contains(a[0]));
        assert(b.len() > 0);
        assert(b.contains(b[0]));
        assert(a.contains(b[0]));
        assert(b.contains(a[0]));
        let j = choose|j: int| 0 <= j < b.len() && b[j] == a[0];
        let m = choose|m: int| 0 <= m < a.len() && a[m] == b[0];
        if j > 0 {
            assert(version_lt(b[0], b[j]));
            if m > 0 {
                assert(version_lt(a[0], a[m]));
            }
            assert(false);
        }
        let a1 = a.drop_first();
        let b1 = b.drop_first();
        assert forall|v: Version| #[trigger] a1.contains(v) implies b1.contains(v) by {
            let k = choose|k: int| 0 <= k < a1.len() && a1[k] == v;
            assert(a[k + 1] == v);
            assert(version_lt(a[0], a[k + 1]));
            assert(a.contains(v));
            let l = choose|l: int| 0 <= l < b.len() && b[l] == v;
            assert(l != 0);
            assert(b1[l - 1] == v);
        }
        assert forall|v: Version| #[trigger] b1.contains(v) implies a1.contains(v) by {
            let k = choose|k: int| 0 <= k < b1.len() && b1[k] == v;
            assert(b[k + 1] == v);
            assert(version_lt(b[0], b[k + 1]));
            assert(b.contains(v));
            let l = choose|l: int| 0 <= l < a.len() && a[l] == v;
            assert(l != 0);
            assert(a1[l - 1] == v);
        }
        lemma_increasing_unique(a1, b1);
        assert(a =~= seq![a[0]] + a1);
        assert(b =~= seq![b[0]] + b1);
    }
}

fn version_lt_exec(a: Version, b: Version) -> (r: bool)
    ensures
        r == version_lt(a, b),
{
    a.0 < b.0 || (a.0 == b.0 && (a.1 < b.1 || (a.1 == b.1 && a.2 < b.2)))
}

fn version_eq_exec(a: Version, b: Version) -> (r: bool)
    ensures
        r == (a == b),
{
    a.0 == b.0 && a.1 == b.1 && a.2 == b.2
}

pub open spec fn occ_views(v: Seq<(Version, Vec<char>)>) -> Seq<(Version, Seq<char>)> {
    v.map_values(|p: (Version, Vec<char>)| (p.0, p.1@))
}

/// The versions of `occ`, each once, ascending.
fn ascending_exec(occ: &Vec<(Version, Vec<char>)>) -> (r: Vec<Version>)
    ensures
        r@ == ascending_versions(occ_views(occ@)),
{
    let ghost ov = occ_views(occ@);
    let mut vs: Vec<Version> = Vec::new();
    let mut i: usize = 0;
    while i < occ.len()
        invariant
            0 <= i <= occ@.len(),
            ov == occ_views(occ@),
            increasing(vs@),
            forall|v: Version| #[trigger]
                vs@.contains(v) <==> has_version(ov.take(i as int), v),
        decreases occ@.len() - i,
    {
        let v = occ[i].0;
        let mut p: usize = 0;
        while p < vs.len() && version_lt_exec(vs[p], v)
            invariant
                0 <= p <= vs@.len(),
                forall|k: int| 0 <= k < p ==> version_lt(#[trigger] vs@[k], v),
            decreases vs@.len() - p,
        {
            p = p + 1;
        }
        let ghost before = vs@;
        if p < vs.len() && version_eq_exec(vs[p], v) {
        } else {
            vs.insert(p, v);
            proof {
                assert forall|a: int, b: int| 0 <= a < b < vs@.len() implies version_lt(
                    #[trigger] vs@[a],
                    #[trigger] vs@[b],
                ) by {
                    if b < p {
                        assert(vs@[a] == before[a] && vs@[b] == before[b]);
                    } else if b == p {
                        assert(vs@[a] == before[a]);
                    } else if a == p {
                        assert(vs@[b] == before[b - 1]);
                        if b - 1 > p {
                            assert(version_lt(before[p as int], before[b - 1]));
                        }
                    } else if a < p {
                        assert(vs@[a] == before[a] && vs@[b] == before[b - 1]);
                    } else {
                        assert(vs@[a] == before[a - 1] && vs@[b] == before[b - 1]);
                    }
                }
            }
        }
        proof {
            assert(ov.take(i + 1) =~= ov.take(i as int).push(ov[i as int]));
            assert(ov[i as int].0 == v);
            assert forall|w: Version| #[trigger] vs@.contains(w) <==> has_version(
                ov.take(i + 1),
                w,
            ) by {
                if has_version(ov.take(i + 1), w) {
                    let k = choose|k: int| 0 <= k < i + 1 && (#[trigger] ov.take(i + 1)[k]).0 == w;
                    if k < i {
                        assert(ov.take(i as int)[k] == ov.take(i + 1)[k]);
                        assert(has_version(ov.take(i as int), w));
                        assert(before.contains(w));
                        let l = choose|l: int| 0 <= l < before.len() && before[l] == w;
                        if vs@.len() != before.len() {
                            if l < p {
                                assert(vs@[l] == w);
                            } else {
                                assert(vs@[l + 1] == w);
                            }
                        } else {
                            assert(vs@[l] == w);
                        }
                    } else {
                        if vs@.len() != before.len() {
                            assert(vs@[p as int] == w);
                        } else {
                            assert(vs@[p as int] == w);
                        }
                    }
                }
                if vs@.contains(w) {
                    let l = choose|l: int| 0 <= l < vs@.len() && vs@[l] == w;
                    if vs@.len() != before.len() && l == p {
                        assert(ov.take(i + 1)[i as int].0 == w);
                    } else {
                        let l0 = if vs@.len() != before.len() && l > p {
                            l - 1
                        } else {
                            l
                        };
                        assert(before[l0] == w);
                        assert(before.contains(w));
                        let k = choose|k: int| 0 <= k < i && (#[trigger] ov.take(i as int)[k]).0 == w;
                        assert(ov.take(i + 1)[k] == ov.take(i as int)[k]);
                    }
                }
            }
        }
        i = i + 1;
    }
    proof {
        assert(ov.take(i as int) =~= ov);
        lemma_increasing_unique(vs@, ascending_versions(ov));
    }
    vs
}

fn copy_chars(s: &[char]) -> (r: Vec<char>)
    ensures
        r@ == s@,
{
    let r = slice_chars(s, 0, s.len());
    assert(r@ =~= s@);
    r
}

fn section_occ_exec(secs: &Vec<Section>, file: &[char], out: &mut Vec<(Version, Vec<char>)>)
    ensures
        occ_views(final(out)@) == occ_views(old(out)@) + section_occ(section_views(secs@), file@),
{
    let ghost sv = section_views(secs@);
    let ghost start = occ_views(out@);
    let mut i: usize = 0;
    while i < secs.len()
        invariant
            0 <= i <= secs@.len(),
            sv == section_views(secs@),
            occ_views(out@) == start + section_occ(sv.take(i as int), file@),
        decreases secs@.len() - i,
    {
        proof {
            assert(sv.take(i + 1).drop_last() =~= sv.take(i as int));
            assert(sv.take(i + 1).last() == secs@[i as int]@);
        }
        let ghost before = occ_views(out@);
        match secs[i].version {
            Some(v) => {
                let f = copy_chars(file);
                out.push((v, f));
                proof {
                    assert(occ_views(out@) =~= before.push((v, file@)));
                    assert(start + (section_occ(sv.take(i as int), file@) + seq![(v, file@)])
                        =~= before.push((v, file@)));
                }
            },
            None => {
                proof {
                    assert(section_occ(sv.take(i as int), file@) + Seq::empty() =~= section_occ(
                        sv.take(i as int),
                        file@,
                    ));
                }
            },
        }
        i = i + 1;
    }
    proof {
        assert(sv.take(i as int) =~= sv);
    }
}

fn archive_path_chars(name: &[char]) -> (r: Vec<char>)
    ensures
        r@ == archive_path(name@),
{
    let mut out: Vec<char> = Vec::new();
    push_str_chars(&mut out, "changelog/");
    push_all(&mut out, name);
    proof {
        assert(out@ =~= archive_path(name@));
    }
    out
}

/// The archives as characters.
pub struct ArchiveChars {
    pub name: Vec<char>,
    pub text: Vec<char>,
}

pub open spec fn archive_views(v: Seq<ArchiveChars>) -> Seq<(Seq<char>, Seq<char>)> {
    v.map_values(|a: ArchiveChars| (a.name@, a.text@))
}

fn occurrences_exec(changelog: &[char], main: &Vec<Section>, archives: &Vec<ArchiveChars>) -> (r: Vec<(Version, Vec<char>)>)
    requires
        section_views(main@) == sections_of(changelog@),
    ensures
        occ_views(r@) == occurrences(changelog@, archive_views(archives@)),
{
    let mut out: Vec<(Version, Vec<char>)> = Vec::new();
    let main_name: Vec<char> = vec!['C', 'H', 'A', 'N', 'G', 'E', 'L', 'O', 'G', '.', 'm', 'd'];
    proof {
        assert(main_name@ =~= "CHANGELOG.md"@) by {
            reveal_strlit("CHANGELOG.md");
        }
        assert(occ_views(out@) =~= Seq::empty());
    }
    section_occ_exec(main, main_name.as_slice(), &mut out);
    let ghost av = archive_views(archives@);
    let ghost head = occ_views(out@);
    let mut i: usize = 0;
    while i < archives.len()
        invariant
            0 <= i <= archives@.len(),
            av == archive_views(archives@),
            occ_views(out@) == head + archive_occ(av.take(i as int)),
        decreases archives@.len() - i,
    {
        proof {
            assert(av.take(i + 1).drop_last() =~= av.take(i as int));
            assert(av.take(i + 1).last() == (archives@[i as int].name@, archives@[i as int].text@));
        }
        let secs = sections_chars(&archives[i].text);
        let path = archive_path_chars(&archives[i].name);
        let ghost before = occ_views(out@);
        section_occ_exec(&secs, path.as_slice(), &mut out);
        proof {
            assert(head + archive_occ(av.take(i + 1)) =~= before + section_occ(
                section_views(secs@),
                path@,
            ));
        }
        i = i + 1;
    }
    proof {
        assert(av.take(i as int) =~= av);
    }
    out
}

fn files_exec(occ: &Vec<(Version, Vec<char>)>, v: Version) -> (r: Vec<Vec<char>>)
    ensures
        views(r@) == files_of(occ_views(occ@), v),
{
    let ghost ov = occ_views(occ@);
    let mut out: Vec<Vec<char>> = Vec::new();
    let mut i: usize = 0;
    while i < occ.len()
        invariant
            0 <= i <= occ@.len(),
            ov == occ_views(occ@),
            views(out@) == files_of(ov.take(i as int), v),
        decreases occ@.len() - i,
    {
        proof {
            assert(ov.take(i + 1).drop_last() =~= ov.take(i as int));
            assert(ov.take(i + 1).last() == (occ@[i as int].0, occ@[i as int].1@));
        }
        let ghost before = views(out@);
        if version_eq_exec(occ[i].0, v) {
            let f = copy_chars(&occ[i].1);
            out.push(f);
            proof {
                assert(views(out@) =~= before.push(f@));
                assert(before + seq![f@] =~= before.push(f@));
            }
        } else {
            proof {
                assert(before + Seq::<Seq<char>>::empty() =~= before);
            }
        }
        i = i + 1;
    }
    proof {
        assert(ov.take(i as int) =~= ov);
    }
    out
}

fn join_comma_exec(s: &Vec<Vec<char>>) -> (r: Vec<char>)
    ensures
        r@ == join_comma(views(s@)),
{
    let ghost sv = views(s@);
    let mut out: Vec<char> = Vec::new();
    let mut i: usize = 0;
    while i < s.len()
        invariant
            0 <= i <= s@.len(),
            sv == views(s@),
            out@ == join_comma(sv.take(i as int)),
        decreases s@.len() - i,
    {
        proof {
            assert(sv.take(i + 1).drop_last() =~= sv.take(i as int));
            assert(sv.take(i + 1).last() == s@[i as int]@);
        }
        if i > 0 {
            push_str_chars(&mut out, ", ");
        }
        push_all(&mut out, &s[i]);
        i = i + 1;
        proof {
            if i == 1 {
                assert(sv.take(1) =~= seq![sv[0]]);
            }
            assert(out@ =~= join_comma(sv.take(i as int)));
        }
    }
    proof {
        assert(sv.take(i as int) =~= sv);
    }
    out
}

fn rule1_exec(occ: &Vec<(Version, Vec<char>)>, out: &mut Vec<Vec<char>>)
    ensures
        views(final(out)@) == views(old(out)@) + rule1(occ_views(occ@)),
{
    let vs = ascending_exec(occ);
    let ghost start = views(out@);
    let ghost ov = occ_views(occ@);
    let mut i: usize = 0;
    while i < vs.len()
        invariant
            0 <= i <= vs@.len(),
            ov == occ_views(occ@),
            vs@ == ascending_versions(ov),
            views(out@) == start + rule1_over(vs@.take(i as int), ov),
        decreases vs@.len() - i,
    {
        proof {
            assert(vs@.take(i + 1).drop_last() =~= vs@.take(i as int));
        }
        let v = vs[i];
        let files = files_exec(occ, v);
        let ghost before = views(out@);
        if files.len() != 1 {
            let mut m: Vec<char> = Vec::new();
            push_str_chars(&mut m, "rule 1: version ");
            let vt = version_chars(v);
            push_all(&mut m, &vt);
            push_str_chars(&mut m, " appears ");
            let n = decimal_of(files.len() as u64);
            push_all(&mut m, &n);
            push_str_chars(&mut m, " times (");
            let j = join_comma_exec(&files);
            push_all(&mut m, &j);
            push_str_chars(&mut m, ")");
            proof {
                assert(m@ =~= rule1_message(v, views(files@)));
            }
            out.push(m);
            proof {
                assert(views(out@) =~= before.push(m@));
            }
        }
        i = i + 1;
        proof {
            assert(views(out@) =~= start + rule1_over(vs@.take(i as int), ov));
        }
    }
    proof {
        assert(vs@.take(i as int) =~= vs@);
    }
}

// ---------------------------------------------------------------------
// Rule 2: CHANGELOG.md holds only the current series
// ---------------------------------------------------------------------

pub open spec fn rule2_message(v: Version, current: (u32, u32)) -> Seq<char> {
    "rule 2: CHANGELOG.md holds "@ + version_text(v) + ", which is not in the current series ("@
        + stem(current) + "); it belongs in changelog/"@ + stem(series(v)) + ".md"@
}

pub open spec fn rule2(main: Seq<SectionView>, current: (u32, u32)) -> Seq<Seq<char>>
    decreases main.len(),
{
    if main.len() == 0 {
        Seq::empty()
    } else {
        rule2(main.drop_last(), current) + match main.last().version {
            Some(v) => if series(v) != current {
                seq![rule2_message(v, current)]
            } else {
                Seq::empty()
            },
            None => Seq::empty(),
        }
    }
}

/// Whether a section, where it names a version, names one of `major`.
pub open spec fn of_major(s: SectionView, major: u32) -> bool {
    match s.version {
        Some(v) => v.0 == major,
        None => true,
    }
}

/// From 1.0.0 on, CHANGELOG.md may hold every release of the workspace's
/// major version: where each section names a version of that major, rule
/// 2 finds nothing, whatever their minors.
pub proof fn law_current_major_stays(main: Seq<SectionView>, wv: Version)
    requires
        wv.0 >= 1,
        forall|i: int| 0 <= i < main.len() ==> of_major(#[trigger] main[i], wv.0),
    ensures
        rule2(main, series(wv)) == Seq::<Seq<char>>::empty(),
    decreases main.len(),
{
    if main.len() > 0 {
        assert forall|i: int| 0 <= i < main.drop_last().len() implies of_major(
            #[trigger] main.drop_last()[i],
            wv.0,
        ) by {
            assert(main.drop_last()[i] == main[i]);
        }
        law_current_major_stays(main.drop_last(), wv);
        assert(of_major(main[main.len() - 1], wv.0));
        match main.last().version {
            Some(v) => law_series_by_major(v, wv),
            None => {},
        }
        assert(rule2(main, series(wv)) =~= Seq::<Seq<char>>::empty());
    }
}

fn rule2_exec(main: &Vec<Section>, current: (u32, u32), out: &mut Vec<Vec<char>>)
    ensures
        views(final(out)@) == views(old(out)@) + rule2(section_views(main@), current),
{
    let ghost sv = section_views(main@);
    let ghost start = views(out@);
    let mut i: usize = 0;
    while i < main.len()
        invariant
            0 <= i <= main@.len(),
            sv == section_views(main@),
            views(out@) == start + rule2(sv.take(i as int), current),
        decreases main@.len() - i,
    {
        proof {
            assert(sv.take(i + 1).drop_last() =~= sv.take(i as int));
            assert(sv.take(i + 1).last() == main@[i as int]@);
        }
        let ghost before = views(out@);
        if let Some(v) = main[i].version {
            let s = series_of(v);
            if s.0 != current.0 || s.1 != current.1 {
                let mut m: Vec<char> = Vec::new();
                push_str_chars(&mut m, "rule 2: CHANGELOG.md holds ");
                let vt = version_chars(v);
                push_all(&mut m, &vt);
                push_str_chars(&mut m, ", which is not in the current series (");
                let cs = series_stem_chars(current);
                push_all(&mut m, &cs);
                push_str_chars(&mut m, "); it belongs in changelog/");
                let ss = series_stem_chars(s);
                push_all(&mut m, &ss);
                push_str_chars(&mut m, ".md");
                proof {
                    assert(m@ =~= rule2_message(v, current));
                }
                out.push(m);
                proof {
                    assert(views(out@) =~= before.push(m@));
                }
            }
        }
        i = i + 1;
        proof {
            assert(views(out@) =~= start + rule2(sv.take(i as int), current));
        }
    }
    proof {
        assert(sv.take(i as int) =~= sv);
    }
}

// ---------------------------------------------------------------------
// Rule 3: each archive holds one whole series, the one its name says
// ---------------------------------------------------------------------

/// The archive's name without `.md`.
pub open spec fn archive_stem(name: Seq<char>) -> Seq<char> {
    if ends_with(name, seq!['.', 'm', 'd']) {
        name.take(name.len() - 3)
    } else {
        name
    }
}

pub open spec fn rule3_section(name: Seq<char>, s: SectionView) -> Seq<Seq<char>> {
    match s.version {
        None => if s.label == "Unreleased"@ {
            seq!["rule 3: changelog/"@ + name + " has an [Unreleased] section"@]
        } else {
            Seq::empty()
        },
        Some(v) => if stem(series(v)) != archive_stem(name) {
            seq![
                "rule 3: changelog/"@ + name + " holds "@ + version_text(v) + ", which belongs to "@
                    + stem(series(v)),
            ]
        } else {
            Seq::empty()
        },
    }
}

pub open spec fn rule3_sections(name: Seq<char>, secs: Seq<SectionView>) -> Seq<Seq<char>>
    decreases secs.len(),
{
    if secs.len() == 0 {
        Seq::empty()
    } else {
        rule3_sections(name, secs.drop_last()) + rule3_section(name, secs.last())
    }
}

pub open spec fn rule3(archives: Seq<(Seq<char>, Seq<char>)>) -> Seq<Seq<char>>
    decreases archives.len(),
{
    if archives.len() == 0 {
        Seq::empty()
    } else {
        rule3(archives.drop_last()) + rule3_sections(
            archives.last().0,
            sections_of(archives.last().1),
        )
    }
}

fn rule3_section_exec(name: &[char], s: &Section, out: &mut Vec<Vec<char>>)
    ensures
        views(final(out)@) == views(old(out)@) + rule3_section(name@, s@),
{
    let ghost before = views(out@);
    match s.version {
        None => {
            let unreleased: Vec<char> = vec!['U', 'n', 'r', 'e', 'l', 'e', 'a', 's', 'e', 'd'];
            proof {
                assert(unreleased@ =~= "Unreleased"@) by {
                    reveal_strlit("Unreleased");
                }
            }
            if eq_chars(&s.label, unreleased.as_slice()) {
                let mut m: Vec<char> = Vec::new();
                push_str_chars(&mut m, "rule 3: changelog/");
                push_all(&mut m, name);
                push_str_chars(&mut m, " has an [Unreleased] section");
                out.push(m);
                proof {
                    assert(views(out@) =~= before + rule3_section(name@, s@));
                }
            } else {
                proof {
                    assert(views(out@) =~= before + rule3_section(name@, s@));
                }
            }
        },
        Some(v) => {
            let st = series_stem_chars(series_of(v));
            let md: Vec<char> = vec!['.', 'm', 'd'];
            let own = if ends_with_chars(name, md.as_slice()) {
                slice_chars(name, 0, name.len() - 3)
            } else {
                copy_chars(name)
            };
            proof {
                assert(own@ =~= archive_stem(name@));
            }
            if !eq_chars(&st, &own) {
                let mut m: Vec<char> = Vec::new();
                push_str_chars(&mut m, "rule 3: changelog/");
                push_all(&mut m, name);
                push_str_chars(&mut m, " holds ");
                let vt = version_chars(v);
                push_all(&mut m, &vt);
                push_str_chars(&mut m, ", which belongs to ");
                push_all(&mut m, &st);
                out.push(m);
                proof {
                    assert(views(out@) =~= before + rule3_section(name@, s@));
                }
            } else {
                proof {
                    assert(views(out@) =~= before + rule3_section(name@, s@));
                }
            }
        },
    }
}

fn rule3_exec(archives: &Vec<ArchiveChars>, out: &mut Vec<Vec<char>>)
    ensures
        views(final(out)@) == views(old(out)@) + rule3(archive_views(archives@)),
{
    let ghost av = archive_views(archives@);
    let ghost start = views(out@);
    let mut i: usize = 0;
    while i < archives.len()
        invariant
            0 <= i <= archives@.len(),
            av == archive_views(archives@),
            views(out@) == start + rule3(av.take(i as int)),
        decreases archives@.len() - i,
    {
        proof {
            assert(av.take(i + 1).drop_last() =~= av.take(i as int));
            assert(av.take(i + 1).last() == (archives@[i as int].name@, archives@[i as int].text@));
        }
        let secs = sections_chars(&archives[i].text);
        let ghost sv = section_views(secs@);
        let ghost mid = views(out@);
        let mut j: usize = 0;
        while j < secs.len()
            invariant
                0 <= j <= secs@.len(),
                i < archives@.len(),
                sv == section_views(secs@),
                views(out@) == mid + rule3_sections(archives@[i as int].name@, sv.take(j as int)),
            decreases secs@.len() - j,
        {
            proof {
                assert(sv.take(j + 1).drop_last() =~= sv.take(j as int));
                assert(sv.take(j + 1).last() == secs@[j as int]@);
            }
            rule3_section_exec(&archives[i].name, &secs[j], out);
            j = j + 1;
            proof {
                assert(views(out@) =~= mid + rule3_sections(
                    archives@[i as int].name@,
                    sv.take(j as int),
                ));
            }
        }
        proof {
            assert(sv.take(j as int) =~= sv);
        }
        i = i + 1;
        proof {
            assert(views(out@) =~= start + rule3(av.take(i as int)));
        }
    }
    proof {
        assert(av.take(i as int) =~= av);
    }
}

// ---------------------------------------------------------------------
// Rule 4: every archive linked, every relative link resolves
// ---------------------------------------------------------------------

/// The paths that the relative links among `targets` resolve to from
/// `CHANGELOG.md`, in order.
pub open spec fn changelog_paths(targets: Seq<Seq<char>>) -> Seq<Seq<char>>
    decreases targets.len(),
{
    if targets.len() == 0 {
        Seq::empty()
    } else {
        changelog_paths(targets.drop_last()) + match resolved("CHANGELOG.md"@, targets.last()) {
            Some(r) => seq![r.0],
            None => Seq::empty(),
        }
    }
}

pub open spec fn rule4_unlinked(archives: Seq<(Seq<char>, Seq<char>)>, paths: Seq<Seq<char>>) -> Seq<
    Seq<char>,
>
    decreases archives.len(),
{
    if archives.len() == 0 {
        Seq::empty()
    } else {
        let name = archives.last().0;
        rule4_unlinked(archives.drop_last(), paths) + if !paths.contains(archive_path(name)) {
            seq!["rule 4: CHANGELOG.md does not link changelog/"@ + name]
        } else {
            Seq::empty()
        }
    }
}

pub open spec fn rule4_dead(paths: Seq<Seq<char>>, existing: Seq<Seq<char>>) -> Seq<Seq<char>>
    decreases paths.len(),
{
    if paths.len() == 0 {
        Seq::empty()
    } else {
        let p = paths.last();
        rule4_dead(paths.drop_last(), existing) + if !existing.contains(p) {
            seq!["rule 4: CHANGELOG.md links "@ + p + ", which does not exist"@]
        } else {
            Seq::empty()
        }
    }
}

pub open spec fn rule4(
    changelog: Seq<char>,
    archives: Seq<(Seq<char>, Seq<char>)>,
    existing: Seq<Seq<char>>,
) -> Seq<Seq<char>> {
    let paths = changelog_paths(link_targets_of(changelog));
    rule4_unlinked(archives, paths) + rule4_dead(paths, existing)
}

fn main_name_chars() -> (r: Vec<char>)
    ensures
        r@ == "CHANGELOG.md"@,
{
    let r: Vec<char> = vec!['C', 'H', 'A', 'N', 'G', 'E', 'L', 'O', 'G', '.', 'm', 'd'];
    proof {
        assert(r@ =~= "CHANGELOG.md"@) by {
            reveal_strlit("CHANGELOG.md");
        }
    }
    r
}

fn changelog_paths_exec(changelog: &[char]) -> (r: Vec<Vec<char>>)
    ensures
        views(r@) == changelog_paths(link_targets_of(changelog@)),
{
    let targets = link_targets_chars(changelog);
    let ghost tv = views(targets@);
    let main = main_name_chars();
    let mut out: Vec<Vec<char>> = Vec::new();
    let mut i: usize = 0;
    while i < targets.len()
        invariant
            0 <= i <= targets@.len(),
            tv == views(targets@),
            tv == link_targets_of(changelog@),
            main@ == "CHANGELOG.md"@,
            views(out@) == changelog_paths(tv.take(i as int)),
        decreases targets@.len() - i,
    {
        proof {
            assert(tv.take(i + 1).drop_last() =~= tv.take(i as int));
            assert(tv.take(i + 1).last() == targets@[i as int]@);
        }
        let ghost before = views(out@);
        match resolve_chars(main.as_slice(), &targets[i]) {
            Some((p, _)) => {
                out.push(p);
                proof {
                    assert(views(out@) =~= before.push(p@));
                    assert(before + seq![p@] =~= before.push(p@));
                }
            },
            None => {
                proof {
                    assert(before + Seq::<Seq<char>>::empty() =~= before);
                }
            },
        }
        i = i + 1;
    }
    proof {
        assert(tv.take(i as int) =~= tv);
    }
    out
}

/// Is `x` one of `items`?
fn contains_item(items: &Vec<Vec<char>>, x: &[char]) -> (r: bool)
    ensures
        r == views(items@).contains(x@),
{
    let ghost iv = views(items@);
    let mut i: usize = 0;
    while i < items.len()
        invariant
            0 <= i <= items@.len(),
            iv == views(items@),
            forall|k: int| 0 <= k < i ==> iv[k] != x@,
        decreases items@.len() - i,
    {
        if eq_chars(&items[i], x) {
            proof {
                assert(iv[i as int] == x@);
            }
            return true;
        }
        i = i + 1;
    }
    false
}

fn rule4_exec(
    changelog: &[char],
    archives: &Vec<ArchiveChars>,
    existing: &Vec<Vec<char>>,
    out: &mut Vec<Vec<char>>,
)
    ensures
        views(final(out)@) == views(old(out)@) + rule4(
            changelog@,
            archive_views(archives@),
            views(existing@),
        ),
{
    let paths = changelog_paths_exec(changelog);
    let ghost pv = views(paths@);
    let ghost av = archive_views(archives@);
    let ghost start = views(out@);
    let mut i: usize = 0;
    while i < archives.len()
        invariant
            0 <= i <= archives@.len(),
            av == archive_views(archives@),
            pv == views(paths@),
            views(out@) == start + rule4_unlinked(av.take(i as int), pv),
        decreases archives@.len() - i,
    {
        proof {
            assert(av.take(i + 1).drop_last() =~= av.take(i as int));
            assert(av.take(i + 1).last() == (archives@[i as int].name@, archives@[i as int].text@));
        }
        let want = archive_path_chars(&archives[i].name);
        let ghost before = views(out@);
        if !contains_item(&paths, &want) {
            let mut m: Vec<char> = Vec::new();
            push_str_chars(&mut m, "rule 4: CHANGELOG.md does not link changelog/");
            push_all(&mut m, &archives[i].name);
            out.push(m);
            proof {
                assert(views(out@) =~= before.push(m@));
            }
        }
        i = i + 1;
        proof {
            assert(views(out@) =~= start + rule4_unlinked(av.take(i as int), pv));
        }
    }
    proof {
        assert(av.take(i as int) =~= av);
    }
    let ghost mid = views(out@);
    let ghost ev = views(existing@);
    let mut j: usize = 0;
    while j < paths.len()
        invariant
            0 <= j <= paths@.len(),
            pv == views(paths@),
            ev == views(existing@),
            views(out@) == mid + rule4_dead(pv.take(j as int), ev),
        decreases paths@.len() - j,
    {
        proof {
            assert(pv.take(j + 1).drop_last() =~= pv.take(j as int));
            assert(pv.take(j + 1).last() == paths@[j as int]@);
        }
        let ghost before = views(out@);
        if !contains_item(existing, &paths[j]) {
            let mut m: Vec<char> = Vec::new();
            push_str_chars(&mut m, "rule 4: CHANGELOG.md links ");
            push_all(&mut m, &paths[j]);
            push_str_chars(&mut m, ", which does not exist");
            out.push(m);
            proof {
                assert(views(out@) =~= before.push(m@));
            }
        }
        j = j + 1;
        proof {
            assert(views(out@) =~= mid + rule4_dead(pv.take(j as int), ev));
        }
    }
    proof {
        assert(pv.take(j as int) =~= pv);
    }
}

// ---------------------------------------------------------------------
// Rule 5: no link names a section that has moved
// ---------------------------------------------------------------------

/// The anchors of the sections.
pub open spec fn slugs_of(secs: Seq<SectionView>) -> Seq<Seq<char>> {
    secs.map_values(|s: SectionView| s.slug)
}

/// The anchors of the last archive whose path is `path`.
pub open spec fn archive_slugs(archives: Seq<(Seq<char>, Seq<char>)>, path: Seq<char>) -> Option<
    Seq<Seq<char>>,
>
    decreases archives.len(),
{
    if archives.len() == 0 {
        None
    } else if archive_path(archives.last().0) == path {
        Some(slugs_of(sections_of(archives.last().1)))
    } else {
        archive_slugs(archives.drop_last(), path)
    }
}

/// The anchors of the changelog file at `path`, if it is one.
pub open spec fn known_slugs(
    changelog: Seq<char>,
    archives: Seq<(Seq<char>, Seq<char>)>,
    path: Seq<char>,
) -> Option<Seq<Seq<char>>> {
    if path == "CHANGELOG.md"@ {
        Some(slugs_of(sections_of(changelog)))
    } else {
        archive_slugs(archives, path)
    }
}

pub open spec fn rule5_message(from: Seq<char>, path: Seq<char>, frag: Seq<char>) -> Seq<char> {
    "rule 5: "@ + from + " links "@ + path + "#"@ + frag
        + ", but no such section is in that file (moved?)"@
}

pub open spec fn rule5_link(
    changelog: Seq<char>,
    archives: Seq<(Seq<char>, Seq<char>)>,
    from: Seq<char>,
    target: Seq<char>,
) -> Seq<Seq<char>> {
    match resolved(from, target) {
        Some(r) => match r.1 {
            Some(frag) => match known_slugs(changelog, archives, r.0) {
                Some(known) => if !known.contains(frag) {
                    seq![rule5_message(from, r.0, frag)]
                } else {
                    Seq::empty()
                },
                None => Seq::empty(),
            },
            None => Seq::empty(),
        },
        None => Seq::empty(),
    }
}

pub open spec fn rule5_doc(
    changelog: Seq<char>,
    archives: Seq<(Seq<char>, Seq<char>)>,
    from: Seq<char>,
    targets: Seq<Seq<char>>,
) -> Seq<Seq<char>>
    decreases targets.len(),
{
    if targets.len() == 0 {
        Seq::empty()
    } else {
        rule5_doc(changelog, archives, from, targets.drop_last()) + rule5_link(
            changelog,
            archives,
            from,
            targets.last(),
        )
    }
}

/// Every markdown file the rule reads: the other documents, then
/// `CHANGELOG.md`, then the archives.
pub open spec fn all_docs(
    changelog: Seq<char>,
    archives: Seq<(Seq<char>, Seq<char>)>,
    docs: Seq<(Seq<char>, Seq<char>)>,
) -> Seq<(Seq<char>, Seq<char>)> {
    docs + seq![("CHANGELOG.md"@, changelog)] + archives.map_values(
        |a: (Seq<char>, Seq<char>)| (archive_path(a.0), a.1),
    )
}

pub open spec fn rule5_over(
    changelog: Seq<char>,
    archives: Seq<(Seq<char>, Seq<char>)>,
    ds: Seq<(Seq<char>, Seq<char>)>,
) -> Seq<Seq<char>>
    decreases ds.len(),
{
    if ds.len() == 0 {
        Seq::empty()
    } else {
        rule5_over(changelog, archives, ds.drop_last()) + rule5_doc(
            changelog,
            archives,
            ds.last().0,
            link_targets_of(ds.last().1),
        )
    }
}

pub open spec fn rule5(
    changelog: Seq<char>,
    archives: Seq<(Seq<char>, Seq<char>)>,
    docs: Seq<(Seq<char>, Seq<char>)>,
) -> Seq<Seq<char>> {
    rule5_over(changelog, archives, all_docs(changelog, archives, docs))
}

/// The anchors of each changelog file.
struct SlugTable {
    main: Vec<Vec<char>>,
    archive_paths: Vec<Vec<char>>,
    archive_slugs: Vec<Vec<Vec<char>>>,
}

fn slugs_exec(secs: &Vec<Section>) -> (r: Vec<Vec<char>>)
    ensures
        views(r@) == slugs_of(section_views(secs@)),
{
    let ghost sv = section_views(secs@);
    let mut out: Vec<Vec<char>> = Vec::new();
    let mut i: usize = 0;
    while i < secs.len()
        invariant
            0 <= i <= secs@.len(),
            out@.len() == i,
            sv == section_views(secs@),
            views(out@) == slugs_of(sv.take(i as int)),
        decreases secs@.len() - i,
    {
        let s = copy_chars(&secs[i].slug);
        let ghost before = views(out@);
        out.push(s);
        i = i + 1;
        proof {
            assert(sv[i - 1].slug == s@);
            assert forall|k: int| 0 <= k < i implies #[trigger] views(out@)[k] == slugs_of(
                sv.take(i as int),
            )[k] by {
                if k < i - 1 {
                    assert(views(out@)[k] == before[k]);
                    assert(before[k] == slugs_of(sv.take(i - 1))[k]);
                }
            }
            assert(views(out@) =~= slugs_of(sv.take(i as int)));
        }
    }
    proof {
        assert(sv.take(i as int) =~= sv);
    }
    out
}

spec fn table_ok(
    t: SlugTable,
    changelog: Seq<char>,
    archives: Seq<(Seq<char>, Seq<char>)>,
) -> bool {
    &&& views(t.main@) == slugs_of(sections_of(changelog))
    &&& t.archive_paths@.len() == archives.len()
    &&& t.archive_slugs@.len() == archives.len()
    &&& forall|k: int|
        0 <= k < archives.len() ==> (#[trigger] t.archive_paths@[k])@ == archive_path(archives[k].0)
            && views(t.archive_slugs@[k]@) == slugs_of(sections_of(archives[k].1))
}

fn slug_table(main: &Vec<Section>, changelog: &[char], archives: &Vec<ArchiveChars>) -> (r: SlugTable)
    requires
        section_views(main@) == sections_of(changelog@),
    ensures
        table_ok(r, changelog@, archive_views(archives@)),
{
    let m = slugs_exec(main);
    let mut paths: Vec<Vec<char>> = Vec::new();
    let mut slugs: Vec<Vec<Vec<char>>> = Vec::new();
    let ghost av = archive_views(archives@);
    let mut i: usize = 0;
    while i < archives.len()
        invariant
            0 <= i <= archives@.len(),
            av == archive_views(archives@),
            paths@.len() == i,
            slugs@.len() == i,
            forall|k: int|
                0 <= k < i ==> (#[trigger] paths@[k])@ == archive_path(av[k].0) && views(
                    slugs@[k]@,
                ) == slugs_of(sections_of(av[k].1)),
        decreases archives@.len() - i,
    {
        let secs = sections_chars(&archives[i].text);
        let s = slugs_exec(&secs);
        let p = archive_path_chars(&archives[i].name);
        proof {
            assert(av[i as int] == (archives@[i as int].name@, archives@[i as int].text@));
        }
        let ghost old_paths = paths@;
        let ghost old_slugs = slugs@;
        paths.push(p);
        slugs.push(s);
        proof {
            assert forall|k: int| 0 <= k < i implies (#[trigger] paths@[k])@ == archive_path(
                av[k].0,
            ) && views(slugs@[k]@) == slugs_of(sections_of(av[k].1)) by {
                assert(paths@[k] == old_paths[k]);
                assert(slugs@[k] == old_slugs[k]);
            }
        }
        i = i + 1;
        proof {
            assert(paths@[i - 1]@ == archive_path(av[i - 1].0));
            assert(views(slugs@[i - 1]@) == slugs_of(sections_of(av[i - 1].1)));
        }
    }
    SlugTable { main: m, archive_paths: paths, archive_slugs: slugs }
}

fn lookup_slugs<'a>(
    table: &'a SlugTable,
    path: &[char],
    Ghost(changelog): Ghost<Seq<char>>,
    Ghost(archives): Ghost<Seq<(Seq<char>, Seq<char>)>>,
) -> (r: Option<&'a Vec<Vec<char>>>)
    requires
        table_ok(*table, changelog, archives),
    ensures
        match r {
            Some(v) => known_slugs(changelog, archives, path@) == Some(views(v@)),
            None => known_slugs(changelog, archives, path@) is None,
        },
{
    let main = main_name_chars();
    if eq_chars(path, main.as_slice()) {
        return Some(&table.main);
    }
    let mut i: usize = table.archive_paths.len();
    proof {
        assert(archives.take(i as int) =~= archives);
    }
    while i > 0
        invariant
            0 <= i <= archives.len(),
            table_ok(*table, changelog, archives),
            path@ != "CHANGELOG.md"@,
            archive_slugs(archives, path@) == archive_slugs(archives.take(i as int), path@),
        decreases i,
    {
        proof {
            assert(archives.take(i as int).drop_last() =~= archives.take(i - 1));
            assert(archives.take(i as int).last() == archives[i - 1]);
            assert(table.archive_paths@[i - 1]@ == archive_path(archives[i - 1].0));
        }
        if eq_chars(&table.archive_paths[i - 1], path) {
            return Some(&table.archive_slugs[i - 1]);
        }
        i = i - 1;
    }
    proof {
        assert(archives.take(0) =~= Seq::<(Seq<char>, Seq<char>)>::empty());
    }
    None
}

fn rule5_doc_exec(
    table: &SlugTable,
    from: &[char],
    text: &[char],
    out: &mut Vec<Vec<char>>,
    Ghost(changelog): Ghost<Seq<char>>,
    Ghost(archives): Ghost<Seq<(Seq<char>, Seq<char>)>>,
)
    requires
        table_ok(*table, changelog, archives),
    ensures
        views(final(out)@) == views(old(out)@) + rule5_doc(
            changelog,
            archives,
            from@,
            link_targets_of(text@),
        ),
{
    let targets = link_targets_chars(text);
    let ghost tv = views(targets@);
    let ghost start = views(out@);
    let mut i: usize = 0;
    while i < targets.len()
        invariant
            0 <= i <= targets@.len(),
            tv == views(targets@),
            table_ok(*table, changelog, archives),
            views(out@) == start + rule5_doc(changelog, archives, from@, tv.take(i as int)),
        decreases targets@.len() - i,
    {
        proof {
            assert(tv.take(i + 1).drop_last() =~= tv.take(i as int));
            assert(tv.take(i + 1).last() == targets@[i as int]@);
        }
        let ghost before = views(out@);
        if let Some((path, Some(frag))) = resolve_chars(from, &targets[i]) {
            if let Some(known) = lookup_slugs(table, &path, Ghost(changelog), Ghost(archives)) {
                if !contains_item(known, &frag) {
                    let mut m: Vec<char> = Vec::new();
                    push_str_chars(&mut m, "rule 5: ");
                    push_all(&mut m, from);
                    push_str_chars(&mut m, " links ");
                    push_all(&mut m, &path);
                    push_str_chars(&mut m, "#");
                    push_all(&mut m, &frag);
                    push_str_chars(&mut m, ", but no such section is in that file (moved?)");
                    proof {
                        assert(m@ =~= rule5_message(from@, path@, frag@));
                    }
                    out.push(m);
                    proof {
                        assert(views(out@) =~= before.push(m@));
                    }
                }
            }
        }
        i = i + 1;
        proof {
            assert(views(out@) =~= start + rule5_doc(changelog, archives, from@, tv.take(i as int)));
        }
    }
    proof {
        assert(tv.take(i as int) =~= tv);
    }
}

/// Every markdown file rule 5 reads, as `(path, text)`.
fn all_docs_exec(changelog: &[char], archives: &Vec<ArchiveChars>, docs: &Vec<ArchiveChars>) -> (r:
    Vec<ArchiveChars>)
    ensures
        archive_views(r@) == all_docs(changelog@, archive_views(archives@), archive_views(docs@)),
{
    let ghost want = all_docs(changelog@, archive_views(archives@), archive_views(docs@));
    let ghost dv = archive_views(docs@);
    let ghost av = archive_views(archives@);
    let mut out: Vec<ArchiveChars> = Vec::new();
    let mut i: usize = 0;
    while i < docs.len()
        invariant
            0 <= i <= docs@.len(),
            out@.len() == i,
            dv == archive_views(docs@),
            archive_views(out@) == dv.take(i as int),
        decreases docs@.len() - i,
    {
        let a = ArchiveChars { name: copy_chars(&docs[i].name), text: copy_chars(&docs[i].text) };
        let ghost before = out@;
        out.push(a);
        i = i + 1;
        proof {
            assert(out@[i - 1] == a);
            assert(dv[i - 1] == (docs@[i - 1].name@, docs@[i - 1].text@));
            assert forall|k: int| 0 <= k < i - 1 implies #[trigger] archive_views(out@)[k] == dv[k] by {
                assert(out@[k] == before[k]);
                assert(archive_views(before)[k] == dv.take(i - 1)[k]);
            }
            assert(archive_views(out@) =~= dv.take(i as int));
        }
    }
    let main = ArchiveChars { name: main_name_chars(), text: copy_chars(changelog) };
    let ghost before_main = out@;
    out.push(main);
    proof {
        assert(dv.take(i as int) =~= dv);
        assert forall|k: int| 0 <= k < dv.len() implies #[trigger] archive_views(out@)[k] == dv[k] by {
            assert(out@[k] == before_main[k]);
            assert(archive_views(before_main)[k] == dv.take(i as int)[k]);
        }
        assert(archive_views(out@) =~= dv + seq![("CHANGELOG.md"@, changelog@)]);
    }
    let ghost head = archive_views(out@);
    let ghost mapped = av.map_values(|a: (Seq<char>, Seq<char>)| (archive_path(a.0), a.1));
    let mut j: usize = 0;
    while j < archives.len()
        invariant
            0 <= j <= archives@.len(),
            out@.len() == head.len() + j,
            av == archive_views(archives@),
            mapped == av.map_values(|a: (Seq<char>, Seq<char>)| (archive_path(a.0), a.1)),
            archive_views(out@) == head + mapped.take(j as int),
        decreases archives@.len() - j,
    {
        let a = ArchiveChars {
            name: archive_path_chars(&archives[j].name),
            text: copy_chars(&archives[j].text),
        };
        proof {
            assert(mapped[j as int] == (archive_path(archives@[j as int].name@), archives@[
                j as int
            ].text@));
        }
        let ghost before = out@;
        out.push(a);
        j = j + 1;
        proof {
            assert forall|k: int| 0 <= k < out@.len() - 1 implies #[trigger] archive_views(out@)[k]
                == archive_views(before)[k] by {
                assert(out@[k] == before[k]);
            }
            assert(archive_views(out@) =~= head + mapped.take(j as int));
        }
    }
    proof {
        assert(mapped.take(j as int) =~= mapped);
        assert(archive_views(out@) =~= want);
    }
    out
}

fn rule5_exec(
    main: &Vec<Section>,
    changelog: &[char],
    archives: &Vec<ArchiveChars>,
    docs: &Vec<ArchiveChars>,
    out: &mut Vec<Vec<char>>,
)
    requires
        section_views(main@) == sections_of(changelog@),
    ensures
        views(final(out)@) == views(old(out)@) + rule5(
            changelog@,
            archive_views(archives@),
            archive_views(docs@),
        ),
{
    let table = slug_table(main, changelog, archives);
    let ds = all_docs_exec(changelog, archives, docs);
    let ghost dv = archive_views(ds@);
    let ghost av = archive_views(archives@);
    let ghost start = views(out@);
    let mut i: usize = 0;
    while i < ds.len()
        invariant
            0 <= i <= ds@.len(),
            dv == archive_views(ds@),
            av == archive_views(archives@),
            table_ok(table, changelog@, av),
            views(out@) == start + rule5_over(changelog@, av, dv.take(i as int)),
        decreases ds@.len() - i,
    {
        proof {
            assert(dv.take(i + 1).drop_last() =~= dv.take(i as int));
            assert(dv.take(i + 1).last() == (ds@[i as int].name@, ds@[i as int].text@));
        }
        let ghost before = views(out@);
        rule5_doc_exec(&table, &ds[i].name, &ds[i].text, out, Ghost(changelog@), Ghost(av));
        i = i + 1;
        proof {
            assert(views(out@) =~= start + rule5_over(changelog@, av, dv.take(i as int)));
        }
    }
    proof {
        assert(dv.take(i as int) =~= dv);
    }
}

// ---------------------------------------------------------------------
// Rule 6: the release is dated; new sections open with Highlights
// ---------------------------------------------------------------------

/// What `format!("{:?}", s)` writes for a string: the text quoted, with
/// `Debug`'s escapes.
pub uninterp spec fn debug_quoted(s: Seq<char>) -> Seq<char>;

/// `<str as Debug>::fmt`, claimed to write `debug_quoted` of the text and
/// nothing more.
#[verifier::external_body]
fn debug_quoted_of(s: &[char]) -> (r: Vec<char>)
    ensures
        r@ == debug_quoted(s@),
{
    let text: String = s.iter().collect();
    format!("{:?}", text).chars().collect()
}

/// The first section for version `v`.
pub open spec fn first_for(secs: Seq<SectionView>, v: Version) -> Option<SectionView>
    decreases secs.len(),
{
    if secs.len() == 0 {
        None
    } else {
        match first_for(secs.drop_last(), v) {
            Some(s) => Some(s),
            None => if secs.last().version == Some(v) {
                Some(secs.last())
            } else {
                None
            },
        }
    }
}

pub open spec fn rule6_release(main: Seq<SectionView>, wv: Version) -> Seq<Seq<char>> {
    match first_for(main, wv) {
        None => seq![
            "rule 6: no section for the workspace version "@ + version_text(wv)
                + " in CHANGELOG.md"@,
        ],
        Some(s) => if !s.dated {
            seq!["rule 6: the section for "@ + s.label + " has no date"@]
        } else {
            Seq::empty()
        },
    }
}

/// `{:?}` of an optional string.
pub open spec fn debug_option(o: Option<Seq<char>>) -> Seq<char> {
    match o {
        None => "None"@,
        Some(h) => "Some("@ + debug_quoted(h) + ")"@,
    }
}

pub open spec fn rule6_highlights(main: Seq<SectionView>) -> Seq<Seq<char>>
    decreases main.len(),
{
    if main.len() == 0 {
        Seq::empty()
    } else {
        let s = main.last();
        rule6_highlights(main.drop_last()) + match s.version {
            Some(v) => if version_ge(v, highlights_from()) && s.dated && s.first_h3 != Some(
                "### Highlights"@,
            ) {
                seq![
                    "rule 6: the section for "@ + s.label
                        + " must open with `### Highlights` (its first ### is "@ + debug_option(
                        s.first_h3,
                    ) + ")"@,
                ]
            } else {
                Seq::empty()
            },
            None => Seq::empty(),
        }
    }
}

fn rule6_exec(main: &Vec<Section>, wv: Version, out: &mut Vec<Vec<char>>)
    ensures
        views(final(out)@) == views(old(out)@) + rule6_release(section_views(main@), wv)
            + rule6_highlights(section_views(main@)),
{
    let ghost sv = section_views(main@);
    let ghost start = views(out@);
    let mut found: Option<usize> = None;
    let mut i: usize = 0;
    while i < main.len()
        invariant
            0 <= i <= main@.len(),
            sv == section_views(main@),
            match found {
                Some(k) => k < main@.len() && first_for(sv.take(i as int), wv) == Some(sv[k as int]),
                None => first_for(sv.take(i as int), wv) is None,
            },
        decreases main@.len() - i,
    {
        proof {
            assert(sv.take(i + 1).drop_last() =~= sv.take(i as int));
            assert(sv.take(i + 1).last() == sv[i as int]);
        }
        if found.is_none() {
            if let Some(v) = main[i].version {
                if version_eq_exec(v, wv) {
                    found = Some(i);
                }
            }
        }
        i = i + 1;
    }
    proof {
        assert(sv.take(i as int) =~= sv);
    }
    match found {
        None => {
            let mut m: Vec<char> = Vec::new();
            push_str_chars(&mut m, "rule 6: no section for the workspace version ");
            let vt = version_chars(wv);
            push_all(&mut m, &vt);
            push_str_chars(&mut m, " in CHANGELOG.md");
            out.push(m);
            proof {
                assert(views(out@) =~= start + rule6_release(sv, wv));
            }
        },
        Some(k) => {
            if !main[k].dated {
                let mut m: Vec<char> = Vec::new();
                push_str_chars(&mut m, "rule 6: the section for ");
                push_all(&mut m, &main[k].label);
                push_str_chars(&mut m, " has no date");
                out.push(m);
            }
            proof {
                assert(sv[k as int] == main@[k as int]@);
                assert(views(out@) =~= start + rule6_release(sv, wv));
            }
        },
    }
    let ghost mid = views(out@);
    let highlights: Vec<char> = vec![
        '#',
        '#',
        '#',
        ' ',
        'H',
        'i',
        'g',
        'h',
        'l',
        'i',
        'g',
        'h',
        't',
        's',
    ];
    proof {
        assert(highlights@ =~= "### Highlights"@) by {
            reveal_strlit("### Highlights");
        }
    }
    let mut j: usize = 0;
    while j < main.len()
        invariant
            0 <= j <= main@.len(),
            sv == section_views(main@),
            highlights@ == "### Highlights"@,
            views(out@) == mid + rule6_highlights(sv.take(j as int)),
        decreases main@.len() - j,
    {
        proof {
            assert(sv.take(j + 1).drop_last() =~= sv.take(j as int));
            assert(sv.take(j + 1).last() == main@[j as int]@);
        }
        let ghost before = views(out@);
        let s = &main[j];
        if let Some(v) = s.version {
            let ge = v.0 > 0 || (v.0 == 0 && (v.1 > 41 || (v.1 == 41 && v.2 >= 0)));
            let opens = match &s.first_h3 {
                Some(h) => eq_chars(h, highlights.as_slice()),
                None => false,
            };
            proof {
                assert(opens == (opt_view(s.first_h3) == Some("### Highlights"@)));
            }
            let ghost expected = "rule 6: the section for "@ + s.label@
                + " must open with `### Highlights` (its first ### is "@ + debug_option(
                opt_view(s.first_h3),
            ) + ")"@;
            if ge && s.dated && !opens {
                let mut m: Vec<char> = Vec::new();
                push_str_chars(&mut m, "rule 6: the section for ");
                push_all(&mut m, &s.label);
                push_str_chars(&mut m, " must open with `### Highlights` (its first ### is ");
                match &s.first_h3 {
                    None => push_str_chars(&mut m, "None"),
                    Some(h) => {
                        push_str_chars(&mut m, "Some(");
                        let d = debug_quoted_of(h);
                        push_all(&mut m, &d);
                        push_str_chars(&mut m, ")");
                    },
                }
                push_str_chars(&mut m, ")");
                proof {
                    assert(m@ =~= expected);
                }
                out.push(m);
                proof {
                    assert(views(out@) =~= before.push(m@));
                    assert(rule6_highlights(sv.take(j + 1)) == rule6_highlights(sv.take(j as int))
                        + seq![expected]);
                }
            } else {
                proof {
                    assert(rule6_highlights(sv.take(j + 1)) =~= rule6_highlights(sv.take(j as int)));
                }
            }
        } else {
            proof {
                assert(rule6_highlights(sv.take(j + 1)) =~= rule6_highlights(sv.take(j as int)));
            }
        }
        j = j + 1;
        proof {
            assert(views(out@) =~= mid + rule6_highlights(sv.take(j as int)));
        }
    }
    proof {
        assert(sv.take(j as int) =~= sv);
    }
}

// ---------------------------------------------------------------------
// All rules
// ---------------------------------------------------------------------

/// The texts the rules read.
pub struct Input {
    /// The text of `CHANGELOG.md`.
    pub changelog: String,
    /// `(file name, text)` of each `changelog/*.md`.
    pub archives: Vec<(String, String)>,
    /// The workspace package version.
    pub workspace_version: Version,
    /// The repository-relative paths, among those `CHANGELOG.md` links to,
    /// that exist.
    pub existing: Vec<String>,
    /// `(repository-relative path, text)` of every other markdown file.
    pub docs: Vec<(String, String)>,
}

/// Every rule breach, each a sentence saying which rule and where: rule 1
/// for each version in ascending order, then rules 2 to 6 in the order of
/// the files and sections they concern.
pub open spec fn violations_of(
    changelog: Seq<char>,
    archives: Seq<(Seq<char>, Seq<char>)>,
    wv: Version,
    existing: Seq<Seq<char>>,
    docs: Seq<(Seq<char>, Seq<char>)>,
) -> Seq<Seq<char>> {
    let main = sections_of(changelog);
    rule1(occurrences(changelog, archives)) + rule2(main, series(wv)) + rule3(archives) + rule4(
        changelog,
        archives,
        existing,
    ) + rule5(changelog, archives, docs) + rule6_release(main, wv) + rule6_highlights(main)
}

fn pairs_chars(v: &Vec<(String, String)>) -> (r: Vec<ArchiveChars>)
    ensures
        archive_views(r@) == pair_views(v@),
{
    let mut out: Vec<ArchiveChars> = Vec::new();
    let mut i: usize = 0;
    while i < v.len()
        invariant
            0 <= i <= v@.len(),
            out@.len() == i,
            archive_views(out@) == pair_views(v@).take(i as int),
        decreases v@.len() - i,
    {
        let a = ArchiveChars { name: chars_of(v[i].0.as_str()), text: chars_of(v[i].1.as_str()) };
        let ghost before = out@;
        out.push(a);
        i = i + 1;
        proof {
            assert forall|k: int| 0 <= k < i - 1 implies #[trigger] archive_views(out@)[k]
                == archive_views(before)[k] by {
                assert(out@[k] == before[k]);
            }
            assert(archive_views(out@) =~= pair_views(v@).take(i as int));
        }
    }
    proof {
        assert(pair_views(v@).take(i as int) =~= pair_views(v@));
    }
    out
}

fn strings_chars(v: &Vec<String>) -> (r: Vec<Vec<char>>)
    ensures
        views(r@) == string_views(v@),
{
    let mut out: Vec<Vec<char>> = Vec::new();
    let mut i: usize = 0;
    while i < v.len()
        invariant
            0 <= i <= v@.len(),
            out@.len() == i,
            views(out@) == string_views(v@).take(i as int),
        decreases v@.len() - i,
    {
        let c = chars_of(v[i].as_str());
        let ghost before = out@;
        out.push(c);
        i = i + 1;
        proof {
            assert forall|k: int| 0 <= k < i - 1 implies #[trigger] views(out@)[k] == views(before)[k] by {
                assert(out@[k] == before[k]);
            }
            assert(views(out@) =~= string_views(v@).take(i as int));
        }
    }
    proof {
        assert(string_views(v@).take(i as int) =~= string_views(v@));
    }
    out
}

/// Every rule breach, each a sentence saying which rule and where.
pub fn violations(input: &Input) -> (r: Vec<String>)
    ensures
        string_views(r@) == violations_of(
            input.changelog@,
            pair_views(input.archives@),
            input.workspace_version,
            string_views(input.existing@),
            pair_views(input.docs@),
        ),
{
    let changelog = chars_of(input.changelog.as_str());
    let archives = pairs_chars(&input.archives);
    let docs = pairs_chars(&input.docs);
    let existing = strings_chars(&input.existing);
    let main = sections_chars(&changelog);
    let mut out: Vec<Vec<char>> = Vec::new();
    let occ = occurrences_exec(&changelog, &main, &archives);
    rule1_exec(&occ, &mut out);
    rule2_exec(&main, series_of(input.workspace_version), &mut out);
    rule3_exec(&archives, &mut out);
    rule4_exec(&changelog, &archives, &existing, &mut out);
    rule5_exec(&main, &changelog, &archives, &docs, &mut out);
    rule6_exec(&main, input.workspace_version, &mut out);
    proof {
        assert(views(out@) =~= violations_of(
            input.changelog@,
            pair_views(input.archives@),
            input.workspace_version,
            string_views(input.existing@),
            pair_views(input.docs@),
        ));
    }
    strings_of(&out)
}

/// The paths that the relative links of `CHANGELOG.md` resolve to, in
/// order: the paths whose existence rule 4 asks about.
pub fn changelog_link_paths(changelog: &str) -> (r: Vec<String>)
    ensures
        string_views(r@) == changelog_paths(link_targets_of(changelog@)),
{
    let cs = chars_of(changelog);
    let paths = changelog_paths_exec(&cs);
    strings_of(&paths)
}

/// The messages that start with `rule`, in order.
pub open spec fn with_prefix(v: Seq<Seq<char>>, rule: Seq<char>) -> Seq<Seq<char>>
    decreases v.len(),
{
    if v.len() == 0 {
        Seq::empty()
    } else {
        with_prefix(v.drop_last(), rule) + if starts_with(v.last(), rule) {
            seq![v.last()]
        } else {
            Seq::empty()
        }
    }
}

/// The messages of one rule (those that start with `rule`).
pub fn only(v: Vec<String>, rule: &str) -> (r: Vec<String>)
    ensures
        string_views(r@) == with_prefix(string_views(v@), rule@),
{
    let p = chars_of(rule);
    let mut out: Vec<String> = Vec::new();
    let ghost sv = string_views(v@);
    let mut i: usize = 0;
    while i < v.len()
        invariant
            0 <= i <= v@.len(),
            sv == string_views(v@),
            p@ == rule@,
            out@.len() <= i,
            string_views(out@) == with_prefix(sv.take(i as int), rule@),
        decreases v@.len() - i,
    {
        proof {
            assert(sv.take(i + 1).drop_last() =~= sv.take(i as int));
            assert(sv.take(i + 1).last() == v@[i as int]@);
        }
        let m = chars_of(v[i].as_str());
        let ghost before = out@;
        if starts_with_chars(&m, &p) {
            let s = string_of(&m);
            out.push(s);
            proof {
                assert forall|k: int| 0 <= k < before.len() implies #[trigger] string_views(out@)[k]
                    == string_views(before)[k] by {
                    assert(out@[k] == before[k]);
                }
                assert(string_views(out@) =~= string_views(before).push(m@));
            }
        }
        i = i + 1;
        proof {
            assert(string_views(out@) =~= with_prefix(sv.take(i as int), rule@));
        }
    }
    proof {
        assert(sv.take(i as int) =~= sv);
    }
    out
}

/// The repository root, two levels above the crate's manifest directory
/// (`Path::join` with `../..`).
pub open spec fn repo_root_of(manifest_dir: Seq<char>) -> Seq<char> {
    if manifest_dir.len() == 0 || manifest_dir.last() == '/' {
        manifest_dir + "../.."@
    } else {
        manifest_dir + "/../.."@
    }
}

/// The repository root, two levels above `manifest_dir`.
pub fn repo_root(manifest_dir: &str) -> (r: String)
    ensures
        r@ == repo_root_of(manifest_dir@),
{
    let mut out = chars_of(manifest_dir);
    if out.len() == 0 || out[out.len() - 1] == '/' {
        push_str_chars(&mut out, "../..");
    } else {
        push_str_chars(&mut out, "/../..");
    }
    string_of(&out)
}

/// The workspace version of a workspace `Cargo.toml`: the first quoted
/// value of the first line under `[workspace.package]` whose trimmed text
/// starts with `version`.
pub open spec fn workspace_version_in(toml: Seq<char>) -> Option<Version> {
    match find(toml, "[workspace.package]"@) {
        None => None,
        Some(at) => {
            let ls = lines(toml.skip(at));
            match first_version_line(ls) {
                None => None,
                Some(line) => {
                    let parts = split(line, '"');
                    if parts.len() > 1 {
                        version_of(parts[1])
                    } else {
                        None
                    }
                },
            }
        },
    }
}

/// The first line whose trimmed text starts with `version`.
pub open spec fn first_version_line(ls: Seq<Seq<char>>) -> Option<Seq<char>>
    decreases ls.len(),
{
    if ls.len() == 0 {
        None
    } else if starts_with(trim_start(ls[0]), "version"@) {
        Some(ls[0])
    } else {
        first_version_line(ls.skip(1))
    }
}

/// The workspace package version declared in a workspace `Cargo.toml`.
pub fn workspace_version_of(toml: &str) -> (r: Option<Version>)
    ensures
        r == workspace_version_in(toml@),
{
    let cs = chars_of(toml);
    let marker = chars_of("[workspace.package]");
    let at = match find_chars(&cs, &marker) {
        None => return None,
        Some(at) => at,
    };
    proof {
        lemma_find_from(cs@, marker@, 0);
    }
    let after = slice_chars(&cs, at, cs.len());
    assert(after@ =~= cs@.skip(at as int));
    let ls = lines_of(&after);
    let key = chars_of("version");
    let ghost lv = views(ls@);
    let mut i: usize = 0;
    proof {
        assert(lv.skip(0) =~= lv);
    }
    while i < ls.len()
        invariant
            0 <= i <= ls@.len(),
            lv == views(ls@),
            lv == lines(toml@.skip(at as int)),
            find(toml@, "[workspace.package]"@) == Some(at as int),
            key@ == "version"@,
            first_version_line(lv) == first_version_line(lv.skip(i as int)),
        decreases ls@.len() - i,
    {
        let t = trim_start_of(&ls[i]);
        proof {
            assert(lv.skip(i as int)[0] == ls@[i as int]@);
            assert(lv.skip(i as int).skip(1) =~= lv.skip(i + 1));
        }
        if starts_with_chars(&t, &key) {
            let parts = split_at_char(&ls[i], '"');
            if parts.len() > 1 {
                proof {
                    assert(views(parts@)[1] == parts@[1]@);
                }
                return parse_version_chars(&parts[1]);
            }
            return None;
        }
        i = i + 1;
    }
    proof {
        assert(lv.skip(i as int) =~= Seq::<Seq<char>>::empty());
    }
    None
}

/// The repository as read from disk: the changelog files, the other
/// markdown files and the workspace version.
pub struct Real {
    pub changelog: String,
    pub archives: Vec<(String, String)>,
    pub docs: Vec<(String, String)>,
    pub version: Version,
}

fn clone_pairs(v: &Vec<(String, String)>) -> (r: Vec<(String, String)>)
    ensures
        pair_views(r@) == pair_views(v@),
{
    let mut out: Vec<(String, String)> = Vec::new();
    let mut i: usize = 0;
    while i < v.len()
        invariant
            0 <= i <= v@.len(),
            out@.len() == i,
            pair_views(out@) == pair_views(v@).take(i as int),
        decreases v@.len() - i,
    {
        let a = v[i].0.clone();
        let b = v[i].1.clone();
        let ghost before = out@;
        out.push((a, b));
        i = i + 1;
        proof {
            assert forall|k: int| 0 <= k < i - 1 implies #[trigger] pair_views(out@)[k]
                == pair_views(before)[k] by {
                assert(out@[k] == before[k]);
            }
            assert(pair_views(out@) =~= pair_views(v@).take(i as int));
        }
    }
    proof {
        assert(pair_views(v@).take(i as int) =~= pair_views(v@));
    }
    out
}

fn clone_strings(v: &Vec<String>) -> (r: Vec<String>)
    ensures
        string_views(r@) == string_views(v@),
{
    let mut out: Vec<String> = Vec::new();
    let mut i: usize = 0;
    while i < v.len()
        invariant
            0 <= i <= v@.len(),
            out@.len() == i,
            string_views(out@) == string_views(v@).take(i as int),
        decreases v@.len() - i,
    {
        let a = v[i].clone();
        let ghost before = out@;
        out.push(a);
        i = i + 1;
        proof {
            assert forall|k: int| 0 <= k < i - 1 implies #[trigger] string_views(out@)[k]
                == string_views(before)[k] by {
                assert(out@[k] == before[k]);
            }
            assert(string_views(out@) =~= string_views(v@).take(i as int));
        }
    }
    proof {
        assert(string_views(v@).take(i as int) =~= string_views(v@));
    }
    out
}

/// The rules run over the repository as read, with `existing` the linked
/// paths found on disk.
pub fn run(r: &Real, existing: &Vec<String>) -> (out: Vec<String>)
    ensures
        string_views(out@) == violations_of(
            r.changelog@,
            pair_views(r.archives@),
            r.version,
            string_views(existing@),
            pair_views(r.docs@),
        ),
{
    let input = Input {
        changelog: r.changelog.clone(),
        archives: clone_pairs(&r.archives),
        workspace_version: r.version,
        existing: clone_strings(existing),
        docs: clone_pairs(&r.docs),
    };
    violations(&input)
}

// ---------------------------------------------------------------------
// Selecting one rule's messages
// ---------------------------------------------------------------------

/// Every message of `msgs` starts with `p`.
pub open spec fn all_start(msgs: Seq<Seq<char>>, p: Seq<char>) -> bool {
    forall|k: int| 0 <= k < msgs.len() ==> starts_with(#[trigger] msgs[k], p)
}

proof fn lemma_with_prefix_concat(a: Seq<Seq<char>>, b: Seq<Seq<char>>, p: Seq<char>)
    ensures
        with_prefix(a + b, p) == with_prefix(a, p) + with_prefix(b, p),
    decreases b.len(),
{
    if b.len() == 0 {
        assert(a + b =~= a);
        assert(with_prefix(a, p) + with_prefix(b, p) =~= with_prefix(a, p));
    } else {
        lemma_with_prefix_concat(a, b.drop_last(), p);
        assert((a + b).drop_last() =~= a + b.drop_last());
        assert((a + b).last() == b.last());
        assert(with_prefix(a + b, p) =~= with_prefix(a, p) + with_prefix(b, p));
    }
}

/// Messages that all start with `q` are all kept by a prefix of `q`, and
/// all dropped by a text that differs from `q` within both.
proof fn lemma_with_prefix_uniform(msgs: Seq<Seq<char>>, q: Seq<char>, p: Seq<char>)
    requires
        all_start(msgs, q),
    ensures
        starts_with(q, p) ==> with_prefix(msgs, p) == msgs,
        (exists|i: int| 0 <= i < p.len() && i < q.len() && p[i] != q[i]) ==> with_prefix(msgs, p)
            == Seq::<Seq<char>>::empty(),
    decreases msgs.len(),
{
    if msgs.len() > 0 {
        let m = msgs.last();
        assert(all_start(msgs.drop_last(), q)) by {
            assert forall|k: int| 0 <= k < msgs.drop_last().len() implies starts_with(
                #[trigger] msgs.drop_last()[k],
                q,
            ) by {
                assert(msgs.drop_last()[k] == msgs[k]);
            }
        }
        lemma_with_prefix_uniform(msgs.drop_last(), q, p);
        assert(starts_with(m, q)) by {
            assert(msgs[msgs.len() - 1] == m);
        }
        if starts_with(q, p) {
            assert(m.subrange(0, p.len() as int) =~= q.subrange(0, p.len() as int)) by {
                assert forall|i: int| 0 <= i < p.len() implies m.subrange(0, p.len() as int)[i]
                    == q.subrange(0, p.len() as int)[i] by {
                    assert(m.subrange(0, q.len() as int)[i] == q[i]);
                }
            }
            assert(starts_with(m, p));
            assert(msgs.drop_last().push(m) =~= msgs);
        }
        if exists|i: int| 0 <= i < p.len() && i < q.len() && p[i] != q[i] {
            let i = choose|i: int| 0 <= i < p.len() && i < q.len() && p[i] != q[i];
            if starts_with(m, p) {
                assert(m.subrange(0, p.len() as int)[i] == p[i]);
                assert(m.subrange(0, q.len() as int)[i] == q[i]);
                assert(false);
            }
        }
    }
}

/// A literal message head: `m` starts with `lit`, which starts with `q`.
proof fn lemma_head(lit: Seq<char>, rest: Seq<char>, q: Seq<char>)
    requires
        starts_with(lit, q),
    ensures
        starts_with(lit + rest, q),
{
    assert((lit + rest).subrange(0, q.len() as int) =~= lit.subrange(0, q.len() as int));
}

proof fn lemma_rule1_starts(vs: Seq<Version>, occ: Seq<(Version, Seq<char>)>)
    ensures
        all_start(rule1_over(vs, occ), "rule 1:"@),
    decreases vs.len(),
{
    if vs.len() > 0 {
        lemma_rule1_starts(vs.drop_last(), occ);
        let v = vs.last();
        let f = files_of(occ, v);
        assert(starts_with("rule 1: version "@, "rule 1:"@)) by {
            reveal_strlit("rule 1: version ");
            reveal_strlit("rule 1:");
            assert("rule 1: version "@.subrange(0, "rule 1:"@.len() as int) =~= "rule 1:"@);
        }
        let m = rule1_message(v, f);
        assert(m =~= "rule 1: version "@ + (version_text(v) + " appears "@ + decimal(f.len())
            + " times ("@ + join_comma(f) + ")"@));
        lemma_head("rule 1: version "@, version_text(v) + " appears "@ + decimal(f.len())
            + " times ("@ + join_comma(f) + ")"@, "rule 1:"@);
    }
}

proof fn lemma_rule2_starts(main: Seq<SectionView>, current: (u32, u32))
    ensures
        all_start(rule2(main, current), "rule 2:"@),
    decreases main.len(),
{
    if main.len() > 0 {
        lemma_rule2_starts(main.drop_last(), current);
        assert(starts_with("rule 2: CHANGELOG.md holds "@, "rule 2:"@)) by {
            reveal_strlit("rule 2: CHANGELOG.md holds ");
            reveal_strlit("rule 2:");
            assert("rule 2: CHANGELOG.md holds "@.subrange(0, "rule 2:"@.len() as int) =~= "rule 2:"@);
        }
        if let Some(v) = main.last().version {
            let m = rule2_message(v, current);
            let rest = version_text(v) + ", which is not in the current series ("@ + stem(current)
                + "); it belongs in changelog/"@ + stem(series(v)) + ".md"@;
            assert(m =~= "rule 2: CHANGELOG.md holds "@ + rest);
            lemma_head("rule 2: CHANGELOG.md holds "@, rest, "rule 2:"@);
        }
    }
}

proof fn lemma_rule3_sections_start(name: Seq<char>, secs: Seq<SectionView>)
    ensures
        all_start(rule3_sections(name, secs), "rule 3:"@),
    decreases secs.len(),
{
    if secs.len() > 0 {
        lemma_rule3_sections_start(name, secs.drop_last());
        assert(starts_with("rule 3: changelog/"@, "rule 3:"@)) by {
            reveal_strlit("rule 3: changelog/");
            reveal_strlit("rule 3:");
            assert("rule 3: changelog/"@.subrange(0, "rule 3:"@.len() as int) =~= "rule 3:"@);
        }
        let s = secs.last();
        lemma_head("rule 3: changelog/"@, name + " has an [Unreleased] section"@, "rule 3:"@);
        assert("rule 3: changelog/"@ + name + " has an [Unreleased] section"@ =~= "rule 3: changelog/"@
            + (name + " has an [Unreleased] section"@));
        if let Some(v) = s.version {
            let rest = name + " holds "@ + version_text(v) + ", which belongs to "@ + stem(series(v));
            lemma_head("rule 3: changelog/"@, rest, "rule 3:"@);
            assert("rule 3: changelog/"@ + name + " holds "@ + version_text(v) + ", which belongs to "@
                + stem(series(v)) =~= "rule 3: changelog/"@ + rest);
        }
        let prev = rule3_sections(name, secs.drop_last());
        let add = rule3_section(name, s);
        assert(rule3_sections(name, secs) == prev + add);
        assert forall|k: int| 0 <= k < (prev + add).len() implies starts_with(
            #[trigger] (prev + add)[k],
            "rule 3:"@,
        ) by {
            if k >= prev.len() {
                assert((prev + add)[k] == add[k - prev.len()]);
            }
        }
    }
}

proof fn lemma_rule3_starts(archives: Seq<(Seq<char>, Seq<char>)>)
    ensures
        all_start(rule3(archives), "rule 3:"@),
    decreases archives.len(),
{
    if archives.len() > 0 {
        lemma_rule3_starts(archives.drop_last());
        let prev = rule3(archives.drop_last());
        let add = rule3_sections(archives.last().0, sections_of(archives.last().1));
        lemma_rule3_sections_start(archives.last().0, sections_of(archives.last().1));
        assert forall|k: int| 0 <= k < (prev + add).len() implies starts_with(
            #[trigger] (prev + add)[k],
            "rule 3:"@,
        ) by {
            if k >= prev.len() {
                assert((prev + add)[k] == add[k - prev.len()]);
            }
        }
    }
}

proof fn lemma_rule4_starts(
    changelog: Seq<char>,
    archives: Seq<(Seq<char>, Seq<char>)>,
    existing: Seq<Seq<char>>,
)
    ensures
        all_start(rule4(changelog, archives, existing), "rule 4:"@),
{
    let paths = changelog_paths(link_targets_of(changelog));
    lemma_rule4_unlinked_starts(archives, paths);
    lemma_rule4_dead_starts(paths, existing);
    let a = rule4_unlinked(archives, paths);
    let b = rule4_dead(paths, existing);
    assert forall|k: int| 0 <= k < (a + b).len() implies starts_with(#[trigger] (a + b)[k], "rule 4:"@) by {
        if k >= a.len() {
            assert((a + b)[k] == b[k - a.len()]);
        }
    }
}

proof fn lemma_rule4_unlinked_starts(archives: Seq<(Seq<char>, Seq<char>)>, paths: Seq<Seq<char>>)
    ensures
        all_start(rule4_unlinked(archives, paths), "rule 4:"@),
    decreases archives.len(),
{
    if archives.len() > 0 {
        lemma_rule4_unlinked_starts(archives.drop_last(), paths);
        assert(starts_with("rule 4: CHANGELOG.md does not link changelog/"@, "rule 4:"@)) by {
            reveal_strlit("rule 4: CHANGELOG.md does not link changelog/");
            reveal_strlit("rule 4:");
            assert("rule 4: CHANGELOG.md does not link changelog/"@.subrange(0, "rule 4:"@.len() as int) =~= "rule 4:"@);
        }
        lemma_head("rule 4: CHANGELOG.md does not link changelog/"@, archives.last().0, "rule 4:"@);
    }
}

proof fn lemma_rule4_dead_starts(paths: Seq<Seq<char>>, existing: Seq<Seq<char>>)
    ensures
        all_start(rule4_dead(paths, existing), "rule 4:"@),
    decreases paths.len(),
{
    if paths.len() > 0 {
        lemma_rule4_dead_starts(paths.drop_last(), existing);
        assert(starts_with("rule 4: CHANGELOG.md links "@, "rule 4:"@)) by {
            reveal_strlit("rule 4: CHANGELOG.md links ");
            reveal_strlit("rule 4:");
            assert("rule 4: CHANGELOG.md links "@.subrange(0, "rule 4:"@.len() as int) =~= "rule 4:"@);
        }
        let p = paths.last();
        lemma_head("rule 4: CHANGELOG.md links "@, p + ", which does not exist"@, "rule 4:"@);
        assert("rule 4: CHANGELOG.md links "@ + p + ", which does not exist"@ =~= "rule 4: CHANGELOG.md links "@
            + (p + ", which does not exist"@));
    }
}

proof fn lemma_rule5_doc_starts(
    changelog: Seq<char>,
    archives: Seq<(Seq<char>, Seq<char>)>,
    from: Seq<char>,
    targets: Seq<Seq<char>>,
)
    ensures
        all_start(rule5_doc(changelog, archives, from, targets), "rule 5:"@),
    decreases targets.len(),
{
    if targets.len() > 0 {
        lemma_rule5_doc_starts(changelog, archives, from, targets.drop_last());
        assert(starts_with("rule 5: "@, "rule 5:"@)) by {
            reveal_strlit("rule 5: ");
            reveal_strlit("rule 5:");
            assert("rule 5: "@.subrange(0, "rule 5:"@.len() as int) =~= "rule 5:"@);
        }
        let prev = rule5_doc(changelog, archives, from, targets.drop_last());
        let add = rule5_link(changelog, archives, from, targets.last());
        if let Some(r) = resolved(from, targets.last()) {
            if let Some(frag) = r.1 {
                let rest = from + " links "@ + r.0 + "#"@ + frag
                    + ", but no such section is in that file (moved?)"@;
                lemma_head("rule 5: "@, rest, "rule 5:"@);
                assert(rule5_message(from, r.0, frag) =~= "rule 5: "@ + rest);
            }
        }
        assert forall|k: int| 0 <= k < (prev + add).len() implies starts_with(
            #[trigger] (prev + add)[k],
            "rule 5:"@,
        ) by {
            if k >= prev.len() {
                assert((prev + add)[k] == add[k - prev.len()]);
            }
        }
    }
}

proof fn lemma_rule5_over_starts(
    changelog: Seq<char>,
    archives: Seq<(Seq<char>, Seq<char>)>,
    ds: Seq<(Seq<char>, Seq<char>)>,
)
    ensures
        all_start(rule5_over(changelog, archives, ds), "rule 5:"@),
    decreases ds.len(),
{
    if ds.len() > 0 {
        lemma_rule5_over_starts(changelog, archives, ds.drop_last());
        lemma_rule5_doc_starts(changelog, archives, ds.last().0, link_targets_of(ds.last().1));
        let prev = rule5_over(changelog, archives, ds.drop_last());
        let add = rule5_doc(changelog, archives, ds.last().0, link_targets_of(ds.last().1));
        assert forall|k: int| 0 <= k < (prev + add).len() implies starts_with(
            #[trigger] (prev + add)[k],
            "rule 5:"@,
        ) by {
            if k >= prev.len() {
                assert((prev + add)[k] == add[k - prev.len()]);
            }
        }
    }
}

proof fn lemma_rule6_highlights_starts(main: Seq<SectionView>)
    ensures
        all_start(rule6_highlights(main), "rule 6:"@),
    decreases main.len(),
{
    if main.len() > 0 {
        lemma_rule6_highlights_starts(main.drop_last());
        assert(starts_with("rule 6: the section for "@, "rule 6:"@)) by {
            reveal_strlit("rule 6: the section for ");
            reveal_strlit("rule 6:");
            assert("rule 6: the section for "@.subrange(0, "rule 6:"@.len() as int) =~= "rule 6:"@);
        }
        let s = main.last();
        let rest = s.label + " must open with `### Highlights` (its first ### is "@ + debug_option(
            s.first_h3,
        ) + ")"@;
        lemma_head("rule 6: the section for "@, rest, "rule 6:"@);
        assert("rule 6: the section for "@ + s.label
            + " must open with `### Highlights` (its first ### is "@ + debug_option(s.first_h3)
            + ")"@ =~= "rule 6: the section for "@ + rest);
    }
}

proof fn lemma_rule6_release_starts(main: Seq<SectionView>, wv: Version)
    ensures
        all_start(rule6_release(main, wv), "rule 6:"@),
{
    assert(starts_with("rule 6: the section for "@, "rule 6:"@)) by {
        reveal_strlit("rule 6: the section for ");
        reveal_strlit("rule 6:");
        assert("rule 6: the section for "@.subrange(0, "rule 6:"@.len() as int) =~= "rule 6:"@);
    }
    assert(starts_with("rule 6: no section for the workspace version "@, "rule 6:"@)) by {
        reveal_strlit("rule 6: no section for the workspace version ");
        reveal_strlit("rule 6:");
        assert("rule 6: no section for the workspace version "@.subrange(0, "rule 6:"@.len() as int) =~= "rule 6:"@);
    }
    match first_for(main, wv) {
        None => {
            let rest = version_text(wv) + " in CHANGELOG.md"@;
            lemma_head("rule 6: no section for the workspace version "@, rest, "rule 6:"@);
            assert("rule 6: no section for the workspace version "@ + version_text(wv)
                + " in CHANGELOG.md"@ =~= "rule 6: no section for the workspace version "@ + rest);
        },
        Some(s) => {
            let rest = s.label + " has no date"@;
            lemma_head("rule 6: the section for "@, rest, "rule 6:"@);
            assert("rule 6: the section for "@ + s.label + " has no date"@ =~= "rule 6: the section for "@
                + rest);
        },
    }
}

/// The rule prefixes, and where each pair of them differs.
proof fn lemma_rule_prefixes()
    ensures
        forall|n: int, m: int|
            1 <= n <= 6 && 1 <= m <= 6 ==> #[trigger] rule_head(n).len() == 7 && #[trigger] rule_name(
                m,
            ).len() == 6 && (n == m ==> starts_with(rule_head(n), rule_name(m))) && (n != m ==> rule_name(
                m,
            )[5] != rule_head(n)[5]),
{
    reveal_strlit("rule 1:");
    reveal_strlit("rule 2:");
    reveal_strlit("rule 3:");
    reveal_strlit("rule 4:");
    reveal_strlit("rule 5:");
    reveal_strlit("rule 6:");
    reveal_strlit("rule 1");
    reveal_strlit("rule 2");
    reveal_strlit("rule 3");
    reveal_strlit("rule 4");
    reveal_strlit("rule 5");
    reveal_strlit("rule 6");
    assert forall|n: int, m: int|
        1 <= n <= 6 && 1 <= m <= 6 implies #[trigger] rule_head(n).len() == 7 && #[trigger] rule_name(
            m,
        ).len() == 6 && (n == m ==> starts_with(rule_head(n), rule_name(m))) && (n != m
            ==> rule_name(m)[5] != rule_head(n)[5]) by {
        if n == m {
            assert(rule_head(n).subrange(0, 6) =~= rule_name(m));
        }
    }
}

/// `rule <n>:`, the head of every message of rule `n`.
pub open spec fn rule_head(n: int) -> Seq<char> {
    if n == 1 {
        "rule 1:"@
    } else if n == 2 {
        "rule 2:"@
    } else if n == 3 {
        "rule 3:"@
    } else if n == 4 {
        "rule 4:"@
    } else if n == 5 {
        "rule 5:"@
    } else {
        "rule 6:"@
    }
}

/// `rule <n>`, what a test filters one rule's messages by.
pub open spec fn rule_name(n: int) -> Seq<char> {
    if n == 1 {
        "rule 1"@
    } else if n == 2 {
        "rule 2"@
    } else if n == 3 {
        "rule 3"@
    } else if n == 4 {
        "rule 4"@
    } else if n == 5 {
        "rule 5"@
    } else {
        "rule 6"@
    }
}

/// The messages of rule `n` among the violations, in order.
pub open spec fn rule_messages(
    n: int,
    changelog: Seq<char>,
    archives: Seq<(Seq<char>, Seq<char>)>,
    wv: Version,
    existing: Seq<Seq<char>>,
    docs: Seq<(Seq<char>, Seq<char>)>,
) -> Seq<Seq<char>> {
    let main = sections_of(changelog);
    if n == 1 {
        rule1(occurrences(changelog, archives))
    } else if n == 2 {
        rule2(main, series(wv))
    } else if n == 3 {
        rule3(archives)
    } else if n == 4 {
        rule4(changelog, archives, existing)
    } else if n == 5 {
        rule5(changelog, archives, docs)
    } else {
        rule6_release(main, wv) + rule6_highlights(main)
    }
}

/// Selecting the messages that start with `rule <n>` (what `only` does)
/// gives exactly the messages of rule `n`, in order: each rule's breaches
/// can be read apart from the others'.
pub proof fn lemma_only_selects_one_rule(
    n: int,
    changelog: Seq<char>,
    archives: Seq<(Seq<char>, Seq<char>)>,
    wv: Version,
    existing: Seq<Seq<char>>,
    docs: Seq<(Seq<char>, Seq<char>)>,
)
    requires
        1 <= n <= 6,
    ensures
        with_prefix(violations_of(changelog, archives, wv, existing, docs), rule_name(n))
            == rule_messages(n, changelog, archives, wv, existing, docs),
{
    let main = sections_of(changelog);
    let parts: Seq<Seq<Seq<char>>> = seq![
        rule1(occurrences(changelog, archives)),
        rule2(main, series(wv)),
        rule3(archives),
        rule4(changelog, archives, existing),
        rule5(changelog, archives, docs),
        rule6_release(main, wv) + rule6_highlights(main),
    ];
    lemma_rule1_starts(ascending_versions(occurrences(changelog, archives)), occurrences(changelog, archives));
    lemma_rule2_starts(main, series(wv));
    lemma_rule3_starts(archives);
    lemma_rule4_starts(changelog, archives, existing);
    lemma_rule5_over_starts(changelog, archives, all_docs(changelog, archives, docs));
    lemma_rule6_release_starts(main, wv);
    lemma_rule6_highlights_starts(main);
    let r6a = rule6_release(main, wv);
    let r6b = rule6_highlights(main);
    assert forall|k: int| 0 <= k < (r6a + r6b).len() implies starts_with(#[trigger] (r6a + r6b)[k], "rule 6:"@) by {
        if k >= r6a.len() {
            assert((r6a + r6b)[k] == r6b[k - r6a.len()]);
        } else {
            assert((r6a + r6b)[k] == r6a[k]);
        }
    }
    lemma_rule_prefixes();
    assert forall|i: int| 0 <= i < 6 implies all_start(#[trigger] parts[i], rule_head(i + 1)) by {}
    let p = rule_name(n);
    assert forall|i: int| 0 <= i < 6 implies #[trigger] with_prefix(parts[i], p) == if i + 1 == n {
        parts[i]
    } else {
        Seq::<Seq<char>>::empty()
    } by {
        lemma_with_prefix_uniform(parts[i], rule_head(i + 1), p);
        assert(rule_head(i + 1).len() == 7 && rule_name(n).len() == 6);
        if i + 1 != n {
            assert(p[5] != rule_head(i + 1)[5]);
        }
    }
    let all = violations_of(changelog, archives, wv, existing, docs);
    assert(all == parts[0] + parts[1] + parts[2] + parts[3] + rule5(changelog, archives, docs) + r6a
        + r6b);
    assert(all =~= parts[0] + parts[1] + parts[2] + parts[3] + parts[4] + parts[5]);
    lemma_with_prefix_concat(parts[0] + parts[1] + parts[2] + parts[3] + parts[4], parts[5], p);
    lemma_with_prefix_concat(parts[0] + parts[1] + parts[2] + parts[3], parts[4], p);
    lemma_with_prefix_concat(parts[0] + parts[1] + parts[2], parts[3], p);
    lemma_with_prefix_concat(parts[0] + parts[1], parts[2], p);
    lemma_with_prefix_concat(parts[0], parts[1], p);
    assert(with_prefix(parts[0], p) == if n == 1 { parts[0] } else { Seq::<Seq<char>>::empty() });
    assert(with_prefix(parts[1], p) == if n == 2 { parts[1] } else { Seq::<Seq<char>>::empty() });
    assert(with_prefix(parts[2], p) == if n == 3 { parts[2] } else { Seq::<Seq<char>>::empty() });
    assert(with_prefix(parts[3], p) == if n == 4 { parts[3] } else { Seq::<Seq<char>>::empty() });
    assert(with_prefix(parts[4], p) == if n == 5 { parts[4] } else { Seq::<Seq<char>>::empty() });
    assert(with_prefix(parts[5], p) == if n == 6 { parts[5] } else { Seq::<Seq<char>>::empty() });
    assert(with_prefix(all, p) =~= rule_messages(n, changelog, archives, wv, existing, docs));
}

} // verus!
