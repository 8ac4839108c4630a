//! The chain workspace members → the `DEC-007` command block of the
//! contributing guide → the `run:` lines of the CI workflow, read as text.
//!
//! A member is covered when some line of the block runs `-p <name>` at a
//! word boundary, is not a `--test <target>` line and is not commented
//! out. Each `-p <name>` obligation of the block, classified as `--lib`,
//! `--test` or bare, needs a `run:` line of the same shape in a job that is
//! not disabled by a literal `if: false`. Each target of the block's
//! `for t in …; do` loop needs its own `run:` line, and each integration
//! test file a line of the block that runs it.
use vstd::prelude::*;
use crate::text::{
    chars_of, contains, contains_chars, copy_of, ends_with, ends_with_chars, eq_chars, find,
    find_chars, is_ascii_alnum, is_ws, join_lines, join_lines_of, last_piece, last_piece_of,
    lemma_find_from, lines, lines_of, next_ws, lemma_next_ws, occurs_at, push_all,
    push_str_chars, slice_chars, starts_with, starts_with_chars, string_of, string_views,
    strings_of, trim, trim_end, trim_end_char, trim_end_char_of, trim_end_of, trim_of, trim_start,
    trim_start_of, views, words, words_of, is_whitespace, matches_at, text_lt, text_lt_exec,
    lemma_text_lt_asymmetric, lemma_text_lt_transitive, lemma_text_lt_total,
};

verus! {

broadcast use vstd::slice::group_slice_axioms;

// ---------------------------------------------------------------------
// Word boundaries
// ---------------------------------------------------------------------

/// A character that can continue a crate name: ASCII alphanumeric, `_`
/// or `-`.
pub open spec fn ident_char(c: char) -> bool {
    is_ascii_alnum(c) || c == '_' || c == '-'
}

/// `needle` occurs in `haystack` at `i` with no name character right
/// before or right after it.
pub open spec fn bounded_at(haystack: Seq<char>, needle: Seq<char>, i: int) -> bool {
    &&& occurs_at(haystack, needle, i)
    &&& (i == 0 || !ident_char(haystack[i - 1]))
    &&& (i + needle.len() >= haystack.len() || !ident_char(haystack[i + needle.len()]))
}

/// `needle` appears in `haystack` at a word boundary, not merely as part
/// of a longer name.
pub open spec fn at_word_boundary(haystack: Seq<char>, needle: Seq<char>) -> bool {
    exists|i: int| bounded_at(haystack, needle, i)
}

fn ident_char_exec(c: char) -> (r: bool)
    ensures
        r == ident_char(c),
{
    ('a' <= c && c <= 'z') || ('A' <= c && c <= 'Z') || ('0' <= c && c <= '9') || c == '_' || c
        == '-'
}

pub fn word_boundary_chars(haystack: &[char], needle: &[char]) -> (r: bool)
    ensures
        r == at_word_boundary(haystack@, needle@),
{
    if needle.len() > haystack.len() {
        proof {
            assert forall|i: int| !bounded_at(haystack@, needle@, i) by {}
        }
        return false;
    }
    let last: usize = haystack.len() - needle.len();
    let mut i: usize = 0;
    while i <= last
        invariant
            last + needle@.len() == haystack@.len(),
            forall|j: int| 0 <= j < i ==> !bounded_at(haystack@, needle@, j),
        decreases last + 1 - i,
    {
        if matches_at(haystack, needle, i) {
            let before_ok = i == 0 || !ident_char_exec(haystack[i - 1]);
            let after = i + needle.len();
            let after_ok = after >= haystack.len() || !ident_char_exec(haystack[after]);
            if before_ok && after_ok {
                proof {
                    assert(bounded_at(haystack@, needle@, i as int));
                }
                return true;
            }
        }
        if i == last {
            proof {
                assert forall|j: int| !bounded_at(haystack@, needle@, j) by {
                    if 0 <= j && j <= last {
                    } else if j > last {
                        assert(!occurs_at(haystack@, needle@, j));
                    }
                }
            }
            return false;
        }
        i = i + 1;
    }
    proof {
        assert forall|j: int| !bounded_at(haystack@, needle@, j) by {
            if j > last {
                assert(!occurs_at(haystack@, needle@, j));
            }
        }
    }
    false
}

/// True if `needle` appears in `haystack` at a word boundary: a boundary
/// character is anything that is not alphanumeric, `_` or `-`.
pub fn appears_at_word_boundary(haystack: &str, needle: &str) -> (r: bool)
    ensures
        r == at_word_boundary(haystack@, needle@),
{
    let h = chars_of(haystack);
    let n = chars_of(needle);
    word_boundary_chars(&h, &n)
}

// ---------------------------------------------------------------------
// Members covered by the block
// ---------------------------------------------------------------------

/// A line whose trimmed text starts with `#`.
pub open spec fn commented(line: Seq<char>) -> bool {
    starts_with(trim_start(line), seq!['#'])
}

/// `-p <name>`.
pub open spec fn p_flag(name: Seq<char>) -> Seq<char> {
    "-p "@ + name
}

/// A line that runs the crate's own library scope: `-p <name>` at a word
/// boundary, not a `--test <target>` line, not commented out.
pub open spec fn own_lib_line(line: Seq<char>, name: Seq<char>) -> bool {
    !commented(line) && at_word_boundary(line, p_flag(name)) && !contains(line, "--test "@)
}

/// Some line of `block` runs the crate's own library scope.
pub open spec fn covers_own_lib(block: Seq<char>, name: Seq<char>) -> bool {
    exists|k: int| 0 <= k < lines(block).len() && own_lib_line(#[trigger] lines(block)[k], name)
}

fn commented_exec(line: &[char]) -> (r: bool)
    ensures
        r == commented(line@),
{
    let t = trim_start_of(line);
    let hash: Vec<char> = vec!['#'];
    assert(hash@ =~= seq!['#']);
    starts_with_chars(&t, hash.as_slice())
}

fn p_flag_chars(name: &[char]) -> (r: Vec<char>)
    ensures
        r@ == p_flag(name@),
{
    let mut f: Vec<char> = Vec::new();
    push_str_chars(&mut f, "-p ");
    push_all(&mut f, name);
    f
}

pub fn covers_own_lib_chars(block: &[char], name: &[char]) -> (r: bool)
    ensures
        r == covers_own_lib(block@, name@),
{
    let ls = lines_of(block);
    let flag = p_flag_chars(name);
    let test_flag = chars_of("--test ");
    let ghost lv = views(ls@);
    let mut i: usize = 0;
    while i < ls.len()
        invariant
            0 <= i <= ls@.len(),
            lv == views(ls@),
            lv == lines(block@),
            flag@ == p_flag(name@),
            test_flag@ == "--test "@,
            forall|k: int| 0 <= k < i ==> !own_lib_line(#[trigger] lv[k], name@),
        decreases ls@.len() - i,
    {
        let line = &ls[i];
        proof {
            assert(lv[i as int] == line@);
        }
        if !commented_exec(line) && word_boundary_chars(line, &flag) && !contains_chars(
            line,
            &test_flag,
        ) {
            proof {
                assert(own_lib_line(lv[i as int], name@));
            }
            return true;
        }
        i = i + 1;
    }
    false
}

/// True if some line in `block` names `name` via `-p <name>` at a word
/// boundary, is not a `--test <target>` line, and is not commented out.
pub fn covers_own_lib_tests(block: &str, name: &str) -> (r: bool)
    ensures
        r == covers_own_lib(block@, name@),
{
    let b = chars_of(block);
    let n = chars_of(name);
    covers_own_lib_chars(&b, &n)
}

/// The crate name a `members` entry declares: the last path segment of a
/// quoted entry (`"crates/peisear-i18n",` gives `peisear-i18n`).
pub open spec fn member_name(line: Seq<char>) -> Option<Seq<char>> {
    let t = trim_end_char(trim(line), ',');
    if t.len() >= 1 && t[0] == '"' && t.skip(1).len() >= 1 && t.skip(1).last() == '"' {
        Some(last_piece(t.skip(1).drop_last(), '/'))
    } else {
        None
    }
}

pub open spec fn member_names(ls: Seq<Seq<char>>) -> Seq<Seq<char>>
    decreases ls.len(),
{
    if ls.len() == 0 {
        Seq::empty()
    } else {
        member_names(ls.drop_last()) + match member_name(ls.last()) {
            Some(n) => seq![n],
            None => Seq::empty(),
        }
    }
}

/// The crate names of the `members = [ … ]` array of a workspace
/// `Cargo.toml`, read as text; `None` when there is no such array or it
/// is not closed.
pub open spec fn workspace_members_in(source: Seq<char>) -> Option<Seq<Seq<char>>> {
    match find(source, "members = ["@) {
        None => None,
        Some(start) => {
            let after = source.skip(start + "members = ["@.len());
            match find(after, seq![']']) {
                None => None,
                Some(end) => Some(member_names(lines(after.take(end)))),
            }
        },
    }
}

fn member_name_exec(line: &[char]) -> (r: Option<Vec<char>>)
    ensures
        match r {
            Some(n) => member_name(line@) == Some(n@),
            None => member_name(line@) is None,
        },
{
    let a = trim_of(line);
    let t = trim_end_char_of(&a, ',');
    if t.len() >= 2 && t[0] == '"' && t[t.len() - 1] == '"' {
        let inner = slice_chars(&t, 1, t.len() - 1);
        proof {
            assert(inner@ =~= t@.skip(1).drop_last());
        }
        Some(last_piece_of(&inner, '/'))
    } else {
        None
    }
}

/// Every crate name declared in the `members` array of a workspace
/// `Cargo.toml`: the last path segment of each entry.
pub fn workspace_member_crate_names(source: &str) -> (r: Option<Vec<String>>)
    ensures
        match r {
            Some(v) => workspace_members_in(source@) == Some(string_views(v@)),
            None => workspace_members_in(source@) is None,
        },
{
    let s = chars_of(source);
    let marker = chars_of("members = [");
    let start = match find_chars(&s, &marker) {
        None => return None,
        Some(k) => k,
    };
    proof {
        lemma_find_from(s@, marker@, 0);
        assert(start + marker@.len() <= s@.len());
        assert(s@.len() == s.len());
    }
    let after = slice_chars(&s, start + marker.len(), s.len());
    assert(after@ =~= s@.skip(start + "members = ["@.len()));
    let close: Vec<char> = vec![']'];
    assert(close@ =~= seq![']']);
    let end = match find_chars(&after, close.as_slice()) {
        None => return None,
        Some(k) => k,
    };
    proof {
        lemma_find_from(after@, close@, 0);
    }
    let list = slice_chars(&after, 0, end);
    assert(list@ =~= after@.take(end as int));
    let ls = lines_of(&list);
    let ghost lv = views(ls@);
    let mut out: Vec<Vec<char>> = Vec::new();
    let mut i: usize = 0;
    while i < ls.len()
        invariant
            0 <= i <= ls@.len(),
            lv == views(ls@),
            views(out@) == member_names(lv.take(i as int)),
        decreases ls@.len() - i,
    {
        proof {
            assert(lv.take(i + 1).drop_last() =~= lv.take(i as int));
            assert(lv.take(i + 1).last() == ls@[i as int]@);
        }
        let ghost before = views(out@);
        match member_name_exec(&ls[i]) {
            Some(n) => {
                out.push(n);
                proof {
                    assert(views(out@) =~= before + seq![n@]);
                }
            },
            None => {
                proof {
                    assert(before + Seq::<Seq<char>>::empty() =~= before);
                }
            },
        }
        i = i + 1;
    }
    proof {
        assert(lv.take(i as int) =~= lv);
    }
    Some(strings_of(&out))
}

/// The `DEC-007` block: everything between the first ```` ```bash ````
/// fence after the first mention of `DEC-007` and the next fence.
pub open spec fn dec_007_block_in(source: Seq<char>) -> Option<Seq<char>> {
    match find(source, "DEC-007"@) {
        None => None,
        Some(m) => {
            let a = source.skip(m);
            match find(a, "```bash"@) {
                None => None,
                Some(f) => {
                    let b = a.skip(f + "```bash"@.len());
                    match find(b, "```"@) {
                        None => None,
                        Some(e) => Some(b.take(e)),
                    }
                },
            }
        },
    }
}

/// The `DEC-007` code block's contents, from the text of the contributing
/// guide.
pub fn dec_007_block(source: &str) -> (r: Option<String>)
    ensures
        match r {
            Some(b) => dec_007_block_in(source@) == Some(b@),
            None => dec_007_block_in(source@) is None,
        },
{
    let s = chars_of(source);
    let marker = chars_of("DEC-007");
    let m = match find_chars(&s, &marker) {
        None => return None,
        Some(k) => k,
    };
    proof {
        lemma_find_from(s@, marker@, 0);
    }
    let a = slice_chars(&s, m, s.len());
    assert(a@ =~= s@.skip(m as int));
    let fence = chars_of("```bash");
    let f = match find_chars(&a, &fence) {
        None => return None,
        Some(k) => k,
    };
    proof {
        lemma_find_from(a@, fence@, 0);
    }
    let b = slice_chars(&a, f + fence.len(), a.len());
    assert(b@ =~= a@.skip(f + "```bash"@.len()));
    let close = chars_of("```");
    let e = match find_chars(&b, &close) {
        None => return None,
        Some(k) => k,
    };
    proof {
        lemma_find_from(b@, close@, 0);
    }
    let block = slice_chars(&b, 0, e);
    assert(block@ =~= b@.take(e as int));
    Some(string_of(&block))
}

// ---------------------------------------------------------------------
// Obligations of the block, and the CI run lines
// ---------------------------------------------------------------------

/// Which flag shape a `-p <name>` occurrence appears under.
#[derive(Debug, Clone, Copy, PartialEq, Eq, Structural)]
pub enum Shape {
    Lib,
    Test,
    Bare,
}

/// `--test ` (a real `--test <target>` selector) makes a line `Test`;
/// else `--lib` at a word boundary makes it `Lib`; else it is `Bare`.
pub open spec fn shape_of(line: Seq<char>) -> Shape {
    if contains(line, "--test "@) {
        Shape::Test
    } else if at_word_boundary(line, "--lib"@) {
        Shape::Lib
    } else {
        Shape::Bare
    }
}

/// The obligation a line creates: the name after its first `-p ` (up to
/// whitespace) and its shape, unless it is commented out, has no `-p `,
/// or names nothing.
pub open spec fn p_flag_of(line: Seq<char>) -> Option<(Seq<char>, Shape)> {
    if commented(line) {
        None
    } else {
        match find(line, "-p "@) {
            None => None,
            Some(k) => {
                let after = line.skip(k + "-p "@.len());
                let name = after.take(next_ws(after, 0));
                if name.len() == 0 {
                    None
                } else {
                    Some((name, shape_of(line)))
                }
            },
        }
    }
}

pub open spec fn p_flags(ls: Seq<Seq<char>>) -> Seq<(Seq<char>, Shape)>
    decreases ls.len(),
{
    if ls.len() == 0 {
        Seq::empty()
    } else {
        p_flags(ls.drop_last()) + match p_flag_of(ls.last()) {
            Some(o) => seq![o],
            None => Seq::empty(),
        }
    }
}

/// Every `(crate name, shape)` obligation of `text`, one per
/// non-commented line that contains `-p `.
pub open spec fn p_flag_targets_in(text: Seq<char>) -> Seq<(Seq<char>, Shape)> {
    p_flags(lines(text))
}

fn shape_exec(line: &[char]) -> (r: Shape)
    ensures
        r == shape_of(line@),
{
    let test_flag = chars_of("--test ");
    let lib = chars_of("--lib");
    if contains_chars(line, &test_flag) {
        Shape::Test
    } else if word_boundary_chars(line, &lib) {
        Shape::Lib
    } else {
        Shape::Bare
    }
}

fn p_flag_exec(line: &[char]) -> (r: Option<(Vec<char>, Shape)>)
    ensures
        match r {
            Some((n, s)) => p_flag_of(line@) == Some((n@, s)),
            None => p_flag_of(line@) is None,
        },
{
    if commented_exec(line) {
        return None;
    }
    let flag = chars_of("-p ");
    let k = match find_chars(line, &flag) {
        None => return None,
        Some(k) => k,
    };
    proof {
        lemma_find_from(line@, flag@, 0);
        assert(k + flag@.len() <= line@.len());
        assert(line@.len() == line.len());
    }
    let after = slice_chars(line, k + flag.len(), line.len());
    assert(after@ =~= line@.skip(k + "-p "@.len()));
    let mut e: usize = 0;
    while e < after.len() && !is_whitespace(after[e])
        invariant
            0 <= e <= after@.len(),
            next_ws(after@, 0) == next_ws(after@, e as int),
        decreases after@.len() - e,
    {
        e = e + 1;
    }
    proof {
        lemma_next_ws(after@, 0);
    }
    if e == 0 {
        return None;
    }
    let name = slice_chars(&after, 0, e);
    assert(name@ =~= after@.take(e as int));
    Some((name, shape_exec(line)))
}

/// The views of obligations held as strings.
pub open spec fn named_obligations(v: Seq<(String, Shape)>) -> Seq<(Seq<char>, Shape)> {
    v.map_values(|o: (String, Shape)| (o.0@, o.1))
}

pub open spec fn obligation_views(v: Seq<(Vec<char>, Shape)>) -> Seq<(Seq<char>, Shape)> {
    v.map_values(|o: (Vec<char>, Shape)| (o.0@, o.1))
}

fn p_flag_targets_chars(text: &[char]) -> (r: Vec<(Vec<char>, Shape)>)
    ensures
        obligation_views(r@) == p_flag_targets_in(text@),
{
    let ls = lines_of(text);
    let ghost lv = views(ls@);
    let mut out: Vec<(Vec<char>, Shape)> = Vec::new();
    let mut i: usize = 0;
    while i < ls.len()
        invariant
            0 <= i <= ls@.len(),
            lv == views(ls@),
            lv == lines(text@),
            out@.len() <= i,
            obligation_views(out@) == p_flags(lv.take(i as int)),
        decreases ls@.len() - i,
    {
        proof {
            assert(lv.take(i + 1).drop_last() =~= lv.take(i as int));
            assert(lv.take(i + 1).last() == ls@[i as int]@);
        }
        let ghost before = out@;
        match p_flag_exec(&ls[i]) {
            Some(o) => {
                let ghost ov = (o.0@, o.1);
                out.push(o);
                proof {
                    assert forall|k: int| 0 <= k < before.len() implies #[trigger] obligation_views(
                        out@,
                    )[k] == obligation_views(before)[k] by {
                        assert(out@[k] == before[k]);
                    }
                    assert(obligation_views(out@) =~= obligation_views(before) + seq![ov]);
                }
            },
            None => {
                proof {
                    assert(obligation_views(before) + Seq::<(Seq<char>, Shape)>::empty()
                        =~= obligation_views(before));
                }
            },
        }
        i = i + 1;
    }
    proof {
        assert(lv.take(i as int) =~= lv);
    }
    out
}

/// Every `(crate name, shape)` obligation a `-p <name>` occurrence in
/// `text` creates.
pub fn p_flag_targets(text: &str) -> (r: Vec<(String, Shape)>)
    ensures
        named_obligations(r@) == p_flag_targets_in(text@),
{
    let cs = chars_of(text);
    let v = p_flag_targets_chars(&cs);
    let mut out: Vec<(String, Shape)> = Vec::new();
    let mut i: usize = 0;
    while i < v.len()
        invariant
            0 <= i <= v@.len(),
            out@.len() == i,
            obligation_views(v@) == p_flag_targets_in(text@),
            forall|k: int| 0 <= k < i ==> (#[trigger] out@[k]).0@ == v@[k].0@ && out@[k].1 == v@[k].1,
        decreases v@.len() - i,
    {
        let s = string_of(&v[i].0);
        out.push((s, v[i].1));
        i = i + 1;
    }
    proof {
        assert(named_obligations(out@) =~= obligation_views(v@));
    }
    out
}

// ---------------------------------------------------------------------
// Jobs of the workflow
// ---------------------------------------------------------------------

/// The index of the first line whose trimmed-at-the-end text is `jobs:`.
pub open spec fn jobs_line(ls: Seq<Seq<char>>, i: int) -> Option<int>
    decreases ls.len() - i,
{
    if i < 0 || i >= ls.len() {
        None
    } else if trim_end(ls[i]) == "jobs:"@ {
        Some(i)
    } else {
        jobs_line(ls, i + 1)
    }
}

/// A job name: indented by exactly two spaces, ending in `:`.
pub open spec fn is_job_header(line: Seq<char>) -> bool {
    starts_with(line, "  "@) && !starts_with(line, "   "@) && ends_with(trim_end(line), seq![':'])
}

/// The job blocks read from `ls` so far, and the job being read.
pub open spec fn scan_jobs(ls: Seq<Seq<char>>) -> (Seq<(Seq<char>, Seq<Seq<char>>)>, Option<(Seq<char>, Seq<Seq<char>>)>)
    decreases ls.len(),
{
    if ls.len() == 0 {
        (Seq::empty(), None)
    } else {
        let prev = scan_jobs(ls.drop_last());
        let line = ls.last();
        if is_job_header(line) {
            (
                prev.0 + match prev.1 {
                    Some(c) => seq![c],
                    None => Seq::empty(),
                },
                Some((trim_end_char(trim(line), ':'), Seq::empty())),
            )
        } else {
            match prev.1 {
                Some(c) => (prev.0, Some((c.0, c.1.push(line)))),
                None => prev,
            }
        }
    }
}

/// Each job's name and its body lines joined with `'\n'`.
pub open spec fn joined_blocks(bs: Seq<(Seq<char>, Seq<Seq<char>>)>) -> Seq<(Seq<char>, Seq<char>)> {
    bs.map_values(|b: (Seq<char>, Seq<Seq<char>>)| (b.0, join_lines(b.1)))
}

/// `(job name, job body)` pairs of the `jobs:` section: a job is a line
/// indented by exactly two spaces ending in `:`, its body every line up to
/// the next such line or the end. `None` when there is no `jobs:` line.
pub open spec fn job_blocks_in(source: Seq<char>) -> Option<Seq<(Seq<char>, Seq<char>)>> {
    let ls = lines(source);
    match jobs_line(ls, 0) {
        None => None,
        Some(j) => {
            let s = scan_jobs(ls.skip(j + 1));
            Some(
                joined_blocks(
                    s.0 + match s.1 {
                        Some(c) => seq![c],
                        None => Seq::empty(),
                    },
                ),
            )
        },
    }
}

/// A job body with a line whose trimmed text is exactly `if: false`.
pub open spec fn job_disabled(body: Seq<char>) -> bool {
    exists|k: int| 0 <= k < lines(body).len() && trim(#[trigger] lines(body)[k]) == "if: false"@
}

fn job_header_exec(line: &[char]) -> (r: bool)
    ensures
        r == is_job_header(line@),
{
    let two = chars_of("  ");
    let three = chars_of("   ");
    let colon: Vec<char> = vec![':'];
    assert(colon@ =~= seq![':']);
    let te = trim_end_of(line);
    starts_with_chars(line, &two) && !starts_with_chars(line, &three) && ends_with_chars(
        &te,
        colon.as_slice(),
    )
}

/// A job being read: its name and body lines.
struct JobChars {
    name: Vec<char>,
    body: Vec<Vec<char>>,
}

spec fn job_view(j: JobChars) -> (Seq<char>, Seq<Seq<char>>) {
    (j.name@, views(j.body@))
}

spec fn job_views(v: Seq<JobChars>) -> Seq<(Seq<char>, Seq<Seq<char>>)> {
    v.map_values(|j: JobChars| job_view(j))
}

spec fn opt_job_view(o: Option<JobChars>) -> Option<(Seq<char>, Seq<Seq<char>>)> {
    match o {
        Some(j) => Some(job_view(j)),
        None => None,
    }
}

fn copy_lines(v: &Vec<Vec<char>>) -> (r: Vec<Vec<char>>)
    ensures
        views(r@) == views(v@),
{
    let mut out: Vec<Vec<char>> = Vec::new();
    let mut i: usize = 0;
    while i < v.len()
        invariant
            0 <= i <= v@.len(),
            views(out@) == views(v@).take(i as int),
        decreases v@.len() - i,
    {
        let c = copy_of(&v[i]);
        let ghost before = views(out@);
        out.push(c);
        i = i + 1;
        proof {
            assert(views(out@) =~= before.push(c@));
            assert(views(out@) =~= views(v@).take(i as int));
        }
    }
    proof {
        assert(views(v@).take(i as int) =~= views(v@));
    }
    out
}

fn jobs_line_exec(ls: &Vec<Vec<char>>) -> (r: Option<usize>)
    ensures
        match r {
            Some(j) => j < ls@.len() && jobs_line(views(ls@), 0) == Some(j as int),
            None => jobs_line(views(ls@), 0) is None,
        },
{
    let ghost lv = views(ls@);
    let jobs = chars_of("jobs:");
    let mut j: usize = 0;
    while j < ls.len()
        invariant
            0 <= j <= ls@.len(),
            lv == views(ls@),
            jobs@ == "jobs:"@,
            jobs_line(lv, 0) == jobs_line(lv, j as int),
        decreases ls@.len() - j,
    {
        let te = trim_end_of(&ls[j]);
        proof {
            assert(lv[j as int] == ls@[j as int]@);
        }
        if eq_chars(&te, &jobs) {
            return Some(j);
        }
        j = j + 1;
    }
    None
}

/// `(job name, job body)` pairs from the `jobs:` section of a workflow.
pub fn job_blocks(source: &str) -> (r: Option<Vec<(String, String)>>)
    ensures
        match r {
            Some(v) => job_blocks_in(source@) == Some(
                v@.map_values(|p: (String, String)| (p.0@, p.1@)),
            ),
            None => job_blocks_in(source@) is None,
        },
{
    let s = chars_of(source);
    let ls = lines_of(&s);
    let ghost lv = views(ls@);
    let j = match jobs_line_exec(&ls) {
        None => return None,
        Some(j) => j,
    };
    let ghost rest = lv.skip(j + 1);
    let mut done: Vec<JobChars> = Vec::new();
    let mut current: Option<JobChars> = None;
    assert(j < ls.len());
    let mut i: usize = j + 1;
    while i < ls.len()
        invariant
            j + 1 <= i <= ls@.len(),
            lv == views(ls@),
            rest == lv.skip(j + 1),
            (job_views(done@), opt_job_view(current)) == scan_jobs(rest.take(i - j - 1)),
        decreases ls@.len() - i,
    {
        proof {
            assert(rest.take(i - j).drop_last() =~= rest.take(i - j - 1));
            assert(rest.take(i - j).last() == ls@[i as int]@);
        }
        let line = &ls[i];
        if job_header_exec(line) {
            let ghost before = job_views(done@);
            match current {
                Some(c) => {
                    let ghost cv = job_view(c);
                    done.push(c);
                    proof {
                        assert(job_views(done@) =~= before + seq![cv]);
                    }
                },
                None => {
                    proof {
                        assert(job_views(done@) =~= before + Seq::<(Seq<char>, Seq<Seq<char>>)>::empty());
                    }
                },
            }
            let t = trim_of(line);
            let name = trim_end_char_of(&t, ':');
            let body: Vec<Vec<char>> = Vec::new();
            proof {
                assert(views(body@) =~= Seq::<Seq<char>>::empty());
            }
            current = Some(JobChars { name, body });
        } else {
            match current {
                Some(mut c) => {
                    let ghost bv = views(c.body@);
                    c.body.push(copy_of(line));
                    proof {
                        assert(views(c.body@) =~= bv.push(line@));
                    }
                    current = Some(c);
                },
                None => {
                    current = None;
                },
            }
        }
        i = i + 1;
    }
    proof {
        assert(rest.take(i - j - 1) =~= rest);
    }
    let ghost before = job_views(done@);
    match current {
        Some(c) => {
            let ghost cv = job_view(c);
            done.push(c);
            proof {
                assert(job_views(done@) =~= before + seq![cv]);
            }
        },
        None => {
            proof {
                assert(job_views(done@) =~= before + Seq::<(Seq<char>, Seq<Seq<char>>)>::empty());
            }
        },
    }
    let ghost all = job_views(done@);
    let mut out: Vec<(String, String)> = Vec::new();
    let mut k: usize = 0;
    while k < done.len()
        invariant
            0 <= k <= done@.len(),
            all == job_views(done@),
            out@.len() == k,
            forall|m: int| 0 <= m < k ==> (#[trigger] out@[m]).0@ == all[m].0 && out@[m].1@
                == join_lines(all[m].1),
        decreases done@.len() - k,
    {
        let name = string_of(&done[k].name);
        let body = join_lines_of(&done[k].body);
        let b = string_of(&body);
        out.push((name, b));
        k = k + 1;
    }
    proof {
        assert(out@.map_values(|p: (String, String)| (p.0@, p.1@)) =~= joined_blocks(all));
    }
    Some(out)
}

/// True if `job_body` has a line whose trimmed text is exactly
/// `if: false`; other spellings that mean the same are not recognised.
pub fn job_is_disabled(job_body: &str) -> (r: bool)
    ensures
        r == job_disabled(job_body@),
{
    let b = chars_of(job_body);
    let ls = lines_of(&b);
    let ghost lv = views(ls@);
    let key = chars_of("if: false");
    let mut i: usize = 0;
    while i < ls.len()
        invariant
            0 <= i <= ls@.len(),
            lv == views(ls@),
            lv == lines(job_body@),
            key@ == "if: false"@,
            forall|k: int| 0 <= k < i ==> trim(#[trigger] lv[k]) != "if: false"@,
        decreases ls@.len() - i,
    {
        let t = trim_of(&ls[i]);
        proof {
            assert(lv[i as int] == ls@[i as int]@);
        }
        if eq_chars(&t, &key) {
            return true;
        }
        i = i + 1;
    }
    false
}

/// The command of a `run:` step line: not commented out (before or after
/// the `- `), with an optional `- ` before `run:`.
pub open spec fn run_command(line: Seq<char>) -> Option<Seq<char>> {
    let t = trim(line);
    if starts_with(t, seq!['#']) {
        None
    } else {
        let a = if starts_with(t, "- "@) {
            t.skip(2)
        } else {
            t
        };
        if starts_with(a, "run:"@) {
            Some(a.skip(4))
        } else {
            None
        }
    }
}

pub open spec fn run_commands(ls: Seq<Seq<char>>) -> Seq<Seq<char>>
    decreases ls.len(),
{
    if ls.len() == 0 {
        Seq::empty()
    } else {
        run_commands(ls.drop_last()) + match run_command(ls.last()) {
            Some(c) => seq![c],
            None => Seq::empty(),
        }
    }
}

/// The run lines of the jobs that are not disabled, job by job.
pub open spec fn enabled_run_lines(blocks: Seq<(Seq<char>, Seq<char>)>) -> Seq<Seq<char>>
    decreases blocks.len(),
{
    if blocks.len() == 0 {
        Seq::empty()
    } else {
        let b = blocks.last();
        enabled_run_lines(blocks.drop_last()) + if job_disabled(b.1) {
            Seq::empty()
        } else {
            run_commands(lines(b.1))
        }
    }
}

/// The workflow's `run:` step lines that will execute; `None` when it has
/// no `jobs:` line.
pub open spec fn run_lines_in(source: Seq<char>) -> Option<Seq<Seq<char>>> {
    match job_blocks_in(source) {
        None => None,
        Some(bs) => Some(enabled_run_lines(bs)),
    }
}

fn run_command_exec(line: &[char]) -> (r: Option<Vec<char>>)
    ensures
        match r {
            Some(c) => run_command(line@) == Some(c@),
            None => run_command(line@) is None,
        },
{
    let t = trim_of(line);
    let hash: Vec<char> = vec!['#'];
    assert(hash@ =~= seq!['#']);
    if starts_with_chars(&t, hash.as_slice()) {
        return None;
    }
    let dash = chars_of("- ");
    let run = chars_of("run:");
    proof {
        assert(dash@ == "- "@);
        assert(dash@.len() == 2) by {
            reveal_strlit("- ");
        }
        assert(run@.len() == 4) by {
            reveal_strlit("run:");
        }
    }
    let a = if starts_with_chars(&t, &dash) {
        slice_chars(&t, 2, t.len())
    } else {
        copy_of(&t)
    };
    assert(starts_with(t@, "- "@) ==> a@ =~= t@.skip(2));
    if starts_with_chars(&a, &run) {
        let c = slice_chars(&a, 4, a.len());
        assert(c@ =~= a@.skip(4));
        Some(c)
    } else {
        None
    }
}

fn run_commands_exec(body: &[char], out: &mut Vec<Vec<char>>)
    ensures
        views(final(out)@) == views(old(out)@) + run_commands(lines(body@)),
{
    let ls = lines_of(body);
    let ghost lv = views(ls@);
    let ghost start = views(out@);
    let mut i: usize = 0;
    while i < ls.len()
        invariant
            0 <= i <= ls@.len(),
            lv == views(ls@),
            lv == lines(body@),
            views(out@) == start + run_commands(lv.take(i as int)),
        decreases ls@.len() - i,
    {
        proof {
            assert(lv.take(i + 1).drop_last() =~= lv.take(i as int));
            assert(lv.take(i + 1).last() == ls@[i as int]@);
        }
        let ghost before = views(out@);
        match run_command_exec(&ls[i]) {
            Some(c) => {
                out.push(c);
                proof {
                    assert(views(out@) =~= before.push(c@));
                    assert(views(out@) =~= start + run_commands(lv.take(i + 1)));
                }
            },
            None => {
                proof {
                    assert(views(out@) =~= start + run_commands(lv.take(i + 1)));
                }
            },
        }
        i = i + 1;
    }
    proof {
        assert(lv.take(i as int) =~= lv);
    }
}

/// The workflow's own `run:` step lines that will actually execute:
/// non-commented, and not inside a job with a literal `if: false`.
pub fn test_yml_run_lines(source: &str) -> (r: Option<Vec<String>>)
    ensures
        match r {
            Some(v) => run_lines_in(source@) == Some(string_views(v@)),
            None => run_lines_in(source@) is None,
        },
{
    let blocks = match job_blocks(source) {
        None => return None,
        Some(b) => b,
    };
    let ghost bv = blocks@.map_values(|p: (String, String)| (p.0@, p.1@));
    let mut out: Vec<Vec<char>> = Vec::new();
    let mut i: usize = 0;
    while i < blocks.len()
        invariant
            0 <= i <= blocks@.len(),
            bv == blocks@.map_values(|p: (String, String)| (p.0@, p.1@)),
            views(out@) == enabled_run_lines(bv.take(i as int)),
        decreases blocks@.len() - i,
    {
        proof {
            assert(bv.take(i + 1).drop_last() =~= bv.take(i as int));
            assert(bv.take(i + 1).last() == (blocks@[i as int].0@, blocks@[i as int].1@));
        }
        let body = blocks[i].1.as_str();
        if !job_is_disabled(body) {
            let b = chars_of(body);
            run_commands_exec(&b, &mut out);
        }
        i = i + 1;
    }
    proof {
        assert(bv.take(i as int) =~= bv);
    }
    Some(strings_of(&out))
}

// ---------------------------------------------------------------------
// Block obligations without a matching run line
// ---------------------------------------------------------------------

pub open spec fn shape_rank(s: Shape) -> int {
    match s {
        Shape::Lib => 0,
        Shape::Test => 1,
        Shape::Bare => 2,
    }
}

/// The order of `(String, Shape)` pairs: by name, then `Lib`, `Test`,
/// `Bare`.
pub open spec fn obligation_lt(a: (Seq<char>, Shape), b: (Seq<char>, Shape)) -> bool {
    text_lt(a.0, b.0) || (a.0 == b.0 && shape_rank(a.1) < shape_rank(b.1))
}

pub open spec fn obligations_increasing(s: Seq<(Seq<char>, Shape)>) -> bool {
    forall|i: int, j: int| 0 <= i < j < s.len() ==> obligation_lt(#[trigger] s[i], #[trigger] s[j])
}

/// The obligations of `ob`, each once, in ascending order (a sort and
/// dedup).
pub open spec fn sorted_obligations(ob: Seq<(Seq<char>, Shape)>) -> Seq<(Seq<char>, Shape)> {
    choose|s: Seq<(Seq<char>, Shape)>|
        obligations_increasing(s) && forall|o: (Seq<char>, Shape)| #[trigger]
            s.contains(o) <==> ob.contains(o)
}

pub proof fn lemma_obligation_lt(a: (Seq<char>, Shape), b: (Seq<char>, Shape), c: (Seq<char>, Shape))
    ensures
        obligation_lt(a, b) ==> !obligation_lt(b, a),
        !obligation_lt(a, a),
        obligation_lt(a, b) && obligation_lt(b, c) ==> obligation_lt(a, c),
        obligation_lt(a, b) || obligation_lt(b, a) || a == b,
{
    lemma_text_lt_asymmetric(a.0, b.0);
    lemma_text_lt_asymmetric(b.0, a.0);
    lemma_text_lt_total(a.0, b.0);
    if text_lt(a.0, b.0) && text_lt(b.0, c.0) {
        lemma_text_lt_transitive(a.0, b.0, c.0);
    }
    if text_lt(a.0, b.0) && b.0 == c.0 {
    }
    if a.0 == b.0 && a.1 != b.1 {
    }
    if a.0 == b.0 && shape_rank(a.1) == shape_rank(b.1) {
        assert(a.1 == b.1);
        assert(a == b);
    }
}

/// Two ascending sequences with the same elements are the same sequence.
pub proof fn lemma_obligations_unique(a: Seq<(Seq<char>, Shape)>, b: Seq<(Seq<char>, Shape)>)
    requires
        obligations_increasing(a),
        obligations_increasing(b),
        forall|v: (Seq<char>, Shape)| #![trigger a.contains(v)] #![trigger b.contains(v)] a.contains(v) <==> b.contains(v),
    ensures
        a == b,
    decreases a.len(),
{
    if a.len() == 0 {
        if b.len() > 0 {
            assert(b.contains(b[0]));
            assert(a.contains(b[0]));
        }
        assert(a =~= b);
    } else {
        assert(a.contains(a[0]));
        assert(b.contains(a[0]));
        assert(b.len() > 0);
        assert(b.contains(b[0]));
        assert(a.contains(b[0]));
        let j = choose|j: int| 0 <= j < b.len() && b[j] == a[0];
        let m = choose|m: int| 0 <= m < a.len() && a[m] == b[0];
        lemma_obligation_lt(a[0], b[0], a[0]);
        if j > 0 {
            assert(obligation_lt(b[0], b[j]));
            if m > 0 {
                assert(obligation_lt(a[0], a[m]));
            }
            assert(false);
        }
        let a1 = a.drop_first();
        let b1 = b.drop_first();
        assert forall|v: (Seq<char>, Shape)| #[trigger] a1.contains(v) implies b1.contains(v) by {
            let k = choose|k: int| 0 <= k < a1.len() && a1[k] == v;
            assert(a[k + 1] == v);
            assert(obligation_lt(a[0], a[k + 1]));
            lemma_obligation_lt(a[0], v, v);
            assert(a.contains(v));
            let l = choose|l: int| 0 <= l < b.len() && b[l] == v;
            assert(l != 0);
            assert(b1[l - 1] == v);
        }
        assert forall|v: (Seq<char>, Shape)| #[trigger] b1.contains(v) implies a1.contains(v) by {
            let k = choose|k: int| 0 <= k < b1.len() && b1[k] == v;
            assert(b[k + 1] == v);
            assert(obligation_lt(b[0], b[k + 1]));
            lemma_obligation_lt(b[0], v, v);
            assert(b.contains(v));
            let l = choose|l: int| 0 <= l < a.len() && a[l] == v;
            assert(l != 0);
            assert(a1[l - 1] == v);
        }
        lemma_obligations_unique(a1, b1);
        assert(a =~= seq![a[0]] + a1);
        assert(b =~= seq![b[0]] + b1);
    }
}

fn obligation_lt_exec(a: &(Vec<char>, Shape), b: &(Vec<char>, Shape)) -> (r: bool)
    ensures
        r == obligation_lt((a.0@, a.1), (b.0@, b.1)),
{
    if text_lt_exec(&a.0, &b.0) {
        return true;
    }
    if !eq_chars(&a.0, &b.0) {
        return false;
    }
    let ra: u8 = match a.1 {
        Shape::Lib => 0,
        Shape::Test => 1,
        Shape::Bare => 2,
    };
    let rb: u8 = match b.1 {
        Shape::Lib => 0,
        Shape::Test => 1,
        Shape::Bare => 2,
    };
    ra < rb
}

fn copy_obligation(o: &(Vec<char>, Shape)) -> (r: (Vec<char>, Shape))
    ensures
        r.0@ == o.0@,
        r.1 == o.1,
{
    (copy_of(&o.0), o.1)
}

/// The obligations of `ob`, each once, ascending.
fn sort_obligations(ob: &Vec<(Vec<char>, Shape)>) -> (r: Vec<(Vec<char>, Shape)>)
    ensures
        obligation_views(r@) == sorted_obligations(obligation_views(ob@)),
        obligations_increasing(obligation_views(r@)),
        forall|o: (Seq<char>, Shape)| #[trigger]
            obligation_views(r@).contains(o) <==> obligation_views(ob@).contains(o),
{
    let ghost ov = obligation_views(ob@);
    let mut vs: Vec<(Vec<char>, Shape)> = Vec::new();
    let mut i: usize = 0;
    while i < ob.len()
        invariant
            0 <= i <= ob@.len(),
            ov == obligation_views(ob@),
            obligations_increasing(obligation_views(vs@)),
            forall|o: (Seq<char>, Shape)| #[trigger]
                obligation_views(vs@).contains(o) <==> ov.take(i as int).contains(o),
        decreases ob@.len() - i,
    {
        let ghost v = ov[i as int];
        let ghost sv = obligation_views(vs@);
        let mut p: usize = 0;
        while p < vs.len() && obligation_lt_exec(&vs[p], &ob[i])
            invariant
                0 <= p <= vs@.len(),
                i < ob@.len(),
                sv == obligation_views(vs@),
                v == ov[i as int],
                ov == obligation_views(ob@),
                forall|k: int| 0 <= k < p ==> obligation_lt(#[trigger] sv[k], v),
            decreases vs@.len() - p,
        {
            proof {
                assert(sv[p as int] == (vs@[p as int].0@, vs@[p as int].1));
            }
            p = p + 1;
        }
        let present = p < vs.len() && eq_chars(&vs[p].0, &ob[i].0) && vs[p].1 == ob[i].1;
        proof {
            if p < vs@.len() {
                assert(sv[p as int] == (vs@[p as int].0@, vs@[p as int].1));
                assert(present == (sv[p as int] == v));
            }
        }
        if !present {
            let item = copy_obligation(&ob[i]);
            vs.insert(p, item);
            proof {
                let nv = obligation_views(vs@);
                assert(nv =~= sv.insert(p as int, v));
                if p < sv.len() {
                    lemma_obligation_lt(sv[p as int], v, v);
                    assert(obligation_lt(v, sv[p as int]));
                }
                assert forall|a: int, b: int| 0 <= a < b < nv.len() implies obligation_lt(
                    #[trigger] nv[a],
                    #[trigger] nv[b],
                ) by {
                    if b < p {
                    } else if b == p {
                    } else if a == p {
                        if b - 1 > p {
                            assert(obligation_lt(sv[p as int], sv[b - 1]));
                            lemma_obligation_lt(v, sv[p as int], sv[b - 1]);
                        }
                    } else if a < p {
                        assert(obligation_lt(sv[a], v));
                        if b - 1 > p {
                            assert(obligation_lt(sv[p as int], sv[b - 1]));
                            lemma_obligation_lt(v, sv[p as int], sv[b - 1]);
                        }
                        lemma_obligation_lt(sv[a], v, sv[b - 1]);
                    } else {
                    }
                }
            }
        }
        proof {
            let nv = obligation_views(vs@);
            let t1 = ov.take(i + 1);
            let t0 = ov.take(i as int);
            assert(t1 =~= t0.push(v));
            assert forall|w: (Seq<char>, Shape)| #[trigger] nv.contains(w) <==> t1.contains(w) by {
                if t1.contains(w) {
                    let k = choose|k: int| 0 <= k < t1.len() && t1[k] == w;
                    if k < i {
                        assert(t0[k] == w);
                        assert(t0.contains(w));
                        assert(sv.contains(w));
                        let l = choose|l: int| 0 <= l < sv.len() && sv[l] == w;
                        if !present {
                            if l < p {
                                assert(nv[l] == w);
                            } else {
                                assert(nv[l + 1] == w);
                            }
                        } else {
                            assert(nv[l] == w);
                        }
                    } else {
                        assert(nv[p as int] == w);
                    }
                }
                if nv.contains(w) {
                    let l = choose|l: int| 0 <= l < nv.len() && nv[l] == w;
                    if !present && l == p {
                        assert(t1[i as int] == w);
                    } else {
                        let l0 = if !present && l > p {
                            l - 1
                        } else {
                            l
                        };
                        assert(sv[l0] == w);
                        assert(sv.contains(w));
                        assert(t0.contains(w));
                        let k = choose|k: int| 0 <= k < t0.len() && t0[k] == w;
                        assert(t1[k] == w);
                    }
                }
            }
        }
        i = i + 1;
    }
    proof {
        assert(ov.take(i as int) =~= ov);
        lemma_obligations_unique(obligation_views(vs@), sorted_obligations(ov));
    }
    vs
}

/// A run line that covers the obligation `(name, shape)`: it runs
/// `-p <name>` at a word boundary in the same shape.
pub open spec fn covers_obligation(line: Seq<char>, name: Seq<char>, shape: Shape) -> bool {
    at_word_boundary(line, p_flag(name)) && match shape {
        Shape::Test => contains(line, "--test "@),
        Shape::Lib => !contains(line, "--test "@) && at_word_boundary(line, "--lib"@),
        Shape::Bare => !contains(line, "--test "@) && !at_word_boundary(line, "--lib"@),
    }
}

pub open spec fn has_run_line(runs: Seq<Seq<char>>, o: (Seq<char>, Shape)) -> bool {
    exists|k: int| 0 <= k < runs.len() && covers_obligation(#[trigger] runs[k], o.0, o.1)
}

pub open spec fn uncovered(obs: Seq<(Seq<char>, Shape)>, runs: Seq<Seq<char>>) -> Seq<(Seq<char>, Shape)>
    decreases obs.len(),
{
    if obs.len() == 0 {
        Seq::empty()
    } else {
        uncovered(obs.drop_last(), runs) + if has_run_line(runs, obs.last()) {
            Seq::empty()
        } else {
            seq![obs.last()]
        }
    }
}

/// An obligation is among the uncovered ones exactly when it is one of
/// `obs` and no run line covers it.
pub proof fn lemma_uncovered_contains(obs: Seq<(Seq<char>, Shape)>, runs: Seq<Seq<char>>, o: (Seq<char>, Shape))
    ensures
        uncovered(obs, runs).contains(o) <==> (obs.contains(o) && !has_run_line(runs, o)),
    decreases obs.len(),
{
    if obs.len() > 0 {
        lemma_uncovered_contains(obs.drop_last(), runs, o);
        let prev = uncovered(obs.drop_last(), runs);
        let x = obs.last();
        assert(obs =~= obs.drop_last().push(x));
        if uncovered(obs, runs).contains(o) {
            let k = choose|k: int| 0 <= k < uncovered(obs, runs).len() && uncovered(obs, runs)[k] == o;
            if k < prev.len() {
                assert(prev[k] == o);
                let j = choose|j: int| 0 <= j < obs.drop_last().len() && obs.drop_last()[j] == o;
                assert(obs[j] == o);
            } else {
                assert(obs[obs.len() - 1] == o);
            }
        }
        if obs.contains(o) && !has_run_line(runs, o) {
            let j = choose|j: int| 0 <= j < obs.len() && obs[j] == o;
            if j < obs.len() - 1 {
                assert(obs.drop_last()[j] == o);
                assert(obs.drop_last().contains(o));
                let k = choose|k: int| 0 <= k < prev.len() && prev[k] == o;
                assert(uncovered(obs, runs)[k] == o);
            } else {
                assert(uncovered(obs, runs)[prev.len() as int] == o);
            }
        }
    }
}

/// How many leading elements of `s` come before `x`.
pub open spec fn count_below(s: Seq<(Seq<char>, Shape)>, x: (Seq<char>, Shape)) -> nat
    decreases s.len(),
{
    if s.len() == 0 {
        0
    } else if obligation_lt(s[0], x) {
        1 + count_below(s.drop_first(), x)
    } else {
        0
    }
}

proof fn lemma_count_below(s: Seq<(Seq<char>, Shape)>, x: (Seq<char>, Shape))
    requires
        obligations_increasing(s),
    ensures
        count_below(s, x) <= s.len(),
        forall|k: int| 0 <= k < count_below(s, x) ==> obligation_lt(s[k], x),
        forall|k: int| count_below(s, x) <= k < s.len() ==> !obligation_lt(s[k], x),
    decreases s.len(),
{
    if s.len() > 0 {
        let t = s.drop_first();
        assert forall|i: int, j: int| 0 <= i < j < t.len() implies obligation_lt(
            #[trigger] t[i],
            #[trigger] t[j],
        ) by {
            assert(t[i] == s[i + 1] && t[j] == s[j + 1]);
        }
        lemma_count_below(t, x);
        if obligation_lt(s[0], x) {
            assert forall|k: int| 0 <= k < count_below(s, x) implies obligation_lt(s[k], x) by {
                if k > 0 {
                    assert(s[k] == t[k - 1]);
                }
            }
            assert forall|k: int| count_below(s, x) <= k < s.len() implies !obligation_lt(s[k], x) by {
                assert(s[k] == t[k - 1]);
            }
        } else {
            assert forall|k: int| 0 <= k < s.len() implies !obligation_lt(s[k], x) by {
                if k > 0 && obligation_lt(s[k], x) {
                    assert(obligation_lt(s[0], s[k]));
                    lemma_obligation_lt(s[0], s[k], x);
                }
            }
        }
    }
}

/// Every sequence of obligations has an ascending arrangement of its
/// elements, each once: `sorted_obligations` is that arrangement.
pub proof fn lemma_sorted_obligations(ob: Seq<(Seq<char>, Shape)>)
    ensures
        obligations_increasing(sorted_obligations(ob)),
        forall|o: (Seq<char>, Shape)| #[trigger]
            sorted_obligations(ob).contains(o) <==> ob.contains(o),
    decreases ob.len(),
{
    let w = sorted_witness(ob);
    assert(obligations_increasing(w) && forall|o: (Seq<char>, Shape)| #[trigger]
        w.contains(o) <==> ob.contains(o));
}

proof fn sorted_witness(ob: Seq<(Seq<char>, Shape)>) -> (w: Seq<(Seq<char>, Shape)>)
    ensures
        obligations_increasing(w),
        forall|o: (Seq<char>, Shape)| #[trigger] w.contains(o) <==> ob.contains(o),
    decreases ob.len(),
{
    if ob.len() == 0 {
        Seq::empty()
    } else {
        let s = sorted_witness(ob.drop_last());
        let x = ob.last();
        assert(ob =~= ob.drop_last().push(x));
        if s.contains(x) {
            assert forall|o: (Seq<char>, Shape)| #[trigger] s.contains(o) <==> ob.contains(o) by {
                if ob.contains(o) {
                    let k = choose|k: int| 0 <= k < ob.len() && ob[k] == o;
                    if k < ob.len() - 1 {
                        assert(ob.drop_last()[k] == o);
                        assert(ob.drop_last().contains(o));
                    }
                }
                if s.contains(o) {
                    assert(ob.drop_last().contains(o));
                    let k = choose|k: int| 0 <= k < ob.drop_last().len() && ob.drop_last()[k] == o;
                    assert(ob[k] == o);
                }
            }
            s
        } else {
            lemma_count_below(s, x);
            let p = count_below(s, x) as int;
            let n = s.insert(p, x);
            assert forall|k: int| p <= k < s.len() implies obligation_lt(x, #[trigger] s[k]) by {
                lemma_obligation_lt(s[k], x, x);
                assert(s[k] != x);
            }
            assert forall|a: int, b: int| 0 <= a < b < n.len() implies obligation_lt(
                #[trigger] n[a],
                #[trigger] n[b],
            ) by {
                if b < p {
                } else if b == p {
                } else if a == p {
                } else if a < p {
                    lemma_obligation_lt(s[a], x, s[b - 1]);
                } else {
                }
            }
            assert forall|o: (Seq<char>, Shape)| #[trigger] n.contains(o) <==> ob.contains(o) by {
                if ob.contains(o) {
                    let k = choose|k: int| 0 <= k < ob.len() && ob[k] == o;
                    if k < ob.len() - 1 {
                        assert(ob.drop_last()[k] == o);
                        assert(ob.drop_last().contains(o));
                        assert(s.contains(o));
                        let l = choose|l: int| 0 <= l < s.len() && s[l] == o;
                        if l < p {
                            assert(n[l] == o);
                        } else {
                            assert(n[l + 1] == o);
                        }
                    } else {
                        assert(n[p] == o);
                    }
                }
                if n.contains(o) {
                    let l = choose|l: int| 0 <= l < n.len() && n[l] == o;
                    if l == p {
                        assert(ob[ob.len() - 1] == o);
                    } else {
                        let l0 = if l > p {
                            l - 1
                        } else {
                            l
                        };
                        assert(s[l0] == o);
                        assert(s.contains(o));
                        assert(ob.drop_last().contains(o));
                        let k = choose|k: int| 0 <= k < ob.drop_last().len() && ob.drop_last()[k] == o;
                        assert(ob[k] == o);
                    }
                }
            }
            n
        }
    }
}

proof fn lemma_p_flags_contains(ls: Seq<Seq<char>>, k: int)
    requires
        0 <= k < ls.len(),
        p_flag_of(ls[k]) is Some,
    ensures
        p_flags(ls).contains(p_flag_of(ls[k]).unwrap()),
    decreases ls.len(),
{
    let o = p_flag_of(ls[k]).unwrap();
    let prev = p_flags(ls.drop_last());
    if k < ls.len() - 1 {
        assert(ls.drop_last()[k] == ls[k]);
        lemma_p_flags_contains(ls.drop_last(), k);
        let j = choose|j: int| 0 <= j < prev.len() && prev[j] == o;
        assert(p_flags(ls)[j] == o);
    } else {
        assert(p_flags(ls)[prev.len() as int] == o);
    }
}

/// A block line that runs a crate bare (its `-p` names the crate, with
/// neither `--lib` nor `--test `) reaches CI once the block-to-CI check
/// finds nothing missing: some run line runs the crate bare too. With the
/// filesystem-to-block check, a crate whose integration tests the block
/// covers through such a line has all of them run by CI.
pub proof fn lemma_bare_line_reaches_ci(block: Seq<char>, runs: Seq<Seq<char>>, name: Seq<char>, k: int)
    requires
        0 <= k < lines(block).len(),
        p_flag_of(lines(block)[k]) == Some((name, Shape::Bare)),
        missing_obligations_of(block, runs).len() == 0,
    ensures
        exists|j: int| 0 <= j < runs.len() && covers_obligation(#[trigger] runs[j], name, Shape::Bare),
{
    let o = (name, Shape::Bare);
    lemma_p_flags_contains(lines(block), k);
    lemma_sorted_obligations(p_flag_targets_in(block));
    assert(sorted_obligations(p_flag_targets_in(block)).contains(o));
    lemma_uncovered_contains(sorted_obligations(p_flag_targets_in(block)), runs, o);
    if !has_run_line(runs, o) {
        assert(uncovered(sorted_obligations(p_flag_targets_in(block)), runs).contains(o));
        assert(false);
    }
}

/// The block's obligations (sorted, each once) that no run line covers in
/// the same shape.
pub open spec fn missing_obligations_of(block: Seq<char>, runs: Seq<Seq<char>>) -> Seq<(Seq<char>, Shape)> {
    uncovered(sorted_obligations(p_flag_targets_in(block)), runs)
}

fn covers_obligation_exec(line: &[char], name: &[char], shape: Shape) -> (r: bool)
    ensures
        r == covers_obligation(line@, name@, shape),
{
    let flag = p_flag_chars(name);
    if !word_boundary_chars(line, &flag) {
        return false;
    }
    let test_flag = chars_of("--test ");
    let lib = chars_of("--lib");
    match shape {
        Shape::Test => contains_chars(line, &test_flag),
        Shape::Lib => !contains_chars(line, &test_flag) && word_boundary_chars(line, &lib),
        Shape::Bare => !contains_chars(line, &test_flag) && !word_boundary_chars(line, &lib),
    }
}

fn has_run_line_exec(runs: &Vec<Vec<char>>, name: &[char], shape: Shape) -> (r: bool)
    ensures
        r == has_run_line(views(runs@), (name@, shape)),
{
    let ghost rv = views(runs@);
    let mut i: usize = 0;
    while i < runs.len()
        invariant
            0 <= i <= runs@.len(),
            rv == views(runs@),
            forall|k: int| 0 <= k < i ==> !covers_obligation(#[trigger] rv[k], name@, shape),
        decreases runs@.len() - i,
    {
        proof {
            assert(rv[i as int] == runs@[i as int]@);
        }
        if covers_obligation_exec(&runs[i], name, shape) {
            return true;
        }
        i = i + 1;
    }
    false
}

/// The obligations of `block` (sorted, each once) that have no run line
/// of the same shape among `run_lines`.
pub fn missing_obligations(block: &str, run_lines: &Vec<String>) -> (r: Vec<(String, Shape)>)
    ensures
        named_obligations(r@) == missing_obligations_of(
            block@,
            string_views(run_lines@),
        ),
        forall|o: (Seq<char>, Shape)| #[trigger]
            named_obligations(r@).contains(o) <==> (p_flag_targets_in(
                block@,
            ).contains(o) && !has_run_line(string_views(run_lines@), o)),
{
    let b = chars_of(block);
    let obs = p_flag_targets_chars(&b);
    let sorted = sort_obligations(&obs);
    let mut runs: Vec<Vec<char>> = Vec::new();
    let mut j: usize = 0;
    while j < run_lines.len()
        invariant
            0 <= j <= run_lines@.len(),
            views(runs@) == string_views(run_lines@).take(j as int),
        decreases run_lines@.len() - j,
    {
        let c = chars_of(run_lines[j].as_str());
        let ghost before = views(runs@);
        runs.push(c);
        j = j + 1;
        proof {
            assert(views(runs@) =~= before.push(c@));
            assert(views(runs@) =~= string_views(run_lines@).take(j as int));
        }
    }
    proof {
        assert(string_views(run_lines@).take(j as int) =~= string_views(run_lines@));
    }
    let ghost sv = obligation_views(sorted@);
    let ghost rv = views(runs@);
    let mut out: Vec<(String, Shape)> = Vec::new();
    let mut i: usize = 0;
    while i < sorted.len()
        invariant
            0 <= i <= sorted@.len(),
            sv == obligation_views(sorted@),
            rv == views(runs@),
            named_obligations(out@) == uncovered(sv.take(i as int), rv),
        decreases sorted@.len() - i,
    {
        proof {
            assert(sv.take(i + 1).drop_last() =~= sv.take(i as int));
            assert(sv.take(i + 1).last() == (sorted@[i as int].0@, sorted@[i as int].1));
        }
        let ghost before = out@;
        if !has_run_line_exec(&runs, &sorted[i].0, sorted[i].1) {
            let s = string_of(&sorted[i].0);
            out.push((s, sorted[i].1));
            proof {
                assert(named_obligations(out@) =~= named_obligations(before).push((sorted@[i as int].0@, sorted@[i as int].1)));
            }
        }
        i = i + 1;
        proof {
            assert(named_obligations(out@) =~= uncovered(
                sv.take(i as int),
                rv,
            ));
        }
    }
    proof {
        assert(sv.take(i as int) =~= sv);
        assert forall|o: (Seq<char>, Shape)| #[trigger]
            named_obligations(out@).contains(o) <==> (p_flag_targets_in(
                block@,
            ).contains(o) && !has_run_line(string_views(run_lines@), o)) by {
            lemma_uncovered_contains(sv, rv, o);
            assert(string_views(run_lines@) == rv);
            assert(obligation_views(obs@) == p_flag_targets_in(block@));
            assert(sv.contains(o) <==> obligation_views(obs@).contains(o));
        }
    }
    out
}

// ---------------------------------------------------------------------
// The for-loop targets, and the integration test files
// ---------------------------------------------------------------------

/// The literal targets of the block's `for t in … ; do` loop: the words
/// between `for t in ` and `; do`, without the lone `\` continuations.
pub open spec fn for_loop_targets_in(block: Seq<char>) -> Seq<Seq<char>> {
    match find(block, "for t in "@) {
        None => Seq::empty(),
        Some(s) => {
            let after = block.skip(s + "for t in "@.len());
            match find(after, "; do"@) {
                None => Seq::empty(),
                Some(e) => drop_backslashes(words(after.take(e))),
            }
        },
    }
}

pub open spec fn drop_backslashes(ws: Seq<Seq<char>>) -> Seq<Seq<char>>
    decreases ws.len(),
{
    if ws.len() == 0 {
        Seq::empty()
    } else {
        drop_backslashes(ws.drop_last()) + if ws.last() == seq!['\\'] {
            Seq::empty()
        } else {
            seq![ws.last()]
        }
    }
}

fn for_loop_targets_chars(block: &[char]) -> (r: Vec<Vec<char>>)
    ensures
        views(r@) == for_loop_targets_in(block@),
{
    let marker = chars_of("for t in ");
    let s = match find_chars(block, &marker) {
        None => return Vec::new(),
        Some(s) => s,
    };
    proof {
        lemma_find_from(block@, marker@, 0);
        assert(block@.len() == block.len());
    }
    let after = slice_chars(block, s + marker.len(), block.len());
    assert(after@ =~= block@.skip(s + "for t in "@.len()));
    let end_marker = chars_of("; do");
    let e = match find_chars(&after, &end_marker) {
        None => return Vec::new(),
        Some(e) => e,
    };
    proof {
        lemma_find_from(after@, end_marker@, 0);
    }
    let list = slice_chars(&after, 0, e);
    assert(list@ =~= after@.take(e as int));
    let ws = words_of(&list);
    let ghost wv = views(ws@);
    let mut out: Vec<Vec<char>> = Vec::new();
    let mut i: usize = 0;
    while i < ws.len()
        invariant
            0 <= i <= ws@.len(),
            wv == views(ws@),
            views(out@) == drop_backslashes(wv.take(i as int)),
        decreases ws@.len() - i,
    {
        proof {
            assert(wv.take(i + 1).drop_last() =~= wv.take(i as int));
            assert(wv.take(i + 1).last() == ws@[i as int]@);
        }
        let w = &ws[i];
        let lone = w.len() == 1 && w[0] == '\\';
        proof {
            if w@.len() == 1 {
                assert(lone <==> w@ =~= seq!['\\']);
            } else {
                assert(w@ != seq!['\\']);
            }
        }
        let ghost before = views(out@);
        if !lone {
            let c = copy_of(w);
            out.push(c);
            proof {
                assert(views(out@) =~= before.push(c@));
            }
        }
        i = i + 1;
        proof {
            assert(views(out@) =~= drop_backslashes(wv.take(i as int)));
        }
    }
    proof {
        assert(wv.take(i as int) =~= wv);
    }
    out
}

/// The literal target list of the block's `for t in … ; do` loop.
pub fn for_loop_targets(block: &str) -> (r: Vec<String>)
    ensures
        string_views(r@) == for_loop_targets_in(block@),
{
    let b = chars_of(block);
    let v = for_loop_targets_chars(&b);
    strings_of(&v)
}

/// `--test <target>`.
pub open spec fn test_flag(target: Seq<char>) -> Seq<char> {
    "--test "@ + target
}

/// A run line that runs `target` of the crate `name`.
pub open spec fn runs_target(line: Seq<char>, name: Seq<char>, target: Seq<char>) -> bool {
    at_word_boundary(line, p_flag(name)) && at_word_boundary(line, test_flag(target))
}

pub open spec fn target_run(runs: Seq<Seq<char>>, name: Seq<char>, target: Seq<char>) -> bool {
    exists|k: int| 0 <= k < runs.len() && runs_target(#[trigger] runs[k], name, target)
}

pub open spec fn targets_without_run(targets: Seq<Seq<char>>, runs: Seq<Seq<char>>, name: Seq<char>) -> Seq<Seq<char>>
    decreases targets.len(),
{
    if targets.len() == 0 {
        Seq::empty()
    } else {
        targets_without_run(targets.drop_last(), runs, name) + if target_run(
            runs,
            name,
            targets.last(),
        ) {
            Seq::empty()
        } else {
            seq![targets.last()]
        }
    }
}

/// A loop target has a run line of its own exactly when the loop-target
/// check leaves it out: once that check finds nothing, every target the
/// block's loop lists for the crate is run by CI.
pub proof fn lemma_loop_targets_reach_ci(targets: Seq<Seq<char>>, runs: Seq<Seq<char>>, name: Seq<char>, t: Seq<char>)
    requires
        targets.contains(t),
        targets_without_run(targets, runs, name).len() == 0,
    ensures
        target_run(runs, name, t),
    decreases targets.len(),
{
    let i = choose|i: int| 0 <= i < targets.len() && targets[i] == t;
    if i < targets.len() - 1 {
        assert(targets.drop_last()[i] == t);
        lemma_loop_targets_reach_ci(targets.drop_last(), runs, name, t);
    }
}

fn flag_with(prefix: &str, name: &[char]) -> (r: Vec<char>)
    ensures
        r@ == prefix@ + name@,
{
    let mut f = chars_of(prefix);
    push_all(&mut f, name);
    f
}

/// The loop targets of the crate `crate_name` that have no run line of
/// their own (`-p <crate> … --test <target>`).
pub fn missing_loop_targets(targets: &Vec<String>, run_lines: &Vec<String>, crate_name: &str) -> (r: Vec<String>)
    ensures
        string_views(r@) == targets_without_run(
            string_views(targets@),
            string_views(run_lines@),
            crate_name@,
        ),
{
    let name = chars_of(crate_name);
    let flag = p_flag_chars(&name);
    let ghost tv = string_views(targets@);
    let ghost rv = string_views(run_lines@);
    let mut out: Vec<Vec<char>> = Vec::new();
    let mut i: usize = 0;
    while i < targets.len()
        invariant
            0 <= i <= targets@.len(),
            tv == string_views(targets@),
            rv == string_views(run_lines@),
            flag@ == p_flag(crate_name@),
            views(out@) == targets_without_run(tv.take(i as int), rv, crate_name@),
        decreases targets@.len() - i,
    {
        proof {
            assert(tv.take(i + 1).drop_last() =~= tv.take(i as int));
            assert(tv.take(i + 1).last() == targets@[i as int]@);
        }
        let target = chars_of(targets[i].as_str());
        let tf = flag_with("--test ", &target);
        let mut found = false;
        let mut k: usize = 0;
        while k < run_lines.len()
            invariant
                0 <= k <= run_lines@.len(),
                rv == string_views(run_lines@),
                flag@ == p_flag(crate_name@),
                tf@ == test_flag(target@),
                found ==> target_run(rv, crate_name@, target@),
                !found ==> forall|m: int| 0 <= m < k ==> !runs_target(#[trigger] rv[m], crate_name@, target@),
            decreases run_lines@.len() - k,
        {
            let line = chars_of(run_lines[k].as_str());
            proof {
                assert(rv[k as int] == line@);
            }
            if word_boundary_chars(&line, &flag) && word_boundary_chars(&line, &tf) {
                found = true;
            }
            k = k + 1;
        }
        let ghost before = views(out@);
        if !found {
            out.push(target);
            proof {
                assert(views(out@) =~= before.push(target@));
            }
        }
        i = i + 1;
        proof {
            assert(views(out@) =~= targets_without_run(tv.take(i as int), rv, crate_name@));
        }
    }
    proof {
        assert(tv.take(i as int) =~= tv);
    }
    strings_of(&out)
}

/// A bare `-p <crate>` line: not commented out, no `--lib`, no `--test `.
pub open spec fn bare_line(line: Seq<char>, name: Seq<char>) -> bool {
    !commented(line) && at_word_boundary(line, p_flag(name)) && !contains(line, "--test "@)
        && !at_word_boundary(line, "--lib"@)
}

pub open spec fn has_bare(block: Seq<char>, name: Seq<char>) -> bool {
    exists|k: int| 0 <= k < lines(block).len() && bare_line(#[trigger] lines(block)[k], name)
}

fn has_bare_chars(block: &[char], name: &[char]) -> (r: bool)
    ensures
        r == has_bare(block@, name@),
{
    let ls = lines_of(block);
    let flag = p_flag_chars(name);
    let test_f = chars_of("--test ");
    let lib = chars_of("--lib");
    let ghost lv = views(ls@);
    let mut i: usize = 0;
    while i < ls.len()
        invariant
            0 <= i <= ls@.len(),
            lv == views(ls@),
            lv == lines(block@),
            flag@ == p_flag(name@),
            test_f@ == "--test "@,
            lib@ == "--lib"@,
            forall|k: int| 0 <= k < i ==> !bare_line(#[trigger] lv[k], name@),
        decreases ls@.len() - i,
    {
        let line = &ls[i];
        proof {
            assert(lv[i as int] == line@);
        }
        if !commented_exec(line) && word_boundary_chars(line, &flag) && !contains_chars(
            line,
            &test_f,
        ) && !word_boundary_chars(line, &lib) {
            return true;
        }
        i = i + 1;
    }
    false
}

/// True if `block` has a bare `-p <crate>` line: not commented out, no
/// `--lib`, no `--test `. Such a line runs every integration test binary
/// of the crate.
pub fn has_bare_line(block: &str, crate_name: &str) -> (r: bool)
    ensures
        r == has_bare(block@, crate_name@),
{
    let b = chars_of(block);
    let n = chars_of(crate_name);
    has_bare_chars(&b, &n)
}

/// A line that names `stem` as a `--test <stem>` target of the crate.
pub open spec fn literal_target_line(line: Seq<char>, name: Seq<char>, stem: Seq<char>) -> bool {
    !commented(line) && at_word_boundary(line, p_flag(name)) && at_word_boundary(line, test_flag(stem))
}

/// A line whose loop body runs `-p <crate> --test "$t"`.
pub open spec fn loop_line(line: Seq<char>, name: Seq<char>) -> bool {
    !commented(line) && at_word_boundary(line, p_flag(name)) && contains(line, "--test \"$t\""@)
}

/// `block` names `stem` as a `--test <stem>` target for the crate: a
/// literal line, or a `for` loop that runs the crate's `--test "$t"` and
/// lists `stem`.
pub open spec fn covers_target(block: Seq<char>, name: Seq<char>, stem: Seq<char>) -> bool {
    let ls = lines(block);
    (exists|k: int| 0 <= k < ls.len() && literal_target_line(#[trigger] ls[k], name, stem)) || (
    (exists|k: int| 0 <= k < ls.len() && loop_line(#[trigger] ls[k], name))
        && for_loop_targets_in(block).contains(stem))
}

fn covers_target_chars(block: &[char], name: &[char], stem: &[char]) -> (r: bool)
    ensures
        r == covers_target(block@, name@, stem@),
{
    let ls = lines_of(block);
    let ghost lv = views(ls@);
    let flag = p_flag_chars(name);
    let tf = flag_with("--test ", stem);
    let loop_flag = chars_of("--test \"$t\"");
    let mut literal = false;
    let mut looping = false;
    let mut i: usize = 0;
    while i < ls.len()
        invariant
            0 <= i <= ls@.len(),
            lv == views(ls@),
            lv == lines(block@),
            flag@ == p_flag(name@),
            tf@ == test_flag(stem@),
            loop_flag@ == "--test \"$t\""@,
            literal <==> exists|k: int| 0 <= k < i && literal_target_line(#[trigger] lv[k], name@, stem@),
            looping <==> exists|k: int| 0 <= k < i && loop_line(#[trigger] lv[k], name@),
        decreases ls@.len() - i,
    {
        let line = &ls[i];
        proof {
            assert(lv[i as int] == line@);
        }
        let open = !commented_exec(line) && word_boundary_chars(line, &flag);
        if open && word_boundary_chars(line, &tf) {
            literal = true;
        }
        if open && contains_chars(line, &loop_flag) {
            looping = true;
        }
        i = i + 1;
    }
    if literal {
        return true;
    }
    if !looping {
        return false;
    }
    let targets = for_loop_targets_chars(block);
    let r = contains_target(&targets, stem);
    r
}

fn contains_target(items: &Vec<Vec<char>>, x: &[char]) -> (r: bool)
    ensures
        r == views(items@).contains(x@),
{
    let ghost iv = views(items@);
    let mut i: usize = 0;
    while i < items.len()
        invariant
            0 <= i <= items@.len(),
            iv == views(items@),
            forall|k: int| 0 <= k < i ==> iv[k] != x@,
        decreases items@.len() - i,
    {
        if eq_chars(&items[i], x) {
            proof {
                assert(iv[i as int] == x@);
            }
            return true;
        }
        i = i + 1;
    }
    false
}

/// True if `block` names `stem` as a `--test <stem>` target for the crate,
/// on a literal line or through the `for` loop.
pub fn covers_test_target(block: &str, crate_name: &str, stem: &str) -> (r: bool)
    ensures
        r == covers_target(block@, crate_name@, stem@),
{
    let b = chars_of(block);
    let n = chars_of(crate_name);
    let s = chars_of(stem);
    covers_target_chars(&b, &n, &s)
}

/// `<crate>/tests/<stem>.rs`.
pub open spec fn test_file(name: Seq<char>, stem: Seq<char>) -> Seq<char> {
    name + "/tests/"@ + stem + ".rs"@
}

pub open spec fn uncovered_stems(block: Seq<char>, name: Seq<char>, stems: Seq<Seq<char>>) -> Seq<Seq<char>>
    decreases stems.len(),
{
    if stems.len() == 0 {
        Seq::empty()
    } else {
        uncovered_stems(block, name, stems.drop_last()) + if covers_target(
            block,
            name,
            stems.last(),
        ) {
            Seq::empty()
        } else {
            seq![test_file(name, stems.last())]
        }
    }
}

proof fn lemma_uncovered_stems_empty(block: Seq<char>, name: Seq<char>, stems: Seq<Seq<char>>)
    ensures
        uncovered_stems(block, name, stems).len() == 0 <==> forall|i: int|
            0 <= i < stems.len() ==> covers_target(block, name, #[trigger] stems[i]),
    decreases stems.len(),
{
    if stems.len() > 0 {
        let t = stems.drop_last();
        lemma_uncovered_stems_empty(block, name, t);
        if forall|i: int| 0 <= i < stems.len() ==> covers_target(block, name, #[trigger] stems[i]) {
            assert forall|i: int| 0 <= i < t.len() implies covers_target(block, name, #[trigger] t[i]) by {
                assert(t[i] == stems[i]);
                assert(covers_target(block, name, stems[i]));
            }
            assert(covers_target(block, name, stems[stems.len() - 1]));
        }
        if uncovered_stems(block, name, stems).len() == 0 {
            assert forall|i: int| 0 <= i < stems.len() implies covers_target(block, name, #[trigger] stems[i]) by {
                if i < stems.len() - 1 {
                    assert(t[i] == stems[i]);
                    assert(covers_target(block, name, t[i]));
                }
            }
        }
    }
}

/// The filesystem-to-block check finds nothing exactly when every
/// integration test file is run by the block: its crate has a bare line,
/// or the block names the file's target.
pub proof fn lemma_no_missing_test_files(crates: Seq<(Seq<char>, Seq<Seq<char>>)>, block: Seq<char>)
    ensures
        missing_test_files_of(crates, block).len() == 0 <==> forall|c: int, i: int|
            0 <= c < crates.len() && 0 <= i < crates[c].1.len() ==> has_bare(block, crates[c].0)
                || covers_target(block, crates[c].0, #[trigger] crates[c].1[i]),
    decreases crates.len(),
{
    if crates.len() > 0 {
        let t = crates.drop_last();
        let last = crates.last();
        lemma_no_missing_test_files(t, block);
        lemma_uncovered_stems_empty(block, last.0, last.1);
        let all = forall|c: int, i: int|
            0 <= c < crates.len() && 0 <= i < crates[c].1.len() ==> has_bare(block, crates[c].0)
                || covers_target(block, crates[c].0, #[trigger] crates[c].1[i]);
        if all {
            assert forall|c: int, i: int|
                0 <= c < t.len() && 0 <= i < t[c].1.len() implies has_bare(block, t[c].0)
                || covers_target(block, t[c].0, #[trigger] t[c].1[i]) by {
                assert(t[c] == crates[c]);
                assert(has_bare(block, crates[c].0) || covers_target(block, crates[c].0, crates[c].1[i]));
            }
            if !has_bare(block, last.0) {
                assert forall|i: int| 0 <= i < last.1.len() implies covers_target(block, last.0, #[trigger] last.1[i]) by {
                    assert(crates[crates.len() - 1] == last);
                    assert(has_bare(block, crates[crates.len() - 1].0) || covers_target(
                        block,
                        crates[crates.len() - 1].0,
                        crates[crates.len() - 1].1[i],
                    ));
                }
            }
        }
        if missing_test_files_of(crates, block).len() == 0 {
            assert forall|c: int, i: int|
                0 <= c < crates.len() && 0 <= i < crates[c].1.len() implies has_bare(block, crates[c].0)
                || covers_target(block, crates[c].0, #[trigger] crates[c].1[i]) by {
                if c < crates.len() - 1 {
                    assert(t[c] == crates[c]);
                    assert(has_bare(block, t[c].0) || covers_target(block, t[c].0, t[c].1[i]));
                } else {
                    assert(crates[c] == last);
                    if !has_bare(block, last.0) {
                        assert(covers_target(block, last.0, last.1[i]));
                    }
                }
            }
        }
    }
}

pub open spec fn crate_views(v: Seq<(String, Vec<String>)>) -> Seq<(Seq<char>, Seq<Seq<char>>)> {
    v.map_values(|c: (String, Vec<String>)| (c.0@, string_views(c.1@)))
}

/// The integration test files that no line of the block runs: for each
/// crate without a bare line, each stem the block does not name.
pub open spec fn missing_test_files_of(crates: Seq<(Seq<char>, Seq<Seq<char>>)>, block: Seq<char>) -> Seq<Seq<char>>
    decreases crates.len(),
{
    if crates.len() == 0 {
        Seq::empty()
    } else {
        let c = crates.last();
        missing_test_files_of(crates.drop_last(), block) + if has_bare(block, c.0) {
            Seq::empty()
        } else {
            uncovered_stems(block, c.0, c.1)
        }
    }
}

/// The files `<crate>/tests/<stem>.rs`, among `crates` (each crate with
/// the stems of its integration test files), that the block never runs.
pub fn missing_test_files(crates: &Vec<(String, Vec<String>)>, block: &str) -> (r: Vec<String>)
    ensures
        string_views(r@) == missing_test_files_of(crate_views(crates@), block@),
{
    let b = chars_of(block);
    let ghost cv = crate_views(crates@);
    let mut out: Vec<Vec<char>> = Vec::new();
    let mut i: usize = 0;
    while i < crates.len()
        invariant
            0 <= i <= crates@.len(),
            b@ == block@,
            cv == crate_views(crates@),
            views(out@) == missing_test_files_of(cv.take(i as int), block@),
        decreases crates@.len() - i,
    {
        proof {
            assert(cv.take(i + 1).drop_last() =~= cv.take(i as int));
            assert(cv.take(i + 1).last() == cv[i as int]);
        }
        let name = chars_of(crates[i].0.as_str());
        let stems = &crates[i].1;
        proof {
            assert(cv[i as int] == (name@, string_views(stems@)));
        }
        if !has_bare_chars(&b, &name) {
            let ghost sv = string_views(stems@);
            let ghost mid = views(out@);
            let mut k: usize = 0;
            while k < stems.len()
                invariant
                    0 <= k <= stems@.len(),
                    b@ == block@,
                    sv == string_views(stems@),
                    views(out@) == mid + uncovered_stems(block@, name@, sv.take(k as int)),
                decreases stems@.len() - k,
            {
                proof {
                    assert(sv.take(k + 1).drop_last() =~= sv.take(k as int));
                    assert(sv.take(k + 1).last() == stems@[k as int]@);
                }
                let stem = chars_of(stems[k].as_str());
                let ghost before = views(out@);
                if !covers_target_chars(&b, &name, &stem) {
                    let mut f = copy_of(&name);
                    push_str_chars(&mut f, "/tests/");
                    push_all(&mut f, &stem);
                    push_str_chars(&mut f, ".rs");
                    out.push(f);
                    proof {
                        assert(views(out@) =~= before.push(test_file(name@, stem@)));
                    }
                }
                k = k + 1;
                proof {
                    assert(views(out@) =~= mid + uncovered_stems(block@, name@, sv.take(k as int)));
                }
            }
            proof {
                assert(sv.take(k as int) =~= sv);
            }
        }
        i = i + 1;
        proof {
            assert(views(out@) =~= missing_test_files_of(cv.take(i as int), block@));
        }
    }
    proof {
        assert(cv.take(i as int) =~= cv);
    }
    strings_of(&out)
}

pub open spec fn members_without_line(members: Seq<Seq<char>>, block: Seq<char>) -> Seq<Seq<char>>
    decreases members.len(),
{
    if members.len() == 0 {
        Seq::empty()
    } else {
        members_without_line(members.drop_last(), block) + if covers_own_lib(block, members.last()) {
            Seq::empty()
        } else {
            seq![members.last()]
        }
    }
}

/// The workspace members that no line of the block covers in their own
/// library scope.
pub fn missing_members(members: &Vec<String>, block: &str) -> (r: Vec<String>)
    ensures
        string_views(r@) == members_without_line(string_views(members@), block@),
{
    let b = chars_of(block);
    let ghost mv = string_views(members@);
    let mut out: Vec<Vec<char>> = Vec::new();
    let mut i: usize = 0;
    while i < members.len()
        invariant
            0 <= i <= members@.len(),
            b@ == block@,
            mv == string_views(members@),
            views(out@) == members_without_line(mv.take(i as int), block@),
        decreases members@.len() - i,
    {
        proof {
            assert(mv.take(i + 1).drop_last() =~= mv.take(i as int));
            assert(mv.take(i + 1).last() == members@[i as int]@);
        }
        let name = chars_of(members[i].as_str());
        let ghost before = views(out@);
        if !covers_own_lib_chars(&b, &name) {
            out.push(name);
            proof {
                assert(views(out@) =~= before.push(members@[i as int]@));
            }
        }
        i = i + 1;
        proof {
            assert(views(out@) =~= members_without_line(mv.take(i as int), block@));
        }
    }
    proof {
        assert(mv.take(i as int) =~= mv);
    }
    strings_of(&out)
}

} // verus!
