//! Small textual guards over the crate's own sources: no muted text
//! below the `/70` contrast floor, no hand-rolled space-only query
//! encoding, and no test harness that derives a temp path from the clock.
use vstd::prelude::*;
use crate::js_scan::{strip_line_comments_chars, without_line_comments};
use crate::text::{chars_of, contains, contains_chars, string_of, string_views};

verus! {

/// The `text-base-content` opacity modifiers below the `/70` floor.
pub open spec fn banned_modifiers() -> Seq<Seq<char>> {
    seq![
        "text-base-content/10"@,
        "text-base-content/20"@,
        "text-base-content/30"@,
        "text-base-content/40"@,
        "text-base-content/50"@,
        "text-base-content/60"@,
    ]
}

/// The banned modifiers `source` uses, in the order of the list.
pub open spec fn banned_in(source: Seq<char>, mods: Seq<Seq<char>>) -> Seq<Seq<char>>
    decreases mods.len(),
{
    if mods.len() == 0 {
        Seq::empty()
    } else {
        banned_in(source, mods.drop_last()) + if contains(source, mods.last()) {
            seq![mods.last()]
        } else {
            Seq::empty()
        }
    }
}

/// The opacity modifiers below the `/70` floor that `source` uses.
pub fn banned_modifiers_in(source: &str) -> (r: Vec<String>)
    ensures
        string_views(r@) == banned_in(source@, banned_modifiers()),
{
    let s = chars_of(source);
    let mods: [&str; 6] = [
        "text-base-content/10",
        "text-base-content/20",
        "text-base-content/30",
        "text-base-content/40",
        "text-base-content/50",
        "text-base-content/60",
    ];
    let ghost mv = banned_modifiers();
    let mut out: Vec<String> = Vec::new();
    let mut i: usize = 0;
    while i < 6
        invariant
            0 <= i <= 6,
            mv == banned_modifiers(),
            mods@.len() == 6,
            forall|k: int| 0 <= k < 6 ==> (#[trigger] mods@[k])@ == mv[k],
            string_views(out@) == banned_in(source@, mv.take(i as int)),
            s@ == source@,
        decreases 6 - i,
    {
        proof {
            assert(mv.take(i + 1).drop_last() =~= mv.take(i as int));
            assert(mv.take(i + 1).last() == mv[i as int]);
        }
        let m = chars_of(mods[i]);
        let ghost before = string_views(out@);
        if contains_chars(&s, &m) {
            out.push(string_of(&m));
            proof {
                assert(string_views(out@) =~= before.push(m@));
            }
        }
        i = i + 1;
        proof {
            assert(string_views(out@) =~= banned_in(source@, mv.take(i as int)));
        }
    }
    proof {
        assert(mv.take(6) =~= mv);
    }
    out
}

/// Whether `source` encodes a query by replacing spaces alone:
/// `.replace(' ', "+")`.
pub fn uses_space_only_replace(source: &str) -> (r: bool)
    ensures
        r == contains(source@, ".replace(' ', \"+\")"@),
{
    let s = chars_of(source);
    let p = chars_of(".replace(' ', \"+\")");
    contains_chars(&s, &p)
}

/// A harness that builds a temp path from the clock: its code (comments
/// stripped) calls both `SystemTime::now()` and `create_dir_all`.
pub open spec fn clock_path(source: Seq<char>) -> bool {
    let code = without_line_comments(source);
    contains(code, "SystemTime::now()"@) && contains(code, "create_dir_all"@)
}

/// Whether a test harness constructs a temp path from the clock.
pub fn constructs_a_path_from_the_clock(source: &str) -> (r: bool)
    ensures
        r == clock_path(source@),
{
    let s = chars_of(source);
    let code = strip_line_comments_chars(&s);
    let now = chars_of("SystemTime::now()");
    let mk = chars_of("create_dir_all");
    contains_chars(&code, &now) && contains_chars(&code, &mk)
}

} // verus!
