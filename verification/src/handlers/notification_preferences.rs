//! The notification preference forms, and the preferences a saved table
//! sets.
use vstd::prelude::*;
use std::collections::HashMap;
use crate::config::{eq_ignore_ascii_case, ignore_ascii_case_eq};
use crate::text::{chars_of, eq_chars, push_str_chars, string_views};

verus! {

/// The one-time e-mail prompt: `yes` opts in, `no` acknowledges without
/// opting in.
pub struct GlobalAckForm {
    pub email_opt_in: String,
}

/// The preference table as flat keys: `channel__{kind}__{channel} = on`
/// and `min_severity__{kind} = info|watch`.
pub struct PreferenceForm {
    pub raw: HashMap<String, String>,
}

/// Whether the one-time prompt's answer opts in to e-mail: `yes`, in any
/// ASCII case.
pub fn email_opt_in(form: &GlobalAckForm) -> (r: bool)
    ensures
        r == eq_ignore_ascii_case(form.email_opt_in@, "yes"@),
{
    ignore_ascii_case_eq(&chars_of(form.email_opt_in.as_str()), &chars_of("yes"))
}

/// The lowest severity a kind notifies at.
#[derive(Debug, Clone, Copy, PartialEq, Eq, Structural)]
pub enum MinSeverity {
    Info,
    Watch,
}

/// What a saved table sets for one kind: the channels ticked, in the
/// channels' order, and the lowest severity.
pub struct KindPreference {
    pub kind: String,
    pub channels: Vec<String>,
    pub min_severity: MinSeverity,
}

/// The field of the table's checkbox for a kind on a channel.
pub open spec fn channel_key(kind: Seq<char>, channel: Seq<char>) -> Seq<char> {
    "channel__"@ + kind + "__"@ + channel
}

/// The field of the table's severity choice for a kind.
pub open spec fn severity_key(kind: Seq<char>) -> Seq<char> {
    "min_severity__"@ + kind
}

/// Some field of the form has the name `key`.
pub open spec fn has_field(fields: Seq<(String, String)>, key: Seq<char>) -> bool {
    exists|i: int| 0 <= i < fields.len() && (#[trigger] fields[i]).0@ == key
}

/// The channels of `channels` whose checkbox for `kind` is in the form.
pub open spec fn ticked_channels(
    fields: Seq<(String, String)>,
    kind: Seq<char>,
    channels: Seq<Seq<char>>,
) -> Seq<Seq<char>>
    decreases channels.len(),
{
    if channels.len() == 0 {
        Seq::empty()
    } else {
        let rest = ticked_channels(fields, kind, channels.drop_last());
        if has_field(fields, channel_key(kind, channels.last())) {
            rest.push(channels.last())
        } else {
            rest
        }
    }
}

/// `watch` where the kind's severity field says so, else `info`.
pub open spec fn severity_of(fields: Seq<(String, String)>, kind: Seq<char>) -> MinSeverity {
    if exists|i: int|
        0 <= i < fields.len() && (#[trigger] fields[i]).0@ == severity_key(kind) && fields[i].1@
            == "watch"@ {
        MinSeverity::Watch
    } else {
        MinSeverity::Info
    }
}

fn has_field_exec(fields: &Vec<(String, String)>, key: &Vec<char>) -> (r: bool)
    ensures
        r == has_field(fields@, key@),
{
    let mut i: usize = 0;
    while i < fields.len()
        invariant
            i <= fields.len(),
            forall|j: int| 0 <= j < i ==> (#[trigger] fields@[j]).0@ != key@,
        decreases fields.len() - i,
    {
        if eq_chars(&chars_of(fields[i].0.as_str()), key) {
            return true;
        }
        i = i + 1;
    }
    false
}

fn severity_exec(fields: &Vec<(String, String)>, kind: &str) -> (r: MinSeverity)
    ensures
        r == severity_of(fields@, kind@),
{
    let mut key = chars_of("min_severity__");
    push_str_chars(&mut key, kind);
    let watch = chars_of("watch");
    let mut i: usize = 0;
    while i < fields.len()
        invariant
            i <= fields.len(),
            key@ == severity_key(kind@),
            watch@ == "watch"@,
            forall|j: int|
                0 <= j < i ==> !((#[trigger] fields@[j]).0@ == key@ && fields@[j].1@ == "watch"@),
        decreases fields.len() - i,
    {
        if eq_chars(&chars_of(fields[i].0.as_str()), &key) && eq_chars(
            &chars_of(fields[i].1.as_str()),
            &watch,
        ) {
            return MinSeverity::Watch;
        }
        i = i + 1;
    }
    MinSeverity::Info
}

/// What a saved preference table sets for each kind, from the form's
/// fields (names distinct, as a form map holds them): a channel is on
/// where its checkbox field is present, and the severity is `watch` only
/// where the severity field says `watch`.
pub fn preferences_from(
    fields: &Vec<(String, String)>,
    kinds: &Vec<String>,
    channels: &Vec<String>,
) -> (r: Vec<KindPreference>)
    ensures
        r.len() == kinds.len(),
        forall|k: int|
            0 <= k < r.len() ==> {
                &&& (#[trigger] r[k]).kind@ == kinds@[k]@
                &&& string_views(r[k].channels@) == ticked_channels(
                    fields@,
                    kinds@[k]@,
                    string_views(channels@),
                )
                &&& r[k].min_severity == severity_of(fields@, kinds@[k]@)
            },
{
    let mut out: Vec<KindPreference> = Vec::new();
    let mut k: usize = 0;
    while k < kinds.len()
        invariant
            k <= kinds.len(),
            out.len() == k,
            forall|j: int|
                0 <= j < k ==> {
                    &&& (#[trigger] out[j]).kind@ == kinds@[j]@
                    &&& string_views(out[j].channels@) == ticked_channels(
                        fields@,
                        kinds@[j]@,
                        string_views(channels@),
                    )
                    &&& out[j].min_severity == severity_of(fields@, kinds@[j]@)
                },
        decreases kinds.len() - k,
    {
        let kind = kinds[k].as_str();
        let mut chosen: Vec<String> = Vec::new();
        let mut c: usize = 0;
        while c < channels.len()
            invariant
                c <= channels.len(),
                kind@ == kinds@[k as int]@,
                string_views(chosen@) == ticked_channels(
                    fields@,
                    kind@,
                    string_views(channels@).take(c as int),
                ),
            decreases channels.len() - c,
        {
            proof {
                assert(string_views(channels@).take(c + 1).drop_last() =~= string_views(channels@).take(
                    c as int,
                ));
            }
            let mut key = chars_of("channel__");
            push_str_chars(&mut key, kind);
            push_str_chars(&mut key, "__");
            push_str_chars(&mut key, channels[c].as_str());
            if has_field_exec(fields, &key) {
                chosen.push(channels[c].clone());
                proof {
                    assert(string_views(chosen@) =~= ticked_channels(
                        fields@,
                        kind@,
                        string_views(channels@).take(c as int),
                    ).push(channels@[c as int]@));
                }
            }
            c = c + 1;
        }
        proof {
            assert(string_views(channels@).take(channels.len() as int) =~= string_views(channels@));
        }
        let min_severity = severity_exec(fields, kind);
        out.push(KindPreference { kind: kinds[k].clone(), channels: chosen, min_severity });
        k = k + 1;
    }
    out
}

} // verus!
