//! Breadcrumb trails: their nodes, the entry point every trail starts
//! from, and the back link beneath them.
use vstd::prelude::*;
use crate::text::{chars_of, push_str_chars, string_of};

verus! {

/// One node of a breadcrumb trail: a label, and the link of an ancestor
/// (`None` on the terminal "you are here" node).
pub struct BreadcrumbItem {
    pub label: String,
    pub href: Option<String>,
}

impl BreadcrumbItem {
    /// A clickable ancestor node.
    pub fn link(label: &str, href: &str) -> (r: Self)
        ensures
            r.label@ == label@,
            r.href matches Some(h) && h@ == href@,
    {
        BreadcrumbItem { label: string_of(&chars_of(label)), href: Some(string_of(&chars_of(href))) }
    }

    /// The terminal node, not clickable.
    pub fn current(label: &str) -> (r: Self)
        ensures
            r.label@ == label@,
            r.href is None,
    {
        BreadcrumbItem { label: string_of(&chars_of(label)), href: None }
    }
}


/// The trail a page renders: the `Today` link, the entry point of every
/// detail page, then the page's own nodes in order.
pub fn breadcrumb_trail(items: Vec<BreadcrumbItem>) -> (r: Vec<BreadcrumbItem>)
    ensures
        r@.len() == items@.len() + 1,
        r@[0].label@ == "Today"@,
        r@[0].href matches Some(h) && h@ == "/today"@,
        r@.skip(1) == items@,
{
    let mut all = items;
    all.insert(0, BreadcrumbItem::link("Today", "/today"));
    proof {
        assert(all@.skip(1) =~= items@);
    }
    all
}

/// The accessible name of the back link beneath the breadcrumb.
pub fn back_link_aria(label: &str) -> (r: String)
    ensures
        r@ == "Back to "@ + label@,
{
    let mut out = chars_of("Back to ");
    push_str_chars(&mut out, label);
    string_of(&out)
}

} // verus!
