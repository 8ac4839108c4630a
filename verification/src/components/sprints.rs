//! The sprint pages: the velocity chart's reference line (the median of
//! the points completed per sprint) and the status badges.
use vstd::prelude::*;
use vstd::relations::{sorted_by, total_ordering};
use crate::handlers::sprints::SprintStatus;

verus! {

broadcast use vstd::seq_lib::group_to_multiset_ensures;

/// The order of the points: ascending.
pub open spec fn ascending_order() -> spec_fn(i64, i64) -> bool {
    |a: i64, b: i64| a <= b
}

/// The points in ascending order.
pub open spec fn ascending(s: Seq<i64>) -> Seq<i64> {
    s.sort_by(ascending_order())
}

/// Integer halving as `/ 2` does on `i64`: toward zero.
pub open spec fn half_toward_zero(x: int) -> int {
    if x >= 0 {
        x / 2
    } else {
        -((-x) / 2)
    }
}

/// The median of the points: 0 for none, the middle one of an odd count,
/// and the halved sum (toward zero) of the two middle ones of an even
/// count.
pub open spec fn median_of(s: Seq<i64>) -> int {
    let t = ascending(s);
    let n = t.len() as int;
    if n == 0 {
        0
    } else if n % 2 == 1 {
        t[n / 2] as int
    } else {
        half_toward_zero(t[n / 2 - 1] + t[n / 2])
    }
}

/// The two middle points of an even count sum to an `i64`.
pub open spec fn median_fits(s: Seq<i64>) -> bool {
    let t = ascending(s);
    let n = t.len() as int;
    n > 0 && n % 2 == 0 ==> i64::MIN <= t[n / 2 - 1] + t[n / 2] <= i64::MAX
}

proof fn lemma_ascending(s: Seq<i64>)
    ensures
        sorted_by(ascending(s), ascending_order()),
        ascending(s).to_multiset() == s.to_multiset(),
        ascending(s).len() == s.len(),
{
    assert(total_ordering(ascending_order()));
    s.lemma_sort_by_ensures(ascending_order());
    s.to_multiset_ensures();
    ascending(s).to_multiset_ensures();
}

/// The points in ascending order.
fn sort_points(points: &Vec<i64>) -> (r: Vec<i64>)
    ensures
        r@ == ascending(points@),
{
    let mut r: Vec<i64> = Vec::new();
    let mut i: usize = 0;
    while i < points.len()
        invariant
            i <= points.len(),
            sorted_by(r@, ascending_order()),
            r@.to_multiset() == points@.take(i as int).to_multiset(),
        decreases points.len() - i,
    {
        let x = points[i];
        let mut p: usize = 0;
        while p < r.len() && r[p] <= x
            invariant
                p <= r.len(),
                forall|k: int| 0 <= k < p ==> r@[k] <= x,
            decreases r.len() - p,
        {
            p = p + 1;
        }
        let ghost old_r = r@;
        r.insert(p, x);
        proof {
            vstd::seq_lib::to_multiset_insert(old_r, p as int, x);
            assert(points@.take(i + 1) =~= points@.take(i as int).push(x));
            vstd::seq_lib::to_multiset_build(points@.take(i as int), x);
            assert forall|a: int, b: int| 0 <= a < b < r@.len() implies #[trigger] (ascending_order())(
                r@[a],
                r@[b],
            ) by {
                if b < p {
                    assert((ascending_order())(old_r[a], old_r[b]));
                } else if b == p {
                    assert(r@[a] == old_r[a]);
                } else if a == p {
                    assert(r@[b] == old_r[b - 1]);
                    if p < old_r.len() {
                        assert(!(old_r[p as int] <= x));
                        if b - 1 > p {
                            assert((ascending_order())(old_r[p as int], old_r[b - 1]));
                        }
                    }
                } else if a < p {
                    assert(r@[b] == old_r[b - 1]);
                    assert((ascending_order())(old_r[a], old_r[b - 1]));
                } else {
                    assert((ascending_order())(old_r[a - 1], old_r[b - 1]));
                }
            }
        }
        i = i + 1;
    }
    proof {
        assert(points@.take(points.len() as int) =~= points@);
        lemma_ascending(points@);
        vstd::seq_lib::lemma_sorted_unique(r@, ascending(points@), ascending_order());
    }
    r
}

/// The median of the points completed per sprint, the chart's reference
/// line.
pub fn velocity_median(completed: &Vec<i64>) -> (r: i64)
    requires
        median_fits(completed@),
    ensures
        r == median_of(completed@),
{
    let t = sort_points(completed);
    proof {
        lemma_ascending(completed@);
    }
    let n = t.len();
    if n == 0 {
        0
    } else if n % 2 == 1 {
        t[n / 2]
    } else {
        let mid = n / 2;
        let sum = t[mid - 1] + t[mid];
        if sum >= 0 {
            sum / 2
        } else {
            let m = 0 - (sum + 1);
            0 - (m / 2 + m % 2)
        }
    }
}


/// The badge classes of a sprint's status: the small badge of a sprint
/// card in the list, or the full-size one of the sprint's own pages.
pub open spec fn sprint_badge(status: SprintStatus, small: bool) -> Seq<char> {
    match (status, small) {
        (SprintStatus::Active, true) => "badge badge-sm badge-primary"@,
        (SprintStatus::Planned, true) => "badge badge-sm badge-ghost"@,
        (SprintStatus::Completed, true) => "badge badge-sm badge-outline"@,
        (SprintStatus::Active, false) => "badge badge-primary"@,
        (SprintStatus::Planned, false) => "badge badge-ghost"@,
        (SprintStatus::Completed, false) => "badge badge-outline"@,
    }
}

/// The badge classes of a sprint's status, small on a list card.
pub fn sprint_badge_class(status: SprintStatus, small: bool) -> (r: &'static str)
    ensures
        r@ == sprint_badge(status, small),
{
    match status {
        SprintStatus::Active => if small { "badge badge-sm badge-primary" } else { "badge badge-primary" },
        SprintStatus::Planned => if small { "badge badge-sm badge-ghost" } else { "badge badge-ghost" },
        SprintStatus::Completed => if small { "badge badge-sm badge-outline" } else { "badge badge-outline" },
    }
}

} // verus!
