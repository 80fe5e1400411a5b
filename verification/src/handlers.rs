//! Request bodies and the exact computations behind the REST endpoints:
//! error statuses, new profiles and the per-day activity of a learner.

use vstd::prelude::*;

use crate::models::{EventRow, Profile, Timestamp};
use crate::repo::RepoError;
use crate::laws::{law_activity_total, total_count};
use crate::time::{date_text, has_utc_date, utc_day};
use crate::text::{lemma_text_le_total, lemma_text_le_transitive, text_eq, text_le, text_le_exec};

verus! {

/// The HTTP status for a repository error: 404 when the record is missing,
/// 500 when the store failed.
pub fn error_status(e: &RepoError) -> (r: u16)
    ensures
        r == (match e {
            RepoError::NotFound => 404u16,
            RepoError::Store(_) => 500u16,
        }),
{
    match e {
        RepoError::NotFound => 404,
        RepoError::Store(_) => 500,
    }
}

/// Body of a profile-creation request.
#[derive(Debug)]
pub struct NewProfile {
    pub name: String,
    pub level: String,
    /// Interest tags; absent in the request means none.
    pub interests: Vec<String>,
}

impl NewProfile {
    /// The profile this request creates, under identifier `id`, created at `created_at`.
    pub fn into_profile(self, id: u128, created_at: Timestamp) -> (p: Profile)
        ensures
            p.id == id,
            p.name == self.name,
            p.level == self.level,
            p.interests@ == self.interests@,
            p.created_at == created_at,
    {
        Profile { id, name: self.name, level: self.level, interests: self.interests, created_at }
    }
}

/// Body of a URL-ingestion request.
#[derive(Debug)]
pub struct IngestUrl {
    pub url: String,
}

/// Body of a comprehension-test generation request.
#[derive(Debug)]
pub struct GenTest {
    pub concept: String,
    /// Context for the question; absent in the request means empty.
    pub context: String,
}

/// Number of reviews on one calendar day (UTC).
#[derive(Debug)]
pub struct ActivityDay {
    /// The day as `YYYY-MM-DD`.
    pub date: String,
    pub count: usize,
}

/// The number of times `d` occurs in `dates`.
pub open spec fn occurrences(dates: Seq<Seq<char>>, d: Seq<char>) -> nat
    decreases dates.len(),
{
    if dates.len() == 0 {
        0
    } else {
        occurrences(dates.drop_last(), d) + (if dates.last() == d {
            1nat
        } else {
            0nat
        })
    }
}

/// `a` comes strictly before `b` in text order.
pub open spec fn text_lt(a: Seq<char>, b: Seq<char>) -> bool {
    text_le(a, b) && a != b
}

/// `days` tallies `dates`: one entry per distinct date, in increasing date
/// order, each with the number of times its date occurs.
pub open spec fn tallies(days: Seq<ActivityDay>, dates: Seq<Seq<char>>) -> bool {
    &&& forall|i: int, j: int| 0 <= i < j < days.len() ==> text_lt(days[i].date@, days[j].date@)
    &&& forall|i: int| 0 <= i < days.len() ==> (#[trigger] days[i]).count == occurrences(dates, days[i].date@)
        && days[i].count > 0
    &&& forall|k: int|
        #![trigger dates[k]]
        0 <= k < dates.len() ==> exists|i: int| 0 <= i < days.len() && (#[trigger] days[i]).date@ == dates[k]
}

/// The texts of a sequence of strings.
pub open spec fn texts(s: Seq<String>) -> Seq<Seq<char>> {
    s.map_values(|x: String| x@)
}

/// Appending a date adds one occurrence of it and none of any other.
pub proof fn lemma_occurrences_push(dates: Seq<Seq<char>>, x: Seq<char>, d: Seq<char>)
    ensures
        occurrences(dates.push(x), d) == occurrences(dates, d) + (if x == d { 1nat } else { 0nat }),
{
    assert(dates.push(x).drop_last() =~= dates);
}

proof fn lemma_occurrences_positive(dates: Seq<Seq<char>>, k: int)
    requires
        0 <= k < dates.len(),
    ensures
        occurrences(dates, dates[k]) > 0,
    decreases dates.len(),
{
    if k < dates.len() - 1 {
        lemma_occurrences_positive(dates.drop_last(), k);
    }
}

/// One entry per distinct date of `dates`, in increasing date order, with
/// the number of times each date occurs.
pub fn count_by_day(dates: &Vec<String>) -> (r: Vec<ActivityDay>)
    ensures
        tallies(r@, texts(dates@)),
{
    let ghost all = texts(dates@);
    let mut r: Vec<ActivityDay> = Vec::new();
    let mut k: usize = 0;
    while k < dates.len()
        invariant
            all == texts(dates@),
            k <= dates@.len(),
            tallies(r@, all.take(k as int)),
            forall|i: int| 0 <= i < r@.len() ==> (#[trigger] r@[i]).count <= k,
        decreases dates.len() - k,
    {
        let ghost seen = all.take(k as int);
        let ghost d = all[k as int];
        assert(all.take(k + 1) =~= seen.push(d));
        assert(dates@[k as int]@ == d);
        let ghost before = r@;
        let found_at = day_index(&r, dates[k].as_str());
        if let Some(j) = found_at {
            let c = r[j].count + 1;
            let day = ActivityDay { date: dates[k].clone(), count: c };
            r.set(j, day);
            proof {
                assert forall|i: int| 0 <= i < r@.len() implies (#[trigger] r@[i]).count == occurrences(all.take(k + 1), r@[i].date@)
                    && r@[i].count > 0 by {
                    lemma_occurrences_push(seen, d, r@[i].date@);
                    assert(all.take(k + 1) == seen.push(d));
                    if i != j {
                        assert(r@[i] == before[i]);
                        assert(before[i].count == occurrences(seen, before[i].date@));
                        assert(before[i].date@ != d) by {
                            assert(text_lt(before[i].date@, before[j as int].date@) || text_lt(before[j as int].date@, before[i].date@));
                        }
                    } else {
                        assert(before[i].date@ == d);
                        assert(before[i].count == occurrences(seen, d));
                        assert(r@[i].count == before[i].count + 1);
                        assert(r@[i].date@ == d);
                    }
                }
                assert forall|m: int| #![trigger all.take(k + 1)[m]] 0 <= m < k + 1 implies exists|i: int| 0 <= i < r@.len() && (#[trigger] r@[i]).date@ == all.take(k + 1)[m] by {
                    if m < k {
                        assert(all.take(k + 1)[m] == seen[m]);
                        let i = choose|i: int| 0 <= i < before.len() && (#[trigger] before[i]).date@ == seen[m];
                        assert(r@[i].date@ == before[i].date@);
                    } else {
                        assert(r@[j as int].date@ == d);
                    }
                }
                assert forall|a: int, b: int| 0 <= a < b < r@.len() implies text_lt(r@[a].date@, r@[b].date@) by {
                    assert(r@[a].date@ == before[a].date@ && r@[b].date@ == before[b].date@);
                }
            }
        } else {
            let p = insertion_point(&r, dates[k].as_str());
            let day = ActivityDay { date: dates[k].clone(), count: 1 };
            r.insert(p, day);
            proof {
                before.insert_ensures(p as int, day);
                assert forall|i: int| p < i < r@.len() implies text_lt(d, (#[trigger] r@[i]).date@) by {
                    assert(r@[i] == before[i - 1]);
                    let q = before[p as int].date@;
                    lemma_text_le_total(q, d);
                    if p < i - 1 {
                        assert(text_lt(q, before[i - 1].date@));
                        lemma_text_le_transitive(d, q, before[i - 1].date@);
                    }
                }
                assert forall|a: int, b: int| 0 <= a < b < r@.len() implies text_lt(r@[a].date@, r@[b].date@) by {
                    if a < p && b < p {
                        assert(r@[a] == before[a] && r@[b] == before[b]);
                    } else if a < p && b == p {
                        assert(r@[a] == before[a]);
                    } else if a < p {
                        assert(r@[a] == before[a] && r@[b] == before[b - 1]);
                    } else if a == p {
                    } else {
                        assert(r@[a] == before[a - 1] && r@[b] == before[b - 1]);
                    }
                }
                assert forall|i: int| 0 <= i < r@.len() implies (#[trigger] r@[i]).count == occurrences(all.take(k + 1), r@[i].date@)
                    && r@[i].count > 0 by {
                    lemma_occurrences_push(seen, d, r@[i].date@);
                    if i == p {
                        if occurrences(seen, d) > 0 {
                            lemma_occurrence_listed(seen, d);
                            let m = choose|m: int| 0 <= m < seen.len() && seen[m] == d;
                            let ii = choose|ii: int| 0 <= ii < before.len() && (#[trigger] before[ii]).date@ == seen[m];
                        }
                    } else if i < p {
                        assert(r@[i] == before[i]);
                    } else {
                        assert(r@[i] == before[i - 1]);
                    }
                }
                assert forall|m: int| #![trigger all.take(k + 1)[m]] 0 <= m < k + 1 implies exists|i: int| 0 <= i < r@.len() && (#[trigger] r@[i]).date@ == all.take(k + 1)[m] by {
                    if m < k {
                        assert(all.take(k + 1)[m] == seen[m]);
                        let i = choose|i: int| 0 <= i < before.len() && (#[trigger] before[i]).date@ == seen[m];
                        if i < p {
                            assert(r@[i] == before[i]);
                        } else {
                            assert(r@[i + 1] == before[i]);
                        }
                    } else {
                        assert(r@[p as int].date@ == d);
                    }
                }
            }
        }
        k += 1;
    }
    assert(all.take(dates@.len() as int) =~= all);
    r
}

/// The position of the entry for day `d`, if any.
fn day_index(days: &Vec<ActivityDay>, d: &str) -> (r: Option<usize>)
    ensures
        match r {
            Some(j) => j < days@.len() && days@[j as int].date@ == d@,
            None => forall|i: int| 0 <= i < days@.len() ==> (#[trigger] days@[i]).date@ != d@,
        },
{
    let mut j: usize = 0;
    while j < days.len()
        invariant
            j <= days@.len(),
            forall|i: int| 0 <= i < j ==> (#[trigger] days@[i]).date@ != d@,
        decreases days.len() - j,
    {
        if text_eq(days[j].date.as_str(), d) {
            return Some(j);
        }
        j += 1;
    }
    None
}

/// The number of leading entries whose day comes no later than `d`.
fn insertion_point(days: &Vec<ActivityDay>, d: &str) -> (p: usize)
    ensures
        p <= days@.len(),
        forall|i: int| 0 <= i < p ==> text_le((#[trigger] days@[i]).date@, d@),
        p < days@.len() ==> !text_le(days@[p as int].date@, d@),
{
    let mut p: usize = 0;
    while p < days.len() && text_le_exec(days[p].date.as_str(), d)
        invariant
            p <= days@.len(),
            forall|i: int| 0 <= i < p ==> text_le((#[trigger] days@[i]).date@, d@),
        decreases days.len() - p,
    {
        p += 1;
    }
    p
}

/// The UTC dates of `events`, in order, leaving out events whose time has no
/// calendar date.
pub open spec fn event_days(events: Seq<EventRow>) -> Seq<Seq<char>>
    decreases events.len(),
{
    if events.len() == 0 {
        Seq::empty()
    } else {
        let rest = event_days(events.drop_last());
        if has_utc_date(events.last().created_at) {
            rest.push(date_text(events.last().created_at.secs as int))
        } else {
            rest
        }
    }
}

/// Every event's time has a UTC date.
pub open spec fn all_dated(events: Seq<EventRow>) -> bool {
    forall|k: int| 0 <= k < events.len() ==> has_utc_date(#[trigger] events[k].created_at)
}

/// Reviews per UTC day: one entry per day on which `events` has a review,
/// in increasing date order, with the number of reviews that day.
pub fn activity(events: &Vec<EventRow>) -> (r: Vec<ActivityDay>)
    ensures
        tallies(r@, event_days(events@)),
        all_dated(events@) ==> total_count(r@) == events@.len(),
{
    let mut dates: Vec<String> = Vec::new();
    let mut i: usize = 0;
    while i < events.len()
        invariant
            i <= events@.len(),
            texts(dates@) == event_days(events@.take(i as int)),
            all_dated(events@) ==> dates@.len() == i,
        decreases events.len() - i,
    {
        assert(events@.take(i + 1).drop_last() =~= events@.take(i as int));
        assert(events@.take(i + 1).last() == events@[i as int]);
        let ghost before = dates@;
        match utc_day(events[i].created_at) {
            Some(d) => {
                dates.push(d);
                assert(texts(dates@) =~= texts(before).push(dates@[dates@.len() - 1]@));
            },
            None => {},
        }
        i += 1;
    }
    assert(events@.take(events@.len() as int) =~= events@);
    let r = count_by_day(&dates);
    proof {
        law_activity_total(r@, texts(dates@));
    }
    r
}

/// A date with occurrences occurs somewhere.
proof fn lemma_occurrence_listed(dates: Seq<Seq<char>>, d: Seq<char>)
    requires
        occurrences(dates, d) > 0,
    ensures
        exists|m: int| 0 <= m < dates.len() && dates[m] == d,
    decreases dates.len(),
{
    if dates.last() == d {
        assert(dates[dates.len() - 1] == d);
    } else {
        lemma_occurrence_listed(dates.drop_last(), d);
        let m = choose|m: int| 0 <= m < dates.len() - 1 && dates.drop_last()[m] == d;
        assert(dates[m] == d);
    }
}

} // verus!
