//! Properties of the library that relate several operations: what a read
//! gives back of a write, what a write leaves alone, and how listings and
//! tallies relate to what is stored.

use vstd::prelude::*;

use crate::handlers::{lemma_occurrences_push, occurrences, tallies, ActivityDay};
use crate::models::{ConceptView, ContentItemView, Course, FreshnessRecord, Profile, ProfileView};
use crate::repo::{
    concept_stored, course_stored, curriculum_slot, freshness_read, freshness_stored, has_concept, has_item,
    item_stored, lists_courses, lists_freshness_of, lists_profiles, profile_read, profile_stored, RepoError,
    RepoView,
};

verus! {

/// A profile stored with `create_profile` or `insert_profile` is what
/// `get_profile` then returns for its identifier.
pub proof fn law_profile_read_after_write(before: RepoView, after: RepoView, p: Profile, r: Result<Profile, RepoError>)
    requires
        profile_stored(before, after, p@),
        profile_read(after, p.id, r),
    ensures
        r matches Ok(q) && q@ == p@,
{
}

/// Storing a profile leaves what `get_profile` returns for every other
/// identifier as it was.
pub proof fn law_profile_write_is_local(
    before: RepoView,
    after: RepoView,
    p: Profile,
    other: u128,
    r0: Result<Profile, RepoError>,
    r1: Result<Profile, RepoError>,
)
    requires
        profile_stored(before, after, p@),
        other != p.id,
        profile_read(before, other, r0),
        profile_read(after, other, r1),
    ensures
        r0 is Ok <==> r1 is Ok,
        r0 matches Ok(a) ==> (r1 matches Ok(b) && a@ == b@),
{
}

/// Inserting the same course twice leaves the store as inserting it once.
pub proof fn law_course_insert_idempotent(v0: RepoView, v1: RepoView, v2: RepoView, c: Course)
    requires
        course_stored(v0, v1, c),
        course_stored(v1, v2, c),
    ensures
        v2 == v1,
{
    assert(v2.courses =~= v1.courses);
}

/// Once a concept is stored, a concept with its identifier stays stored.
proof fn lemma_concept_present(v0: RepoView, v1: RepoView, c: ConceptView)
    requires
        concept_stored(v0, v1, c),
    ensures
        has_concept(v1.concepts, c.id),
        forall|id: u128| has_concept(v0.concepts, id) ==> #[trigger] has_concept(v1.concepts, id),
{
    if !has_concept(v0.concepts, c.id) {
        let p = choose|p: int|
            #[trigger] curriculum_slot(v0.concepts, p, c) && v1 == (RepoView { concepts: v0.concepts.insert(p, c), ..v0 });
        assert(v1.concepts[p] == c);
        assert forall|id: u128| has_concept(v0.concepts, id) implies #[trigger] has_concept(v1.concepts, id) by {
            let k = choose|k: int| 0 <= k < v0.concepts.len() && v0.concepts[k].id == id;
            if k < p {
                assert(v1.concepts[k] == v0.concepts[k]);
            } else {
                assert(v1.concepts[k + 1] == v0.concepts[k]);
            }
        }
    }
}

/// Inserting the same concept twice leaves the store as inserting it once:
/// the second insertion finds its identifier and changes nothing.
pub proof fn law_concept_insert_idempotent(v0: RepoView, v1: RepoView, v2: RepoView, c: ConceptView)
    requires
        concept_stored(v0, v1, c),
        concept_stored(v1, v2, c),
    ensures
        v2 == v1,
{
    lemma_concept_present(v0, v1, c);
}

/// Once an item is stored, an item with its identifier stays stored.
proof fn lemma_item_present(v0: RepoView, v1: RepoView, i: ContentItemView)
    requires
        item_stored(v0, v1, i),
    ensures
        has_item(v1.items, i.id),
        forall|id: u128| has_item(v0.items, id) ==> #[trigger] has_item(v1.items, id),
{
    if !has_item(v0.items, i.id) {
        assert(v1.items[v0.items.len() as int] == i);
        assert forall|id: u128| has_item(v0.items, id) implies #[trigger] has_item(v1.items, id) by {
            let k = choose|k: int| 0 <= k < v0.items.len() && v0.items[k].id == id;
            assert(v1.items[k] == v0.items[k]);
        }
    }
}

/// Inserting the same content item twice leaves the store as inserting it
/// once: the second insertion finds its identifier and changes nothing.
pub proof fn law_item_insert_idempotent(v0: RepoView, v1: RepoView, v2: RepoView, i: ContentItemView)
    requires
        item_stored(v0, v1, i),
        item_stored(v1, v2, i),
    ensures
        v2 == v1,
{
    lemma_item_present(v0, v1, i);
}

/// `after` is `before` with the concepts `cs` inserted one after another
/// with `insert_concept`.
pub open spec fn concepts_stored_all(before: RepoView, after: RepoView, cs: Seq<ConceptView>) -> bool
    decreases cs.len(),
{
    if cs.len() == 0 {
        after == before
    } else {
        exists|mid: RepoView|
            concepts_stored_all(before, mid, cs.drop_last()) && #[trigger] concept_stored(mid, after, cs.last())
    }
}

/// `after` is `before` with the content items `items` inserted one after
/// another with `insert_item`.
pub open spec fn items_stored_all(before: RepoView, after: RepoView, items: Seq<ContentItemView>) -> bool
    decreases items.len(),
{
    if items.len() == 0 {
        after == before
    } else {
        exists|mid: RepoView|
            items_stored_all(before, mid, items.drop_last()) && #[trigger] item_stored(mid, after, items.last())
    }
}

/// After inserting concepts one by one, each of them is stored.
proof fn lemma_concepts_all_present(v0: RepoView, v1: RepoView, cs: Seq<ConceptView>)
    requires
        concepts_stored_all(v0, v1, cs),
    ensures
        forall|j: int| 0 <= j < cs.len() ==> has_concept(v1.concepts, (#[trigger] cs[j]).id),
    decreases cs.len(),
{
    if cs.len() > 0 {
        let mid = choose|mid: RepoView|
            concepts_stored_all(v0, mid, cs.drop_last()) && #[trigger] concept_stored(mid, v1, cs.last());
        lemma_concepts_all_present(v0, mid, cs.drop_last());
        lemma_concept_present(mid, v1, cs.last());
        assert forall|j: int| 0 <= j < cs.len() implies has_concept(v1.concepts, (#[trigger] cs[j]).id) by {
            if j < cs.len() - 1 {
                assert(cs.drop_last()[j] == cs[j]);
                assert(has_concept(mid.concepts, cs[j].id));
            }
        }
    }
}

/// Inserting concepts that are all stored already changes nothing.
proof fn lemma_concepts_already_present(v1: RepoView, v2: RepoView, cs: Seq<ConceptView>)
    requires
        concepts_stored_all(v1, v2, cs),
        forall|j: int| 0 <= j < cs.len() ==> has_concept(v1.concepts, (#[trigger] cs[j]).id),
    ensures
        v2 == v1,
    decreases cs.len(),
{
    if cs.len() > 0 {
        let mid = choose|mid: RepoView|
            concepts_stored_all(v1, mid, cs.drop_last()) && #[trigger] concept_stored(mid, v2, cs.last());
        assert forall|j: int| 0 <= j < cs.drop_last().len() implies has_concept(v1.concepts, (#[trigger] cs.drop_last()[j]).id) by {
            assert(cs.drop_last()[j] == cs[j]);
        }
        lemma_concepts_already_present(v1, mid, cs.drop_last());
        assert(has_concept(v1.concepts, cs[cs.len() - 1].id));
    }
}

/// Seeding concepts is idempotent: inserting the same concepts a second
/// time, one after another, leaves the store as the first time left it.
pub proof fn law_concepts_seeded_twice(v0: RepoView, v1: RepoView, v2: RepoView, cs: Seq<ConceptView>)
    requires
        concepts_stored_all(v0, v1, cs),
        concepts_stored_all(v1, v2, cs),
    ensures
        v2 == v1,
{
    lemma_concepts_all_present(v0, v1, cs);
    lemma_concepts_already_present(v1, v2, cs);
}

/// After inserting items one by one, each of them is stored.
proof fn lemma_items_all_present(v0: RepoView, v1: RepoView, items: Seq<ContentItemView>)
    requires
        items_stored_all(v0, v1, items),
    ensures
        forall|j: int| 0 <= j < items.len() ==> has_item(v1.items, (#[trigger] items[j]).id),
    decreases items.len(),
{
    if items.len() > 0 {
        let mid = choose|mid: RepoView|
            items_stored_all(v0, mid, items.drop_last()) && #[trigger] item_stored(mid, v1, items.last());
        lemma_items_all_present(v0, mid, items.drop_last());
        lemma_item_present(mid, v1, items.last());
        assert forall|j: int| 0 <= j < items.len() implies has_item(v1.items, (#[trigger] items[j]).id) by {
            if j < items.len() - 1 {
                assert(items.drop_last()[j] == items[j]);
                assert(has_item(mid.items, items[j].id));
            }
        }
    }
}

/// Inserting items that are all stored already changes nothing.
proof fn lemma_items_already_present(v1: RepoView, v2: RepoView, items: Seq<ContentItemView>)
    requires
        items_stored_all(v1, v2, items),
        forall|j: int| 0 <= j < items.len() ==> has_item(v1.items, (#[trigger] items[j]).id),
    ensures
        v2 == v1,
    decreases items.len(),
{
    if items.len() > 0 {
        let mid = choose|mid: RepoView|
            items_stored_all(v1, mid, items.drop_last()) && #[trigger] item_stored(mid, v2, items.last());
        assert forall|j: int| 0 <= j < items.drop_last().len() implies has_item(v1.items, (#[trigger] items.drop_last()[j]).id) by {
            assert(items.drop_last()[j] == items[j]);
        }
        lemma_items_already_present(v1, mid, items.drop_last());
        assert(has_item(v1.items, items[items.len() - 1].id));
    }
}

/// Seeding content items is idempotent: inserting the same items a second
/// time, one after another, leaves the store as the first time left it.
pub proof fn law_items_seeded_twice(v0: RepoView, v1: RepoView, v2: RepoView, items: Seq<ContentItemView>)
    requires
        items_stored_all(v0, v1, items),
        items_stored_all(v1, v2, items),
    ensures
        v2 == v1,
{
    lemma_items_all_present(v0, v1, items);
    lemma_items_already_present(v1, v2, items);
}

/// A freshness record stored with `upsert_freshness` is what
/// `get_freshness` then returns for its (profile, concept), and what it
/// returns for every other (profile, concept) stays as it was.
pub proof fn law_freshness_read_after_write(
    before: RepoView,
    after: RepoView,
    rec: FreshnessRecord,
    r: Result<Option<FreshnessRecord>, RepoError>,
    other: (u128, u128),
    r0: Result<Option<FreshnessRecord>, RepoError>,
    r1: Result<Option<FreshnessRecord>, RepoError>,
)
    requires
        freshness_stored(before, after, rec),
        freshness_read(after, rec.profile_id, rec.concept_id, r),
        other != (rec.profile_id, rec.concept_id),
        freshness_read(before, other.0, other.1, r0),
        freshness_read(after, other.0, other.1, r1),
    ensures
        r == Ok::<Option<FreshnessRecord>, RepoError>(Some(rec)),
        r1 == r0,
{
}

/// Listing profiles returns exactly as many profiles as are stored.
pub proof fn law_profile_listing_counts(m: Map<u128, ProfileView>, v: Seq<Profile>)
    requires
        lists_profiles(m, v),
    ensures
        m.dom().finite(),
        m.dom().len() == v.len(),
{
    let ids = v.map_values(|p: Profile| p.id);
    assert(m.dom() =~= ids.to_set()) by {
        assert forall|k: u128| m.dom().contains(k) implies ids.to_set().contains(k) by {
            let i = choose|i: int| 0 <= i < v.len() && v[i].id == k;
            assert(ids[i] == k);
        }
        assert forall|k: u128| ids.to_set().contains(k) implies m.dom().contains(k) by {
            let i = choose|i: int| 0 <= i < ids.len() && ids[i] == k;
            assert(m.contains_key(v[i].id));
        }
    }
    assert(ids.no_duplicates()) by {
        assert forall|i: int, j: int| 0 <= i < ids.len() && 0 <= j < ids.len() && i != j implies ids[i] != ids[j] by {
            assert(v[i].id != v[j].id);
        }
    }
    ids.unique_seq_to_set();
}

/// Listing courses returns exactly as many courses as are stored.
pub proof fn law_course_listing_counts(m: Map<u128, Course>, v: Seq<Course>)
    requires
        lists_courses(m, v),
    ensures
        m.dom().finite(),
        m.dom().len() == v.len(),
{
    let ids = v.map_values(|c: Course| c.id);
    assert(m.dom() =~= ids.to_set()) by {
        assert forall|k: u128| m.dom().contains(k) implies ids.to_set().contains(k) by {
            let i = choose|i: int| 0 <= i < v.len() && v[i].id == k;
            assert(ids[i] == k);
        }
        assert forall|k: u128| ids.to_set().contains(k) implies m.dom().contains(k) by {
            let i = choose|i: int| 0 <= i < ids.len() && ids[i] == k;
            assert(m.contains_key(v[i].id));
        }
    }
    assert(ids.no_duplicates()) by {
        assert forall|i: int, j: int| 0 <= i < ids.len() && 0 <= j < ids.len() && i != j implies ids[i] != ids[j] by {
            assert(v[i].id != v[j].id);
        }
    }
    ids.unique_seq_to_set();
}

/// The freshness listing of a profile has one record per concept that the
/// profile has a record for.
pub proof fn law_freshness_listing_counts(m: Map<(u128, u128), FreshnessRecord>, profile_id: u128, v: Seq<FreshnessRecord>)
    requires
        lists_freshness_of(m, profile_id, v),
    ensures
        Set::new(|c: u128| m.contains_key((profile_id, c))).finite(),
        Set::new(|c: u128| m.contains_key((profile_id, c))).len() == v.len(),
{
    let ids = v.map_values(|r: FreshnessRecord| r.concept_id);
    let s = Set::new(|c: u128| m.contains_key((profile_id, c)));
    assert(s =~= ids.to_set()) by {
        assert forall|c: u128| s.contains(c) implies ids.to_set().contains(c) by {
            assert(m.contains_key((profile_id, c)));
            let i = choose|i: int| 0 <= i < v.len() && v[i].concept_id == c;
            assert(ids[i] == c);
        }
        assert forall|c: u128| ids.to_set().contains(c) implies s.contains(c) by {
            let i = choose|i: int| 0 <= i < ids.len() && ids[i] == c;
            assert(v[i].profile_id == profile_id);
        }
    }
    assert(ids.no_duplicates()) by {
        assert forall|i: int, j: int| 0 <= i < ids.len() && 0 <= j < ids.len() && i != j implies ids[i] != ids[j] by {
            assert(v[i].concept_id != v[j].concept_id);
        }
    }
    ids.unique_seq_to_set();
}

/// An object stored with `put` is what `get` then returns, and a key never
/// stored stays missing.
pub proof fn law_object_read_after_write(
    objects: Map<(Seq<char>, Seq<char>), Seq<u8>>,
    bucket: Seq<char>,
    key: Seq<char>,
    body: Seq<u8>,
    other: (Seq<char>, Seq<char>),
)
    ensures
        objects.insert((bucket, key), body)[(bucket, key)] == body,
        other != (bucket, key) && !objects.contains_key(other) ==> !objects.insert((bucket, key), body).contains_key(
            other,
        ),
{
}

/// A user created with `create_user` is found by `get_user` under the
/// returned identifier, with the given email address.
pub proof fn law_identity_roundtrip(users: Map<Seq<char>, Seq<char>>, id: Seq<char>, email: Seq<char>)
    ensures
        users.insert(id, email).contains_key(id),
        users.insert(id, email)[id] == email,
{
}

/// The sum of the counts of `days`.
pub open spec fn total_count(days: Seq<ActivityDay>) -> nat
    decreases days.len(),
{
    if days.len() == 0 {
        0
    } else {
        total_count(days.drop_last()) + days.last().count as nat
    }
}

/// The sum, over the entries of `days`, of the occurrences of their dates in `dates`.
spec fn occurrences_of_days(days: Seq<ActivityDay>, dates: Seq<Seq<char>>) -> nat
    decreases days.len(),
{
    if days.len() == 0 {
        0
    } else {
        occurrences_of_days(days.drop_last(), dates) + occurrences(dates, days.last().date@)
    }
}

/// The number of entries of `days` dated `d`.
spec fn entries_dated(days: Seq<ActivityDay>, d: Seq<char>) -> nat
    decreases days.len(),
{
    if days.len() == 0 {
        0
    } else {
        entries_dated(days.drop_last(), d) + (if days.last().date@ == d {
            1nat
        } else {
            0nat
        })
    }
}

proof fn lemma_occurrences_of_days_empty(days: Seq<ActivityDay>)
    ensures
        occurrences_of_days(days, Seq::empty()) == 0,
    decreases days.len(),
{
    if days.len() > 0 {
        lemma_occurrences_of_days_empty(days.drop_last());
    }
}

proof fn lemma_occurrences_of_days_push(days: Seq<ActivityDay>, dates: Seq<Seq<char>>, x: Seq<char>)
    ensures
        occurrences_of_days(days, dates.push(x)) == occurrences_of_days(days, dates) + entries_dated(days, x),
    decreases days.len(),
{
    if days.len() > 0 {
        lemma_occurrences_of_days_push(days.drop_last(), dates, x);
        lemma_occurrences_push(dates, x, days.last().date@);
    }
}

proof fn lemma_entries_dated_distinct(days: Seq<ActivityDay>, k: int)
    requires
        0 <= k < days.len(),
        forall|i: int, j: int| 0 <= i < days.len() && 0 <= j < days.len() && i != j ==> days[i].date@ != days[j].date@,
    ensures
        entries_dated(days, days[k].date@) == 1,
    decreases days.len(),
{
    let d = days[k].date@;
    let rest = days.drop_last();
    if k == days.len() - 1 {
        lemma_entries_dated_absent(rest, d);
    } else {
        assert(rest[k] == days[k]);
        lemma_entries_dated_distinct(rest, k);
    }
}

proof fn lemma_entries_dated_absent(days: Seq<ActivityDay>, d: Seq<char>)
    requires
        forall|i: int| 0 <= i < days.len() ==> (#[trigger] days[i]).date@ != d,
    ensures
        entries_dated(days, d) == 0,
    decreases days.len(),
{
    if days.len() > 0 {
        assert(days[days.len() - 1].date@ != d);
        lemma_entries_dated_absent(days.drop_last(), d);
    }
}

proof fn lemma_occurrences_cover(days: Seq<ActivityDay>, dates: Seq<Seq<char>>)
    requires
        forall|i: int, j: int| 0 <= i < days.len() && 0 <= j < days.len() && i != j ==> days[i].date@ != days[j].date@,
        forall|k: int|
            #![trigger dates[k]]
            0 <= k < dates.len() ==> exists|i: int| 0 <= i < days.len() && (#[trigger] days[i]).date@ == dates[k],
    ensures
        occurrences_of_days(days, dates) == dates.len(),
    decreases dates.len(),
{
    if dates.len() == 0 {
        assert(dates =~= Seq::<Seq<char>>::empty());
        lemma_occurrences_of_days_empty(days);
    } else {
        let rest = dates.drop_last();
        let x = dates.last();
        assert forall|k: int| #![trigger rest[k]] 0 <= k < rest.len() implies exists|i: int|
            0 <= i < days.len() && (#[trigger] days[i]).date@ == rest[k] by {
            assert(rest[k] == dates[k]);
        }
        lemma_occurrences_cover(days, rest);
        assert(dates =~= rest.push(x));
        lemma_occurrences_of_days_push(days, rest, x);
        assert(dates[dates.len() - 1] == x);
        let i = choose|i: int| 0 <= i < days.len() && (#[trigger] days[i]).date@ == dates[dates.len() - 1];
        lemma_entries_dated_distinct(days, i);
    }
}

proof fn lemma_total_is_occurrences(days: Seq<ActivityDay>, dates: Seq<Seq<char>>)
    requires
        forall|i: int| 0 <= i < days.len() ==> (#[trigger] days[i]).count == occurrences(dates, days[i].date@),
    ensures
        total_count(days) == occurrences_of_days(days, dates),
    decreases days.len(),
{
    if days.len() > 0 {
        let rest = days.drop_last();
        assert forall|i: int| 0 <= i < rest.len() implies (#[trigger] rest[i]).count == occurrences(dates, rest[i].date@) by {
            assert(rest[i] == days[i]);
        }
        lemma_total_is_occurrences(rest, dates);
        assert(days[days.len() - 1] == days.last());
    }
}

/// The per-day counts of a tally add up to the number of dates tallied:
/// every dated review is counted on exactly one day.
pub proof fn law_activity_total(days: Seq<ActivityDay>, dates: Seq<Seq<char>>)
    requires
        tallies(days, dates),
    ensures
        total_count(days) == dates.len(),
{
    assert forall|i: int, j: int| 0 <= i < days.len() && 0 <= j < days.len() && i != j implies days[i].date@ != days[j].date@ by {
        if i < j {
            assert(crate::handlers::text_lt(days[i].date@, days[j].date@));
        } else {
            assert(crate::handlers::text_lt(days[j].date@, days[i].date@));
        }
    }
    lemma_total_is_occurrences(days, dates);
    lemma_occurrences_cover(days, dates);
}

} // verus!
