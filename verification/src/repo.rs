//! The in-memory repository: profiles, courses, concepts, content items,
//! freshness records and review events, with the read and write operations
//! the learning engine uses.

use vstd::prelude::*;

use crate::fsrs::MemoryState;
use crate::keyed::{
    has_key, keyed_map, keys_unique, lemma_keyed_map_at, lemma_keyed_map_insert, lemma_keyed_map_push,
    lemma_keyed_map_remove, lemma_keyed_map_update, lemma_sorted_insert, lemma_sorted_remove, sorted_by,
};
use crate::models::{
    Concept, ConceptView, ContentItem, ContentItemView, Course, EventRow, FreshnessRecord, Profile,
    ProfileView, Timestamp,
};
use crate::text::{text_eq, text_le, text_le_exec, lemma_text_le_total, lemma_text_le_transitive};

verus! {

/// Why a repository operation failed.
#[derive(Debug)]
pub enum RepoError {
    /// The requested record does not exist.
    NotFound,
    /// The backing store failed; the message says how.
    Store(String),
}

/// A freshness record built from its parts.
pub fn freshness_record(
    profile_id: u128,
    concept_id: u128,
    memory: MemoryState,
    due: Option<Timestamp>,
    freshness_bits: u64,
    updated_at: Timestamp,
) -> (r: FreshnessRecord)
    ensures
        r == (FreshnessRecord { profile_id, concept_id, memory, due, freshness_bits, updated_at }),
{
    FreshnessRecord { profile_id, concept_id, memory, due, freshness_bits, updated_at }
}

/// Profiles are keyed by their identifier.
pub open spec fn profile_key() -> spec_fn(Profile) -> u128 {
    |p: Profile| p.id
}

/// The value of a stored profile.
pub open spec fn profile_val() -> spec_fn(Profile) -> ProfileView {
    |p: Profile| p@
}

/// Profiles are listed oldest first.
pub open spec fn created_le() -> spec_fn(Profile, Profile) -> bool {
    |a: Profile, b: Profile| a.created_at.spec_le(b.created_at)
}

/// Courses are keyed by their identifier.
pub open spec fn course_key() -> spec_fn(Course) -> u128 {
    |c: Course| c.id
}

/// The value of a stored course.
pub open spec fn course_val() -> spec_fn(Course) -> Course {
    |c: Course| c
}

/// Courses are listed in the order of their slugs.
pub open spec fn slug_le() -> spec_fn(Course, Course) -> bool {
    |a: Course, b: Course| text_le(a.slug@, b.slug@)
}

/// Concepts are kept in curriculum order.
pub open spec fn sequence_le() -> spec_fn(ConceptView, ConceptView) -> bool {
    |a: ConceptView, b: ConceptView| a.sequence <= b.sequence
}

/// Freshness records are keyed by (profile, concept).
pub open spec fn freshness_key() -> spec_fn(FreshnessRecord) -> (u128, u128) {
    |r: FreshnessRecord| (r.profile_id, r.concept_id)
}

/// The value of a stored freshness record.
pub open spec fn freshness_val() -> spec_fn(FreshnessRecord) -> FreshnessRecord {
    |r: FreshnessRecord| r
}

/// `after` is `before` with profile `p` stored under its identifier, in
/// place of any profile stored there.
pub open spec fn profile_stored(before: RepoView, after: RepoView, p: ProfileView) -> bool {
    after == (RepoView { profiles: before.profiles.insert(p.id, p), ..before })
}

/// `r` is what reading profile `id` from `v` gives: the stored profile, or
/// `NotFound` when there is none.
pub open spec fn profile_read(v: RepoView, id: u128, r: Result<Profile, RepoError>) -> bool {
    match r {
        Ok(p) => v.profiles.contains_key(id) && p@ == v.profiles[id],
        Err(e) => !v.profiles.contains_key(id) && e is NotFound,
    }
}

/// `after` is `before` with course `c` stored under its identifier, in place
/// of any course stored there.
pub open spec fn course_stored(before: RepoView, after: RepoView, c: Course) -> bool {
    after == (RepoView { courses: before.courses.insert(c.id, c), ..before })
}

/// Some concept of `s` has identifier `id`.
pub open spec fn has_concept(s: Seq<ConceptView>, id: u128) -> bool {
    exists|k: int| 0 <= k < s.len() && s[k].id == id
}

/// Position `p` of `s` is where `c` belongs in curriculum order: after every
/// concept whose sequence number is at most its own, before the rest.
pub open spec fn curriculum_slot(s: Seq<ConceptView>, p: int, c: ConceptView) -> bool {
    &&& 0 <= p <= s.len()
    &&& forall|k: int| 0 <= k < p ==> (#[trigger] s[k]).sequence <= c.sequence
    &&& forall|k: int| p <= k < s.len() ==> (#[trigger] s[k]).sequence > c.sequence
}

/// `after` is `before` with concept `c` stored: unchanged when a concept
/// with its identifier is already stored, else `c` added at its place in
/// curriculum order.
pub open spec fn concept_stored(before: RepoView, after: RepoView, c: ConceptView) -> bool {
    if has_concept(before.concepts, c.id) {
        after == before
    } else {
        exists|p: int|
            #[trigger] curriculum_slot(before.concepts, p, c) && after == (RepoView {
                concepts: before.concepts.insert(p, c),
                ..before
            })
    }
}

/// Some content item of `s` has identifier `id`.
pub open spec fn has_item(s: Seq<ContentItemView>, id: u128) -> bool {
    exists|k: int| 0 <= k < s.len() && s[k].id == id
}

/// `after` is `before` with content item `i` stored: unchanged when an item
/// with its identifier is already stored, else `i` appended.
pub open spec fn item_stored(before: RepoView, after: RepoView, i: ContentItemView) -> bool {
    if has_item(before.items, i.id) {
        after == before
    } else {
        after == (RepoView { items: before.items.push(i), ..before })
    }
}

/// `after` is `before` with `rec` stored under (its profile, its concept),
/// in place of any record stored there.
pub open spec fn freshness_stored(before: RepoView, after: RepoView, rec: FreshnessRecord) -> bool {
    after == (RepoView { freshness: before.freshness.insert((rec.profile_id, rec.concept_id), rec), ..before })
}

/// `r` is what reading the freshness of (profile, concept) from `v` gives:
/// the stored record, or `None` when there is none.
pub open spec fn freshness_read(v: RepoView, profile_id: u128, concept_id: u128, r: Result<Option<FreshnessRecord>, RepoError>) -> bool {
    r == Ok::<Option<FreshnessRecord>, RepoError>(
        if v.freshness.contains_key((profile_id, concept_id)) {
            Some(v.freshness[(profile_id, concept_id)])
        } else {
            None
        },
    )
}

/// `v` lists the profiles of `m`, each exactly once, oldest first.
pub open spec fn lists_profiles(m: Map<u128, ProfileView>, v: Seq<Profile>) -> bool {
    &&& forall|i: int| 0 <= i < v.len() ==> m.contains_key(#[trigger] v[i].id) && m[v[i].id] == v[i]@
    &&& forall|i: int, j: int| 0 <= i < v.len() && 0 <= j < v.len() && i != j ==> v[i].id != v[j].id
    &&& forall|k: u128| #[trigger] m.contains_key(k) ==> exists|i: int| 0 <= i < v.len() && v[i].id == k
    &&& forall|i: int, j: int| 0 <= i < j < v.len() ==> v[i].created_at.spec_le(v[j].created_at)
}

/// `v` lists the courses of `m`, each exactly once, in slug order.
pub open spec fn lists_courses(m: Map<u128, Course>, v: Seq<Course>) -> bool {
    &&& forall|i: int| 0 <= i < v.len() ==> m.contains_key(#[trigger] v[i].id) && m[v[i].id] == v[i]
    &&& forall|i: int, j: int| 0 <= i < v.len() && 0 <= j < v.len() && i != j ==> v[i].id != v[j].id
    &&& forall|k: u128| #[trigger] m.contains_key(k) ==> exists|i: int| 0 <= i < v.len() && v[i].id == k
    &&& forall|i: int, j: int| 0 <= i < j < v.len() ==> text_le(v[i].slug@, v[j].slug@)
}

/// `v` lists the freshness records of profile `profile_id` in `m`, each
/// exactly once.
pub open spec fn lists_freshness_of(m: Map<(u128, u128), FreshnessRecord>, profile_id: u128, v: Seq<FreshnessRecord>) -> bool {
    &&& forall|i: int|
        0 <= i < v.len() ==> (#[trigger] v[i]).profile_id == profile_id && m.contains_key((profile_id, v[i].concept_id))
            && m[(profile_id, v[i].concept_id)] == v[i]
    &&& forall|i: int, j: int| 0 <= i < v.len() && 0 <= j < v.len() && i != j ==> v[i].concept_id != v[j].concept_id
    &&& forall|c: u128| #[trigger] m.contains_key((profile_id, c)) ==> exists|i: int| 0 <= i < v.len() && v[i].concept_id == c
}

/// The concepts of course `course_id`.
pub open spec fn of_course(course_id: u128) -> spec_fn(ConceptView) -> bool {
    |c: ConceptView| c.course_id == course_id
}

/// The content items of course `course_id`.
pub open spec fn item_of_course(course_id: u128) -> spec_fn(ContentItemView) -> bool {
    |i: ContentItemView| i.course_id == course_id
}

/// The events of profile `profile_id`.
pub open spec fn event_of_profile(profile_id: u128) -> spec_fn(EventRow) -> bool {
    |e: EventRow| e.profile_id == profile_id
}

/// The contents of a repository.
pub struct RepoView {
    /// Each profile by identifier.
    pub profiles: Map<u128, ProfileView>,
    /// Each course by identifier.
    pub courses: Map<u128, Course>,
    /// All concepts in curriculum order (by sequence number; concepts with
    /// equal sequence numbers in the order they were inserted).
    pub concepts: Seq<ConceptView>,
    /// All content items in the order they were inserted.
    pub items: Seq<ContentItemView>,
    /// Each freshness record by (profile, concept).
    pub freshness: Map<(u128, u128), FreshnessRecord>,
    /// All review events in the order they were recorded.
    pub events: Seq<EventRow>,
}

/// An in-memory store. Profiles are kept oldest first and courses in slug
/// order, so that listing them needs no sorting.
pub struct MemoryRepo {
    profiles: Vec<Profile>,
    courses: Vec<Course>,
    concepts: Vec<Concept>,
    items: Vec<ContentItem>,
    freshness: Vec<FreshnessRecord>,
    events: Vec<EventRow>,
}

/// The values of a sequence of concepts.
pub open spec fn concept_views(s: Seq<Concept>) -> Seq<ConceptView> {
    s.map_values(|c: Concept| c@)
}

/// The values of a sequence of content items.
pub open spec fn item_views(s: Seq<ContentItem>) -> Seq<ContentItemView> {
    s.map_values(|i: ContentItem| i@)
}

impl View for MemoryRepo {
    type V = RepoView;

    closed spec fn view(&self) -> RepoView {
        RepoView {
            profiles: keyed_map(self.profiles@, profile_key(), profile_val()),
            courses: keyed_map(self.courses@, course_key(), course_val()),
            concepts: concept_views(self.concepts@),
            items: item_views(self.items@),
            freshness: keyed_map(self.freshness@, freshness_key(), freshness_val()),
            events: self.events@,
        }
    }
}

impl MemoryRepo {
    /// The store's internal invariant: one profile, course and freshness
    /// record per key; profiles oldest first, courses in slug order, concepts
    /// in curriculum order.
    #[verifier::type_invariant]
    closed spec fn wf(&self) -> bool {
        &&& keys_unique(self.profiles@, profile_key())
        &&& sorted_by(self.profiles@, created_le())
        &&& keys_unique(self.courses@, course_key())
        &&& sorted_by(self.courses@, slug_le())
        &&& sorted_by(concept_views(self.concepts@), sequence_le())
        &&& keys_unique(self.freshness@, freshness_key())
    }

    /// An empty store.
    pub fn new() -> (r: MemoryRepo)
        ensures
            r@.profiles == Map::<u128, ProfileView>::empty(),
            r@.courses == Map::<u128, Course>::empty(),
            r@.concepts == Seq::<ConceptView>::empty(),
            r@.items == Seq::<ContentItemView>::empty(),
            r@.freshness == Map::<(u128, u128), FreshnessRecord>::empty(),
            r@.events == Seq::<EventRow>::empty(),
    {
        let r = MemoryRepo {
            profiles: Vec::new(),
            courses: Vec::new(),
            concepts: Vec::new(),
            items: Vec::new(),
            freshness: Vec::new(),
            events: Vec::new(),
        };
        assert(r@.profiles =~= Map::<u128, ProfileView>::empty());
        assert(r@.courses =~= Map::<u128, Course>::empty());
        assert(r@.concepts =~= Seq::<ConceptView>::empty());
        assert(r@.items =~= Seq::<ContentItemView>::empty());
        assert(r@.freshness =~= Map::<(u128, u128), FreshnessRecord>::empty());
        r
    }

    /// The position of the profile with identifier `id`, if any.
    fn profile_index(&self, id: u128) -> (r: Option<usize>)
        ensures
            match r {
                Some(i) => i < self.profiles@.len() && self.profiles@[i as int].id == id,
                None => !has_key(self.profiles@, profile_key(), id),
            },
    {
        let mut i: usize = 0;
        while i < self.profiles.len()
            invariant
                i <= self.profiles@.len(),
                forall|k: int| 0 <= k < i ==> #[trigger] self.profiles@[k].id != id,
            decreases self.profiles.len() - i,
        {
            if self.profiles[i].id == id {
                return Some(i);
            }
            i += 1;
        }
        None
    }

    /// Stores `p`, replacing any profile with the same identifier.
    fn put_profile(&mut self, p: Profile)
        ensures
            final(self)@ == (RepoView { profiles: old(self)@.profiles.insert(p.id, p@), ..old(self)@ }),
    {
        proof {
            use_type_invariant(&*self);
        }
        let ghost before = self.profiles@;
        let found = self.profile_index(p.id);
        let mut profiles: Vec<Profile> = Vec::new();
        std::mem::swap(&mut profiles, &mut self.profiles);
        if let Some(i) = found {
            proof {
                lemma_keyed_map_remove(before, profile_key(), profile_val(), i as int);
                lemma_sorted_remove(before, created_le(), i as int);
            }
            profiles.remove(i);
        }
        let ghost mid = profiles@;
        assert(!has_key(mid, profile_key(), p.id));
        let mut j: usize = 0;
        while j < profiles.len() && profiles[j].created_at.le(&p.created_at)
            invariant
                profiles@ == mid,
                j <= mid.len(),
                forall|k: int| 0 <= k < j ==> (#[trigger] mid[k]).created_at.spec_le(p.created_at),
            decreases mid.len() - j,
        {
            j += 1;
        }
        proof {
            assert forall|k: int| 0 <= k < j implies created_le()(#[trigger] mid[k], p) by {}
            assert forall|k: int| j <= k < mid.len() implies created_le()(p, #[trigger] mid[k]) by {
                assert(created_le()(mid[j as int], mid[k]));
            }
            lemma_keyed_map_insert(mid, profile_key(), profile_val(), j as int, p);
            lemma_sorted_insert(mid, created_le(), j as int, p);
        }
        profiles.insert(j, p);
        assert(keyed_map(profiles@, profile_key(), profile_val()) =~= keyed_map(
            before,
            profile_key(),
            profile_val(),
        ).insert(p.id, p@));
        self.profiles = profiles;
    }

    /// The position of the course with identifier `id`, if any.
    fn course_index(&self, id: u128) -> (r: Option<usize>)
        ensures
            match r {
                Some(i) => i < self.courses@.len() && self.courses@[i as int].id == id,
                None => !has_key(self.courses@, course_key(), id),
            },
    {
        let mut i: usize = 0;
        while i < self.courses.len()
            invariant
                i <= self.courses@.len(),
                forall|k: int| 0 <= k < i ==> #[trigger] self.courses@[k].id != id,
            decreases self.courses.len() - i,
        {
            if self.courses[i].id == id {
                return Some(i);
            }
            i += 1;
        }
        None
    }

    /// Stores `c`, replacing any course with the same identifier.
    fn put_course(&mut self, c: Course)
        ensures
            final(self)@ == (RepoView { courses: old(self)@.courses.insert(c.id, c), ..old(self)@ }),
    {
        proof {
            use_type_invariant(&*self);
        }
        let ghost before = self.courses@;
        let found = self.course_index(c.id);
        let mut courses: Vec<Course> = Vec::new();
        std::mem::swap(&mut courses, &mut self.courses);
        if let Some(i) = found {
            proof {
                lemma_keyed_map_remove(before, course_key(), course_val(), i as int);
                lemma_sorted_remove(before, slug_le(), i as int);
            }
            courses.remove(i);
        }
        let ghost mid = courses@;
        assert(!has_key(mid, course_key(), c.id));
        let mut j: usize = 0;
        while j < courses.len() && text_le_exec(courses[j].slug.as_str(), c.slug.as_str())
            invariant
                courses@ == mid,
                j <= mid.len(),
                forall|k: int| 0 <= k < j ==> text_le((#[trigger] mid[k]).slug@, c.slug@),
            decreases mid.len() - j,
        {
            j += 1;
        }
        proof {
            assert forall|k: int| 0 <= k < j implies slug_le()(#[trigger] mid[k], c) by {}
            assert forall|k: int| j <= k < mid.len() implies slug_le()(c, #[trigger] mid[k]) by {
                assert(slug_le()(mid[j as int], mid[k]));
                lemma_text_le_total(mid[j as int].slug@, c.slug@);
                lemma_text_le_transitive(c.slug@, mid[j as int].slug@, mid[k].slug@);
            }
            lemma_keyed_map_insert(mid, course_key(), course_val(), j as int, c);
            lemma_sorted_insert(mid, slug_le(), j as int, c);
        }
        courses.insert(j, c);
        assert(keyed_map(courses@, course_key(), course_val()) =~= keyed_map(
            before,
            course_key(),
            course_val(),
        ).insert(c.id, c));
        self.courses = courses;
    }

    /// The position of the freshness record for (profile, concept), if any.
    fn freshness_index(&self, profile_id: u128, concept_id: u128) -> (r: Option<usize>)
        ensures
            match r {
                Some(i) => i < self.freshness@.len() && freshness_key()(self.freshness@[i as int]) == (
                profile_id,
                concept_id,
                ),
                None => !has_key(self.freshness@, freshness_key(), (profile_id, concept_id)),
            },
    {
        let mut i: usize = 0;
        while i < self.freshness.len()
            invariant
                i <= self.freshness@.len(),
                forall|k: int|
                    0 <= k < i ==> freshness_key()(#[trigger] self.freshness@[k]) != (profile_id, concept_id),
            decreases self.freshness.len() - i,
        {
            if self.freshness[i].profile_id == profile_id && self.freshness[i].concept_id == concept_id {
                return Some(i);
            }
            i += 1;
        }
        None
    }

    /// Stores `p` under its identifier, replacing any profile stored there.
    pub fn insert_profile(&mut self, p: Profile)
        ensures
            profile_stored(old(self)@, final(self)@, p@),
    {
        self.put_profile(p);
    }

    /// Stores course `c` under its identifier, replacing any course stored there.
    pub fn insert_course(&mut self, c: Course) -> (r: Result<(), RepoError>)
        ensures
            r is Ok,
            course_stored(old(self)@, final(self)@, c),
    {
        self.put_course(c);
        Ok(())
    }

    /// Adds concept `c` in curriculum order (after every concept whose
    /// sequence number is at most its own, before every concept with a larger
    /// one), unless a concept with its identifier is already stored, which
    /// leaves the store unchanged.
    pub fn insert_concept(&mut self, c: Concept) -> (r: Result<(), RepoError>)
        ensures
            r is Ok,
            concept_stored(old(self)@, final(self)@, c@),
    {
        proof {
            use_type_invariant(&*self);
        }
        let ghost before = self.concepts@;
        let ghost bv = concept_views(before);
        let mut k: usize = 0;
        while k < self.concepts.len()
            invariant
                self.concepts@ == before,
                bv == concept_views(before),
                k <= before.len(),
                forall|m: int| 0 <= m < k ==> (#[trigger] before[m]).id != c.id,
            decreases before.len() - k,
        {
            if self.concepts[k].id == c.id {
                assert(bv[k as int].id == c.id);
                return Ok(());
            }
            k += 1;
        }
        assert(!has_concept(bv, c.id)) by {
            assert forall|m: int| 0 <= m < before.len() implies bv[m].id != c.id by {
                assert(bv[m] == before[m]@);
            }
        }
        let mut j: usize = 0;
        while j < self.concepts.len() && self.concepts[j].sequence <= c.sequence
            invariant
                self.concepts@ == before,
                bv == concept_views(before),
                j <= before.len(),
                forall|k: int| 0 <= k < j ==> (#[trigger] bv[k]).sequence <= c.sequence,
            decreases before.len() - j,
        {
            assert(bv[j as int] == before[j as int]@);
            j += 1;
        }
        proof {
            assert forall|k: int| j <= k < bv.len() implies (#[trigger] bv[k]).sequence > c.sequence by {
                assert(sequence_le()(bv[j as int], bv[k]));
            }
            lemma_sorted_insert(bv, sequence_le(), j as int, c@);
        }
        let mut concepts: Vec<Concept> = Vec::new();
        std::mem::swap(&mut concepts, &mut self.concepts);
        concepts.insert(j, c);
        proof {
            before.insert_ensures(j as int, c);
            assert(concept_views(concepts@) =~= bv.insert(j as int, c@));
        }
        self.concepts = concepts;
        proof {
            assert(forall|k: int| 0 <= k < j ==> (#[trigger] bv[k]).sequence <= c.sequence);
            assert(forall|k: int| j <= k < bv.len() ==> (#[trigger] bv[k]).sequence > c.sequence);
            assert(bv == old(self)@.concepts);
            assert(self@ == (RepoView { concepts: old(self)@.concepts.insert(j as int, c@), ..old(self)@ }));
            assert(curriculum_slot(old(self)@.concepts, j as int, c@));
        }
        Ok(())
    }

    /// Appends content item `i`, unless an item with its identifier is
    /// already stored, which leaves the store unchanged.
    pub fn insert_item(&mut self, i: ContentItem) -> (r: Result<(), RepoError>)
        ensures
            r is Ok,
            item_stored(old(self)@, final(self)@, i@),
    {
        proof {
            use_type_invariant(&*self);
        }
        let ghost before = self.items@;
        let mut k: usize = 0;
        while k < self.items.len()
            invariant
                self.items@ == before,
                k <= before.len(),
                forall|m: int| 0 <= m < k ==> (#[trigger] before[m]).id != i.id,
            decreases before.len() - k,
        {
            if self.items[k].id == i.id {
                assert(item_views(before)[k as int].id == i.id);
                return Ok(());
            }
            k += 1;
        }
        assert(!has_item(item_views(before), i.id)) by {
            assert forall|m: int| 0 <= m < before.len() implies item_views(before)[m].id != i.id by {
                assert(item_views(before)[m] == before[m]@);
            }
        }
        let mut items: Vec<ContentItem> = Vec::new();
        std::mem::swap(&mut items, &mut self.items);
        items.push(i);
        assert(item_views(items@) =~= item_views(before).push(i@));
        self.items = items;
        Ok(())
    }

    /// All profiles, oldest first: each stored profile exactly once.
    pub fn list_profiles(&self) -> (r: Result<Vec<Profile>, RepoError>)
        ensures
            r matches Ok(v) && lists_profiles(self@.profiles, v@),
    {
        proof {
            use_type_invariant(self);
        }
        let mut v: Vec<Profile> = Vec::new();
        let mut i: usize = 0;
        while i < self.profiles.len()
            invariant
                self.wf(),
                i <= self.profiles@.len(),
                v@.len() == i,
                forall|k: int| 0 <= k < i ==> (#[trigger] v@[k])@ == self.profiles@[k]@,
            decreases self.profiles.len() - i,
        {
            v.push(self.profiles[i].clone());
            i += 1;
        }
        proof {
            let s = self.profiles@;
            assert forall|a: int| 0 <= a < v.len() implies self@.profiles.contains_key(#[trigger] v@[a].id)
                && self@.profiles[v@[a].id] == v@[a]@ by {
                lemma_keyed_map_at(s, profile_key(), profile_val(), a);
                assert(v@[a]@ == s[a]@);
            }
            assert forall|a: int, b: int| 0 <= a < v.len() && 0 <= b < v.len() && a != b implies v@[a].id != v@[b].id by {
                assert(v@[a]@ == s[a]@ && v@[b]@ == s[b]@);
                assert(profile_key()(s[a]) != profile_key()(s[b]));
            }
            assert forall|k: u128| #[trigger] self@.profiles.contains_key(k) implies exists|a: int| 0 <= a < v.len() && v@[a].id == k by {
                let a = choose|a: int| 0 <= a < s.len() && profile_key()(#[trigger] s[a]) == k;
                assert(v@[a]@ == s[a]@);
            }
            assert forall|a: int, b: int| 0 <= a < b < v.len() implies v@[a].created_at.spec_le(v@[b].created_at) by {
                assert(v@[a]@ == s[a]@ && v@[b]@ == s[b]@);
                assert(created_le()(s[a], s[b]));
            }
            assert(lists_profiles(self@.profiles, v@));
        }
        Ok(v)
    }

    /// The profile with identifier `id`; `NotFound` when there is none.
    pub fn get_profile(&self, id: u128) -> (r: Result<Profile, RepoError>)
        ensures
            profile_read(self@, id, r),
    {
        proof {
            use_type_invariant(self);
        }
        match self.profile_index(id) {
            Some(i) => {
                proof {
                    lemma_keyed_map_at(self.profiles@, profile_key(), profile_val(), i as int);
                }
                Ok(self.profiles[i].clone())
            },
            None => Err(RepoError::NotFound),
        }
    }

    /// Stores `p` under its identifier, replacing any profile stored there,
    /// and returns it.
    pub fn create_profile(&mut self, p: Profile) -> (r: Result<Profile, RepoError>)
        ensures
            profile_stored(old(self)@, final(self)@, p@),
            r matches Ok(q) && q@ == p@,
    {
        let q = p.clone();
        self.put_profile(p);
        Ok(q)
    }

    /// All courses in slug order: each stored course exactly once.
    pub fn list_courses(&self) -> (r: Result<Vec<Course>, RepoError>)
        ensures
            r matches Ok(v) && lists_courses(self@.courses, v@),
    {
        proof {
            use_type_invariant(self);
        }
        let mut v: Vec<Course> = Vec::new();
        let mut i: usize = 0;
        while i < self.courses.len()
            invariant
                self.wf(),
                i <= self.courses@.len(),
                v@ == self.courses@.take(i as int),
            decreases self.courses.len() - i,
        {
            v.push(self.courses[i].clone());
            i += 1;
            assert(v@ =~= self.courses@.take(i as int));
        }
        proof {
            let s = self.courses@;
            assert(v@ =~= s);
            assert forall|a: int| 0 <= a < v.len() implies self@.courses.contains_key(#[trigger] v@[a].id)
                && self@.courses[v@[a].id] == v@[a] by {
                lemma_keyed_map_at(s, course_key(), course_val(), a);
            }
            assert forall|a: int, b: int| 0 <= a < v.len() && 0 <= b < v.len() && a != b implies v@[a].id != v@[b].id by {
                assert(course_key()(s[a]) != course_key()(s[b]));
            }
            assert forall|k: u128| #[trigger] self@.courses.contains_key(k) implies exists|a: int| 0 <= a < v.len() && v@[a].id == k by {
                let a = choose|a: int| 0 <= a < s.len() && course_key()(#[trigger] s[a]) == k;
                assert(v@[a] == s[a]);
            }
            assert forall|a: int, b: int| 0 <= a < b < v.len() implies text_le(v@[a].slug@, v@[b].slug@) by {
                assert(slug_le()(s[a], s[b]));
            }
            assert(lists_courses(self@.courses, v@));
        }
        Ok(v)
    }

    /// A course whose slug is `slug`; `NotFound` when no course has it.
    pub fn get_course_by_slug(&self, slug: &str) -> (r: Result<Course, RepoError>)
        ensures
            match r {
                Ok(c) => self@.courses.contains_key(c.id) && self@.courses[c.id] == c && c.slug@ == slug@,
                Err(e) => e is NotFound && forall|k: u128| #[trigger] self@.courses.contains_key(k) ==> self@.courses[k].slug@ != slug@,
            },
    {
        proof {
            use_type_invariant(self);
        }
        let mut i: usize = 0;
        while i < self.courses.len()
            invariant
                self.wf(),
                i <= self.courses@.len(),
                forall|k: int| 0 <= k < i ==> (#[trigger] self.courses@[k]).slug@ != slug@,
            decreases self.courses.len() - i,
        {
            if text_eq(self.courses[i].slug.as_str(), slug) {
                proof {
                    lemma_keyed_map_at(self.courses@, course_key(), course_val(), i as int);
                }
                return Ok(self.courses[i].clone());
            }
            i += 1;
        }
        proof {
            let s = self.courses@;
            assert forall|k: u128| #[trigger] self@.courses.contains_key(k) implies self@.courses[k].slug@ != slug@ by {
                let a = choose|a: int| 0 <= a < s.len() && course_key()(#[trigger] s[a]) == k;
                lemma_keyed_map_at(s, course_key(), course_val(), a);
            }
        }
        Err(RepoError::NotFound)
    }

    /// The concepts of course `course_id`, in curriculum order.
    pub fn concepts_for_course(&self, course_id: u128) -> (r: Result<Vec<Concept>, RepoError>)
        ensures
            r matches Ok(v) && concept_views(v@) == self@.concepts.filter(of_course(course_id)) && forall|
                i: int,
                j: int,
            | 0 <= i < j < v.len() ==> v@[i].sequence <= v@[j].sequence,
    {
        proof {
            use_type_invariant(self);
        }
        let ghost s = concept_views(self.concepts@);
        let ghost pred = of_course(course_id);
        let mut v: Vec<Concept> = Vec::new();
        let mut i: usize = 0;
        while i < self.concepts.len()
            invariant
                self.wf(),
                s == concept_views(self.concepts@),
                pred == of_course(course_id),
                i <= s.len(),
                concept_views(v@) == s.take(i as int).filter(pred),
                forall|a: int, b: int| 0 <= a < b < v.len() ==> v@[a].sequence <= v@[b].sequence,
                forall|a: int, k: int| 0 <= a < v.len() && i <= k < s.len() ==> (#[trigger] v@[a]).sequence <= (#[trigger] s[k]).sequence,
            decreases self.concepts.len() - i,
        {
            proof {
                reveal(Seq::filter);
                assert(s.take(i + 1).drop_last() =~= s.take(i as int));
                assert(s.take(i + 1).last() == s[i as int]);
                assert(s[i as int] == self.concepts@[i as int]@);
            }
            if self.concepts[i].course_id == course_id {
                let ghost before = v@;
                v.push(self.concepts[i].clone());
                proof {
                    assert(concept_views(v@) =~= concept_views(before).push(s[i as int]));
                    assert forall|k: int| i + 1 <= k < s.len() implies s[i as int].sequence <= #[trigger] s[k].sequence by {
                        assert(sequence_le()(s[i as int], s[k]));
                    }
                    assert(v@[v.len() - 1]@ == s[i as int]);
                    assert forall|a: int, b: int| 0 <= a < b < v.len() implies v@[a].sequence <= v@[b].sequence by {
                        if b == v.len() - 1 {
                            assert(v@[a] == before[a]);
                        } else {
                            assert(v@[a] == before[a] && v@[b] == before[b]);
                        }
                    }
                    assert forall|a: int, k: int| 0 <= a < v.len() && i + 1 <= k < s.len() implies (#[trigger] v@[a]).sequence <= (#[trigger] s[k]).sequence by {
                        if a < v.len() - 1 {
                            assert(v@[a] == before[a]);
                        }
                    }
                }
            }
            i += 1;
        }
        assert(s.take(s.len() as int) =~= s);
        Ok(v)
    }

    /// The content items of course `course_id`, in insertion order.
    pub fn items_for_course(&self, course_id: u128) -> (r: Result<Vec<ContentItem>, RepoError>)
        ensures
            r matches Ok(v) && item_views(v@) == self@.items.filter(item_of_course(course_id)),
    {
        proof {
            use_type_invariant(self);
        }
        let ghost s = item_views(self.items@);
        let ghost pred = item_of_course(course_id);
        let mut v: Vec<ContentItem> = Vec::new();
        let mut i: usize = 0;
        while i < self.items.len()
            invariant
                s == item_views(self.items@),
                pred == item_of_course(course_id),
                i <= s.len(),
                item_views(v@) == s.take(i as int).filter(pred),
            decreases self.items.len() - i,
        {
            proof {
                reveal(Seq::filter);
                assert(s.take(i + 1).drop_last() =~= s.take(i as int));
                assert(s.take(i + 1).last() == s[i as int]);
                assert(s[i as int] == self.items@[i as int]@);
            }
            if self.items[i].course_id == course_id {
                let ghost before = v@;
                v.push(self.items[i].clone());
                assert(item_views(v@) =~= item_views(before).push(s[i as int]));
            }
            i += 1;
        }
        assert(s.take(s.len() as int) =~= s);
        Ok(v)
    }

    /// The first content item with identifier `id`; `NotFound` when there is none.
    pub fn get_item(&self, id: u128) -> (r: Result<ContentItem, RepoError>)
        ensures
            match r {
                Ok(it) => exists|k: int|
                    0 <= k < self@.items.len() && #[trigger] self@.items[k] == it@ && it.id == id && forall|j: int|
                        0 <= j < k ==> self@.items[j].id != id,
                Err(e) => e is NotFound && forall|k: int| 0 <= k < self@.items.len() ==> #[trigger] self@.items[k].id != id,
            },
    {
        proof {
            use_type_invariant(self);
        }
        let ghost s = item_views(self.items@);
        let mut i: usize = 0;
        while i < self.items.len()
            invariant
                s == item_views(self.items@),
                i <= s.len(),
                forall|k: int| 0 <= k < i ==> #[trigger] s[k].id != id,
            decreases self.items.len() - i,
        {
            assert(s[i as int] == self.items@[i as int]@);
            if self.items[i].id == id {
                let it = self.items[i].clone();
                assert(s[i as int] == it@);
                return Ok(it);
            }
            i += 1;
        }
        Err(RepoError::NotFound)
    }

    /// The freshness records of profile `profile_id`, each exactly once.
    pub fn freshness_for_profile(&self, profile_id: u128) -> (r: Result<Vec<FreshnessRecord>, RepoError>)
        ensures
            r matches Ok(v) && lists_freshness_of(self@.freshness, profile_id, v@),
    {
        proof {
            use_type_invariant(self);
        }
        let ghost s = self.freshness@;
        let mut v: Vec<FreshnessRecord> = Vec::new();
        let ghost mut idx: Seq<int> = Seq::empty();
        let mut i: usize = 0;
        while i < self.freshness.len()
            invariant
                self.wf(),
                s == self.freshness@,
                i <= s.len(),
                idx.len() == v.len(),
                forall|a: int| 0 <= a < v.len() ==> 0 <= #[trigger] idx[a] < i && v@[a] == s[idx[a]],
                forall|a: int, b: int| 0 <= a < b < v.len() ==> idx[a] < idx[b],
                forall|a: int| 0 <= a < v.len() ==> (#[trigger] v@[a]).profile_id == profile_id,
                forall|k: int| 0 <= k < i && (#[trigger] s[k]).profile_id == profile_id ==> exists|a: int| 0 <= a < v.len() && idx[a] == k,
            decreases self.freshness.len() - i,
        {
            let ghost old_idx = idx;
            if self.freshness[i].profile_id == profile_id {
                v.push(self.freshness[i]);
                proof {
                    idx = idx.push(i as int);
                    assert(idx[v.len() - 1] == i);
                }
            }
            proof {
                assert forall|k: int| 0 <= k < i + 1 && (#[trigger] s[k]).profile_id == profile_id implies exists|
                    a: int,
                | 0 <= a < v.len() && idx[a] == k by {
                    if k == i {
                        assert(idx[v.len() - 1] == i);
                    } else {
                        let a = choose|a: int| 0 <= a < old_idx.len() && old_idx[a] == k;
                        assert(idx[a] == old_idx[a]);
                    }
                }
            }
            i += 1;
        }
        proof {
            let m = self@.freshness;
            assert forall|a: int| 0 <= a < v.len() implies (#[trigger] v@[a]).profile_id == profile_id
                && m.contains_key((profile_id, v@[a].concept_id)) && m[(profile_id, v@[a].concept_id)] == v@[a] by {
                lemma_keyed_map_at(s, freshness_key(), freshness_val(), idx[a]);
            }
            assert forall|a: int, b: int| 0 <= a < v.len() && 0 <= b < v.len() && a != b implies v@[a].concept_id != v@[b].concept_id by {
                assert(idx[a] != idx[b]);
                assert(freshness_key()(s[idx[a]]) != freshness_key()(s[idx[b]]));
            }
            assert forall|c: u128| #[trigger] m.contains_key((profile_id, c)) implies exists|a: int| 0 <= a < v.len() && v@[a].concept_id == c by {
                let k = choose|k: int| 0 <= k < s.len() && freshness_key()(#[trigger] s[k]) == (profile_id, c);
                assert(s[k].profile_id == profile_id);
                let a = choose|a: int| 0 <= a < v.len() && idx[a] == k;
                assert(v@[a] == s[k]);
            }
        }
        Ok(v)
    }

    /// The freshness record of (profile, concept), if one is stored.
    pub fn get_freshness(&self, profile_id: u128, concept_id: u128) -> (r: Result<Option<FreshnessRecord>, RepoError>)
        ensures
            freshness_read(self@, profile_id, concept_id, r),
    {
        proof {
            use_type_invariant(self);
        }
        match self.freshness_index(profile_id, concept_id) {
            Some(i) => {
                proof {
                    lemma_keyed_map_at(self.freshness@, freshness_key(), freshness_val(), i as int);
                }
                Ok(Some(self.freshness[i]))
            },
            None => Ok(None),
        }
    }

    /// Stores `rec` under (its profile, its concept), replacing any record stored there.
    pub fn upsert_freshness(&mut self, rec: FreshnessRecord) -> (r: Result<(), RepoError>)
        ensures
            r is Ok,
            freshness_stored(old(self)@, final(self)@, rec),
    {
        proof {
            use_type_invariant(&*self);
        }
        let ghost before = self.freshness@;
        let found = self.freshness_index(rec.profile_id, rec.concept_id);
        let mut freshness: Vec<FreshnessRecord> = Vec::new();
        std::mem::swap(&mut freshness, &mut self.freshness);
        match found {
            Some(i) => {
                proof {
                    lemma_keyed_map_update(before, freshness_key(), freshness_val(), i as int, rec);
                }
                freshness.set(i, rec);
            },
            None => {
                proof {
                    lemma_keyed_map_push(before, freshness_key(), freshness_val(), rec);
                }
                freshness.push(rec);
            },
        }
        self.freshness = freshness;
        Ok(())
    }

    /// Appends a review event.
    pub fn record_event(
        &mut self,
        profile_id: u128,
        concept_id: u128,
        item_id: u128,
        rating: i16,
        success_weight_bits: u64,
        at: Timestamp,
    ) -> (r: Result<(), RepoError>)
        ensures
            r is Ok,
            final(self)@ == (RepoView {
                events: old(self)@.events.push(
                    EventRow { profile_id, concept_id, item_id, rating, success_weight_bits, created_at: at },
                ),
                ..old(self)@
            }),
    {
        proof {
            use_type_invariant(&*self);
        }
        let mut events: Vec<EventRow> = Vec::new();
        std::mem::swap(&mut events, &mut self.events);
        events.push(EventRow { profile_id, concept_id, item_id, rating, success_weight_bits, created_at: at });
        self.events = events;
        Ok(())
    }

    /// The events of profile `profile_id`, in the order they were recorded.
    pub fn events_for_profile(&self, profile_id: u128) -> (r: Result<Vec<EventRow>, RepoError>)
        ensures
            r matches Ok(v) && v@ == self@.events.filter(event_of_profile(profile_id)),
    {
        proof {
            use_type_invariant(self);
        }
        let ghost s = self.events@;
        let ghost pred = event_of_profile(profile_id);
        let mut v: Vec<EventRow> = Vec::new();
        let mut i: usize = 0;
        while i < self.events.len()
            invariant
                s == self.events@,
                pred == event_of_profile(profile_id),
                i <= s.len(),
                v@ == s.take(i as int).filter(pred),
            decreases self.events.len() - i,
        {
            proof {
                reveal(Seq::filter);
                assert(s.take(i + 1).drop_last() =~= s.take(i as int));
                assert(s.take(i + 1).last() == s[i as int]);
            }
            if self.events[i].profile_id == profile_id {
                v.push(self.events[i]);
            }
            i += 1;
        }
        assert(s.take(s.len() as int) =~= s);
        Ok(v)
    }
}

} // verus!
